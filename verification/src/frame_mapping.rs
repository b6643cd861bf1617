//! The physical-to-virtual translation capability: the one way the mapper
//! reaches a page table given the physical frame address an entry points to.
//!
//! The capability is modelled as access to a collection of page tables keyed
//! by frame address.  `DirectFrameMapping` is the store-backed
//! implementation the kernel model uses.

use vstd::prelude::*;
use crate::page_table::{zero_table, PageTable, PageTableEntry};

verus! {

/// The tables reachable through an association of frame addresses to page
/// tables, as a map.  A later pair with the same key would shadow an
/// earlier one.
pub open spec fn tables_of(keys: Seq<u64>, vals: Seq<Seq<u64>>) -> Map<u64, Seq<u64>>
    recommends
        keys.len() == vals.len(),
    decreases keys.len(),
{
    if keys.len() == 0 {
        Map::empty()
    } else {
        tables_of(keys.drop_last(), vals.drop_last()).insert(keys.last(), vals.last())
    }
}

/// The keys of `tables_of` are exactly the listed keys.
pub proof fn lemma_tables_of_domain(keys: Seq<u64>, vals: Seq<Seq<u64>>, a: u64)
    requires
        keys.len() == vals.len(),
    ensures
        tables_of(keys, vals).contains_key(a) <==> keys.contains(a),
    decreases keys.len(),
{
    if keys.len() > 0 {
        lemma_tables_of_domain(keys.drop_last(), vals.drop_last(), a);
        if keys.contains(a) {
            let i = choose|i: int| 0 <= i < keys.len() && keys[i] == a;
            if i < keys.len() - 1 {
                assert(keys.drop_last()[i] == a);
            }
        } else {
            assert(forall|i: int| 0 <= i < keys.len() - 1 ==> keys.drop_last()[i] == keys[i]);
        }
    }
}

/// With distinct keys, `tables_of` looks up position `i` exactly.
pub proof fn lemma_tables_of_index(keys: Seq<u64>, vals: Seq<Seq<u64>>, i: int)
    requires
        keys.len() == vals.len(),
        forall|p: int, q: int| 0 <= p < q < keys.len() ==> keys[p] != keys[q],
        0 <= i < keys.len(),
    ensures
        tables_of(keys, vals).contains_key(keys[i]),
        tables_of(keys, vals)[keys[i]] == vals[i],
    decreases keys.len(),
{
    if i == keys.len() - 1 {
        lemma_tables_of_domain(keys, vals, keys[i]);
    } else {
        assert(keys[i] != keys[keys.len() - 1]);
        assert(keys.drop_last()[i] == keys[i] && vals.drop_last()[i] == vals[i]);
        lemma_tables_of_index(keys.drop_last(), vals.drop_last(), i);
    }
}

/// With distinct keys, updating position `i` updates exactly key `keys[i]`.
pub proof fn lemma_tables_of_update(keys: Seq<u64>, vals: Seq<Seq<u64>>, i: int, t: Seq<u64>)
    requires
        keys.len() == vals.len(),
        forall|p: int, q: int| 0 <= p < q < keys.len() ==> keys[p] != keys[q],
        0 <= i < keys.len(),
    ensures
        tables_of(keys, vals.update(i, t)) =~= tables_of(keys, vals).insert(keys[i], t),
    decreases keys.len(),
{
    let n = keys.len() - 1;
    if i == n {
        assert(vals.update(i, t).drop_last() =~= vals.drop_last());
        assert(vals.update(i, t).last() == t);
    } else {
        assert(keys[i] != keys[n]);
        assert(vals.update(i, t).drop_last() =~= vals.drop_last().update(i, t));
        assert(vals.update(i, t).last() == vals.last());
        assert(keys.drop_last()[i] == keys[i]);
        lemma_tables_of_update(keys.drop_last(), vals.drop_last(), i, t);
    }
}

/// Appending a pair inserts exactly that key.
pub proof fn lemma_tables_of_push(keys: Seq<u64>, vals: Seq<Seq<u64>>, a: u64, t: Seq<u64>)
    requires
        keys.len() == vals.len(),
    ensures
        tables_of(keys.push(a), vals.push(t)) =~= tables_of(keys, vals).insert(a, t),
{
    assert(keys.push(a).drop_last() =~= keys);
    assert(vals.push(t).drop_last() =~= vals);
}

/// Provides the page table sitting at a given physical frame address.
///
/// The well-formedness required of an implementation, enforced on whoever
/// constructs it: the capability must reach every table the walked entries
/// will ever point to, and each reachable table must have the full count of
/// entries.
pub trait PageTableFrameMapping: Sized {
    /// The page tables reachable through this capability, keyed by the
    /// physical frame address each one sits at.
    spec fn tables(&self) -> Map<u64, Seq<u64>>;

    /// The capability's internal invariant.
    spec fn wf(&self) -> bool;

    /// Every reachable table has the full count of entries.
    proof fn lemma_tables_len(&self)
        requires
            self.wf(),
        ensures
            forall|a: u64| #[trigger]
                self.tables().contains_key(a) ==> self.tables()[a].len() == 512,
    ;

    /// Whether a table sits at frame address `frame`.
    fn contains_table(&self, frame: u64) -> (r: bool)
        requires
            self.wf(),
        ensures
            r == self.tables().contains_key(frame),
    ;

    /// Reads entry `index` of the table at `frame`.
    fn table_entry(&self, frame: u64, index: usize) -> (r: PageTableEntry)
        requires
            self.wf(),
            self.tables().contains_key(frame),
            index < 512,
        ensures
            r@ == self.tables()[frame][index as int],
    ;

    /// Overwrites entry `index` of the table at `frame`.
    fn set_table_entry(&mut self, frame: u64, index: usize, e: PageTableEntry)
        requires
            old(self).wf(),
            old(self).tables().contains_key(frame),
            index < 512,
        ensures
            final(self).wf(),
            final(self).tables() =~= old(self).tables().insert(
                frame,
                old(self).tables()[frame].update(index as int, e@),
            ),
    ;

    /// Makes a fresh, zero-filled table reachable at frame address `frame`.
    fn insert_table(&mut self, frame: u64)
        requires
            old(self).wf(),
            !old(self).tables().contains_key(frame),
        ensures
            final(self).wf(),
            final(self).tables() =~= old(self).tables().insert(frame, zero_table()),
    ;
}

/// The store-backed capability: owns the page tables it serves, in two
/// parallel vectors of frame addresses and table contents.
#[derive(Debug)]
pub struct DirectFrameMapping {
    addrs: Vec<u64>,
    tbls: Vec<PageTable>,
}

impl DirectFrameMapping {
    /// A capability that reaches no table yet.
    pub fn new() -> (r: DirectFrameMapping)
        ensures
            r.wf(),
            r.tables() =~= Map::<u64, Seq<u64>>::empty(),
    {
        let r = DirectFrameMapping { addrs: Vec::new(), tbls: Vec::new() };
        proof {
            assert(r.addrs@.len() == 0);
        }
        r
    }

    /// The views of the held tables.
    pub closed spec fn table_views(&self) -> Seq<Seq<u64>> {
        self.tbls@.map_values(|t: PageTable| t@)
    }

    /// The held frame addresses.
    pub closed spec fn keys(&self) -> Seq<u64> {
        self.addrs@
    }

    /// Finds the position a table for `frame` is held at.
    fn position(&self, frame: u64) -> (r: Option<usize>)
        ensures
            r matches Some(i) ==> i < self.keys().len() && self.keys()[i as int] == frame,
            r is None ==> forall|j: int| 0 <= j < self.keys().len() ==> self.keys()[j] != frame,
    {
        let n = self.addrs.len();
        let mut i: usize = 0;
        while i < n
            invariant
                i <= n,
                n == self.addrs@.len(),
                forall|j: int| 0 <= j < i ==> self.addrs@[j] != frame,
            decreases n - i,
        {
            if self.addrs[i] == frame {
                return Some(i);
            }
            i = i + 1;
        }
        None
    }
}

impl PageTableFrameMapping for DirectFrameMapping {
    open spec fn tables(&self) -> Map<u64, Seq<u64>> {
        tables_of(self.keys(), self.table_views())
    }

    open spec fn wf(&self) -> bool {
        &&& self.keys().len() == self.table_views().len()
        &&& forall|p: int, q: int|
            0 <= p < q < self.keys().len() ==> #[trigger] self.keys()[p]
                != #[trigger] self.keys()[q]
        &&& forall|p: int|
            0 <= p < self.table_views().len() ==> (#[trigger] self.table_views()[p]).len() == 512
    }

    proof fn lemma_tables_len(&self) {
        assert forall|a: u64| #[trigger]
            self.tables().contains_key(a) implies self.tables()[a].len() == 512 by {
            lemma_tables_of_domain(self.keys(), self.table_views(), a);
            let i = choose|i: int| 0 <= i < self.keys().len() && self.keys()[i] == a;
            lemma_tables_of_index(self.keys(), self.table_views(), i);
        }
    }

    fn contains_table(&self, frame: u64) -> (r: bool) {
        proof {
            lemma_tables_of_domain(self.keys(), self.table_views(), frame);
        }
        match self.position(frame) {
            Some(_) => true,
            None => {
                proof {
                    assert(!self.keys().contains(frame));
                }
                false
            },
        }
    }

    fn table_entry(&self, frame: u64, index: usize) -> (r: PageTableEntry) {
        proof {
            lemma_tables_of_domain(self.keys(), self.table_views(), frame);
        }
        match self.position(frame) {
            Some(i) => {
                proof {
                    lemma_tables_of_index(self.keys(), self.table_views(), i as int);
                }
                self.tbls[i].entry(index)
            },
            None => {
                // Unreachable: a table for `frame` is reachable by the
                // precondition, so the scan finds it.
                proof {
                    assert(!self.keys().contains(frame));
                    assert(false);
                }
                PageTableEntry::new()
            },
        }
    }

    fn set_table_entry(&mut self, frame: u64, index: usize, e: PageTableEntry) {
        proof {
            lemma_tables_of_domain(self.keys(), self.table_views(), frame);
        }
        match self.position(frame) {
            Some(i) => {
                proof {
                    lemma_tables_of_index(self.keys(), self.table_views(), i as int);
                }
                let t = &mut self.tbls[i];
                t.set_entry(index, e);
                proof {
                    assert(self.table_views() =~= old(self).table_views().update(
                        i as int,
                        old(self).table_views()[i as int].update(index as int, e@),
                    ));
                    lemma_tables_of_update(
                        old(self).keys(),
                        old(self).table_views(),
                        i as int,
                        old(self).table_views()[i as int].update(index as int, e@),
                    );
                }
            },
            None => {
                // Unreachable: a table for `frame` is reachable by the
                // precondition, so the scan finds it.
                proof {
                    assert(!self.keys().contains(frame));
                    assert(false);
                }
            },
        }
    }

    fn insert_table(&mut self, frame: u64) {
        proof {
            lemma_tables_of_domain(self.keys(), self.table_views(), frame);
            assert(!self.keys().contains(frame));
        }
        self.addrs.push(frame);
        self.tbls.push(PageTable::new());
        proof {
            assert(self.keys() =~= old(self).keys().push(frame));
            assert(self.table_views() =~= old(self).table_views().push(zero_table()));
            lemma_tables_of_push(
                old(self).keys(),
                old(self).table_views(),
                frame,
                zero_table(),
            );
            assert forall|p: int, q: int|
                0 <= p < q < self.keys().len() implies #[trigger] self.keys()[p]
                != #[trigger] self.keys()[q] by {
                if q == self.keys().len() - 1 {
                    assert(self.keys()[q] == frame);
                    assert(old(self).keys()[p] == self.keys()[p]);
                }
            }
        }
    }
}

} // verus!
