//! The generic two-level mapper: per-page-size map, unmap, flag update and
//! translate operations over a level-2 table whose non-huge entries point,
//! through the phys-to-virt capability, at level-1 tables.

use vstd::prelude::*;
use crate::addr::{
    e_addr, e_flags, e_huge, e_present, flags_contain, flags_contains, lemma_contain_absorb,
    lemma_e_addr_in_range, lemma_e_flags_is_flag_word, lemma_entry_zero, lemma_flags_union,
    lemma_merge_present_huge, p1_index_of, p2_index_of, FLAGS_MASK, HUGE_PAGE, PRESENT, SIZE_2MIB,
    SIZE_4KIB, USER_ACCESSIBLE, WRITABLE,
};
use crate::frame_alloc::BootInfoFrameAllocator;
use crate::frame_mapping::PageTableFrameMapping;
use crate::page::{Page, PageSize, PhysFrame};
use crate::page_table::{zero_table, FrameError, PageTable, PageTableEntry};

verus! {

/// Why a walk from an entry to the next table level stopped.
#[derive(Clone, Copy, Debug, PartialEq, Eq, Structural)]
pub enum PageTableWalkError {
    /// The entry is not present.
    NotMapped,
    /// The entry maps a huge page and terminates the walk at its own level.
    MappedToHugePage,
}

/// Why creating the next table level failed.
#[derive(Clone, Copy, Debug, PartialEq, Eq, Structural)]
pub enum PageTableCreateError {
    /// The entry already maps a huge page.
    MappedToHugePage,
    /// The frame allocator is exhausted.
    FrameAllocationFailed,
}

/// Why a map operation failed.
#[derive(Clone, Copy, Debug, PartialEq, Eq, Structural)]
pub enum MapToError {
    /// The frame allocator is exhausted.
    FrameAllocationFailed,
    /// An intermediate entry already maps a huge page.
    ParentEntryHugePage,
    /// The terminal entry is already in use; carries the frame whose
    /// mapping was requested.
    PageAlreadyMapped(PhysFrame),
}

/// Why an unmap operation failed.
#[derive(Clone, Copy, Debug, PartialEq, Eq, Structural)]
pub enum UnmapError {
    /// An intermediate entry maps a huge page where a table was expected,
    /// or the terminal entry's size does not match the request.
    ParentEntryHugePage,
    /// The page is not mapped.
    PageNotMapped,
    /// The entry holds an address that fails the frame's own alignment
    /// invariant; carries that address.
    InvalidFrameAddress(u64),
}

/// Why a flag update failed.
#[derive(Clone, Copy, Debug, PartialEq, Eq, Structural)]
pub enum FlagUpdateError {
    /// The page is not mapped.
    PageNotMapped,
    /// An intermediate entry maps a huge page where a table was expected.
    ParentEntryHugePage,
}

/// Why translating a single page failed.
#[derive(Clone, Copy, Debug, PartialEq, Eq, Structural)]
pub enum TranslateError {
    /// The page is not mapped.
    PageNotMapped,
    /// An intermediate entry maps a huge page where a table was expected.
    ParentEntryHugePage,
    /// The entry holds an address that fails the frame's own alignment
    /// invariant; carries that address.
    InvalidFrameAddress(u64),
}

/// The outcome of translating an arbitrary virtual address.
#[derive(Clone, Copy, Debug, PartialEq, Eq, Structural)]
pub enum TranslateResult {
    /// No mapping covers the address.
    NotMapped,
    /// A mapping covers the address.
    Mapped {
        /// The frame the covering mapping targets.
        frame: PhysFrame,
        /// Offset of the address within that frame.
        offset: u64,
        /// The covering entry's flags.
        flags: u64,
    },
    /// The terminal entry holds an address failing its alignment invariant.
    InvalidFrameAddress(u64),
}

/// The obligation to invalidate any cached translation for one page before
/// relying on the new state.
#[derive(Clone, Copy, Debug, PartialEq, Eq, Structural)]
#[must_use]
pub struct MapperFlush {
    /// The page whose cached translation is stale.
    pub page: Page,
}

impl MapperFlush {
    /// A flush obligation for `page`.
    pub fn new(page: Page) -> (r: MapperFlush)
        ensures
            r.page == page,
    {
        MapperFlush { page }
    }

    /// Discharges the obligation.  In the model there is no translation
    /// cache; on hardware this is where the single-page invalidation
    /// instruction would be issued by the embedder.
    pub fn flush(self) {
    }
}

/// The obligation to invalidate every cached translation.
#[derive(Clone, Copy, Debug, PartialEq, Eq, Structural)]
#[must_use]
pub struct MapperFlushAll {
}

impl MapperFlushAll {
    /// A whole-cache flush obligation.
    pub fn new() -> (r: MapperFlushAll) {
        MapperFlushAll {  }
    }

    /// Discharges the obligation; see `MapperFlush::flush`.
    pub fn flush_all(self) {
    }
}

/// Conversion used when a walk error surfaces from an entry.
pub fn walk_error_from_frame_error(err: FrameError) -> (r: PageTableWalkError)
    ensures
        r == (match err {
            FrameError::HugeFrame => PageTableWalkError::MappedToHugePage,
            FrameError::FrameNotPresent => PageTableWalkError::NotMapped,
        }),
{
    match err {
        FrameError::HugeFrame => PageTableWalkError::MappedToHugePage,
        FrameError::FrameNotPresent => PageTableWalkError::NotMapped,
    }
}

/// Conversion used when table creation fails under a map request.
pub fn map_error_from_create_error(err: PageTableCreateError) -> (r: MapToError)
    ensures
        r == (match err {
            PageTableCreateError::MappedToHugePage => MapToError::ParentEntryHugePage,
            PageTableCreateError::FrameAllocationFailed => MapToError::FrameAllocationFailed,
        }),
{
    match err {
        PageTableCreateError::MappedToHugePage => MapToError::ParentEntryHugePage,
        PageTableCreateError::FrameAllocationFailed => MapToError::FrameAllocationFailed,
    }
}

/// Conversion used when a walk error surfaces from an unmap request.
pub fn unmap_error_from_walk_error(err: PageTableWalkError) -> (r: UnmapError)
    ensures
        r == (match err {
            PageTableWalkError::MappedToHugePage => UnmapError::ParentEntryHugePage,
            PageTableWalkError::NotMapped => UnmapError::PageNotMapped,
        }),
{
    match err {
        PageTableWalkError::MappedToHugePage => UnmapError::ParentEntryHugePage,
        PageTableWalkError::NotMapped => UnmapError::PageNotMapped,
    }
}

/// Conversion used when a walk error surfaces from a flag-update request.
pub fn flag_update_error_from_walk_error(err: PageTableWalkError) -> (r: FlagUpdateError)
    ensures
        r == (match err {
            PageTableWalkError::MappedToHugePage => FlagUpdateError::ParentEntryHugePage,
            PageTableWalkError::NotMapped => FlagUpdateError::PageNotMapped,
        }),
{
    match err {
        PageTableWalkError::MappedToHugePage => FlagUpdateError::ParentEntryHugePage,
        PageTableWalkError::NotMapped => FlagUpdateError::PageNotMapped,
    }
}

/// Conversion used when a walk error surfaces from a translate request.
pub fn translate_error_from_walk_error(err: PageTableWalkError) -> (r: TranslateError)
    ensures
        r == (match err {
            PageTableWalkError::MappedToHugePage => TranslateError::ParentEntryHugePage,
            PageTableWalkError::NotMapped => TranslateError::PageNotMapped,
        }),
{
    match err {
        PageTableWalkError::MappedToHugePage => TranslateError::ParentEntryHugePage,
        PageTableWalkError::NotMapped => TranslateError::PageNotMapped,
    }
}

/// Every 4 KiB frame the allocator can still hand out is not yet the seat
/// of a reachable page table.  This is the freshness the walker needs so
/// that installing a newly allocated table can never alias one in use.
pub open spec fn alloc_fresh(alloc: BootInfoFrameAllocator, tables: Map<u64, Seq<u64>>) -> bool {
    forall|k: int|
        alloc.next <= k < alloc.frames(PageSize::Size4KiB).len() ==> !tables.contains_key(
            #[trigger] alloc.frames(PageSize::Size4KiB)[k],
        )
}

/// Resolves or creates next-level tables for entries, through the
/// phys-to-virt capability it was constructed with.
pub struct PageTableWalker<P: PageTableFrameMapping> {
    page_table_frame_mapping: P,
}

impl<P: PageTableFrameMapping> PageTableWalker<P> {
    /// The capability's tables.
    pub closed spec fn tables(&self) -> Map<u64, Seq<u64>> {
        self.page_table_frame_mapping.tables()
    }

    /// The capability is internally well formed.
    pub closed spec fn wf(&self) -> bool {
        self.page_table_frame_mapping.wf()
    }

    /// The capability the walker was constructed with.
    pub closed spec fn mapping(&self) -> P {
        self.page_table_frame_mapping
    }

    /// A walker over the given capability.  The caller is responsible for
    /// the capability reaching every table the walked entries point to.
    pub fn new(page_table_frame_mapping: P) -> (r: PageTableWalker<P>)
        ensures
            r.mapping() == page_table_frame_mapping,
            r.tables() == page_table_frame_mapping.tables(),
            r.wf() == page_table_frame_mapping.wf(),
    {
        PageTableWalker { page_table_frame_mapping }
    }

    /// Follows `entry` to the frame address of the next-level table, or
    /// reports why the entry terminates the walk.
    pub fn next_table(&self, entry: PageTableEntry) -> (r: Result<u64, PageTableWalkError>)
        requires
            self.wf(),
            e_present(entry@) && !e_huge(entry@) ==> self.tables().contains_key(e_addr(entry@)),
        ensures
            r is Ok <==> (e_present(entry@) && !e_huge(entry@)),
            r matches Ok(a) ==> a == e_addr(entry@) && self.tables().contains_key(a)
                && self.tables()[a].len() == 512,
            r == Err::<u64, PageTableWalkError>(PageTableWalkError::NotMapped) <==> !e_present(
                entry@,
            ),
            r == Err::<u64, PageTableWalkError>(PageTableWalkError::MappedToHugePage) <==> (
            e_present(entry@) && e_huge(entry@)),
    {
        match entry.frame() {
            Ok(f) => {
                proof {
                    self.page_table_frame_mapping.lemma_tables_len();
                }
                Ok(f.start_address())
            },
            Err(e) => Err(walk_error_from_frame_error(e)),
        }
    }

    /// Resolves the next-level table for `entry`, allocating, installing
    /// and zero-filling a fresh one when the entry is unused.  Flags
    /// already on a used entry are merged with `insert_flags`, never
    /// removed.  The walker expects a used entry to be present; walking a
    /// non-present, non-zero entry would mean a broken invariant in the
    /// caller.
    pub fn create_next_table(
        &mut self,
        entry: &mut PageTableEntry,
        insert_flags: u64,
        allocator: &mut BootInfoFrameAllocator,
    ) -> (r: Result<u64, PageTableCreateError>)
        requires
            old(self).wf(),
            insert_flags & FLAGS_MASK == insert_flags,
            flags_contain(insert_flags, PRESENT),
            !flags_contain(insert_flags, HUGE_PAGE),
            old(entry)@ != 0 ==> e_present(old(entry)@),
            e_present(old(entry)@) && !e_huge(old(entry)@) ==> old(self).tables().contains_key(
                e_addr(old(entry)@),
            ),
            old(allocator).wf(),
            old(allocator).next + 1024 <= usize::MAX,
            alloc_fresh(*old(allocator), old(self).tables()),
        ensures
            final(self).wf(),
            final(allocator).wf(),
            final(allocator).memory_map == old(allocator).memory_map,
            alloc_fresh(*final(allocator), final(self).tables()),
            r is Ok <==> (old(entry)@ == 0 && (old(allocator).next as int) < old(allocator).frames(
                PageSize::Size4KiB,
            ).len()) || (e_present(old(entry)@) && !e_huge(old(entry)@)),
            r matches Ok(a) ==> ({
                &&& a == e_addr(final(entry)@)
                &&& e_present(final(entry)@) && !e_huge(final(entry)@)
                &&& final(self).tables().contains_key(a)
                &&& final(self).tables()[a].len() == 512
                &&& if old(entry)@ == 0 {
                    &&& a == old(allocator).frames(PageSize::Size4KiB)[old(allocator).next as int]
                    &&& !old(self).tables().contains_key(a)
                    &&& final(entry)@ == (a | insert_flags)
                    &&& final(self).tables() =~= old(self).tables().insert(a, zero_table())
                    &&& final(allocator).next == old(allocator).next + 1
                } else {
                    &&& a == e_addr(old(entry)@)
                    &&& final(entry)@ == (a | (e_flags(old(entry)@) | insert_flags))
                    &&& final(self).tables() == old(self).tables()
                    &&& *final(allocator) == *old(allocator)
                }
            }),
            r == Err::<u64, PageTableCreateError>(PageTableCreateError::FrameAllocationFailed)
                <==> (old(entry)@ == 0 && (old(allocator).next as int) >= old(allocator).frames(
                PageSize::Size4KiB,
            ).len()),
            r == Err::<u64, PageTableCreateError>(PageTableCreateError::FrameAllocationFailed)
                ==> final(entry)@ == old(entry)@ && final(self).tables() == old(self).tables()
                && final(allocator).next == old(allocator).next + 1,
            r == Err::<u64, PageTableCreateError>(PageTableCreateError::MappedToHugePage) <==> (
            e_present(old(entry)@) && e_huge(old(entry)@)),
            r == Err::<u64, PageTableCreateError>(PageTableCreateError::MappedToHugePage)
                ==> final(entry)@ == (e_addr(old(entry)@) | (e_flags(old(entry)@) | insert_flags))
                && final(self).tables() == old(self).tables() && *final(allocator) == *old(allocator),
    {
        proof {
            lemma_entry_zero(old(entry)@);
            crate::addr::lemma_zero_entry();
            lemma_e_flags_is_flag_word(old(entry)@);
            lemma_e_addr_in_range(old(entry)@);
            lemma_flags_union(e_flags(old(entry)@), insert_flags);
            lemma_merge_present_huge(e_flags(old(entry)@), insert_flags);
        }
        if entry.is_unused() {
            match allocator.allocate_frame(PageSize::Size4KiB) {
                Some(frame) => {
                    entry.set_frame(frame, insert_flags);
                    proof {
                        crate::frame_alloc::lemma_frames_seq_facts(
                            allocator.memory_map@,
                            SIZE_4KIB,
                        );
                    }
                    self.page_table_frame_mapping.insert_table(frame.start_address());
                    Ok(frame.start_address())
                },
                None => Err(PageTableCreateError::FrameAllocationFailed),
            }
        } else {
            if insert_flags != 0 && !flags_contains(entry.flags(), insert_flags) {
                let fl = entry.flags() | insert_flags;
                entry.set_flags(fl);
            } else {
                proof {
                    if flags_contain(e_flags(old(entry)@), insert_flags) {
                        lemma_contain_absorb(e_flags(old(entry)@), insert_flags);
                    }
                }
            }
            let e = *entry;
            match self.next_table(e) {
                Err(PageTableWalkError::MappedToHugePage) => Err(
                    PageTableCreateError::MappedToHugePage,
                ),
                Err(PageTableWalkError::NotMapped) => {
                    // A used entry is present by the walker's precondition,
                    // so the walk cannot report absence here.
                    proof {
                        assert(false);
                    }
                    Err(PageTableCreateError::FrameAllocationFailed)
                },
                Ok(a) => Ok(a),
            }
        }
    }
}

/// The flags a map request passes on to newly created parent entries:
/// only the access bits, never the huge-page bit.
pub proof fn lemma_parent_flags(f: u64)
    ensures
        (f & 0x7) & FLAGS_MASK == (f & 0x7),
        flags_contain(f, PRESENT) ==> flags_contain(f & 0x7, PRESENT),
        !flags_contain(f & 0x7, HUGE_PAGE),
{
    assert(((f & 0x7u64) & 0xFFF0_0000_0000_0FFFu64 == (f & 0x7u64)) && (f & 0x1u64 == 0x1u64
        ==> (f & 0x7u64) & 0x1u64 == 0x1u64) && !((f & 0x7u64) & 0x80u64 == 0x80u64))
        by (bit_vector);
}

/// How an entry looks after its flags were merged with `insert`: the
/// address survives, the flag field is the union, and presence and
/// hugeness follow the union.
pub proof fn lemma_merged_entry(e: u64, insert: u64)
    requires
        insert & FLAGS_MASK == insert,
    ensures
        e_addr(e_addr(e) | (e_flags(e) | insert)) == e_addr(e),
        e_flags(e_addr(e) | (e_flags(e) | insert)) == (e_flags(e) | insert),
        e_present(e_addr(e) | (e_flags(e) | insert)) <==> (e_present(e) || flags_contain(
            insert,
            PRESENT,
        )),
        e_huge(e_addr(e) | (e_flags(e) | insert)) <==> (e_huge(e) || flags_contain(
            insert,
            HUGE_PAGE,
        )),
{
    lemma_e_addr_in_range(e);
    lemma_e_flags_is_flag_word(e);
    lemma_flags_union(e_flags(e), insert);
    crate::addr::lemma_entry_pack(e_addr(e), e_flags(e) | insert);
    lemma_merge_present_huge(e_flags(e), insert);
}

/// The two-level mapper: a level-2 table plus the walker that reaches the
/// level-1 tables its entries point to.
pub struct MappedPageTable<P: PageTableFrameMapping> {
    level_2_table: PageTable,
    page_table_walker: PageTableWalker<P>,
}

impl<P: PageTableFrameMapping> MappedPageTable<P> {
    /// The entry words of the level-2 table.
    pub closed spec fn l2(self) -> Seq<u64> {
        self.level_2_table@
    }

    /// The level-1 tables reachable through the capability, keyed by frame
    /// address.
    pub closed spec fn tables(self) -> Map<u64, Seq<u64>> {
        self.page_table_walker.tables()
    }

    /// The capability's internal invariant.
    pub closed spec fn mapping_wf(self) -> bool {
        self.page_table_walker.wf()
    }

    /// The mapper's invariant: the level-2 table is complete; a used entry
    /// is present; a present, non-huge entry points at a reachable level-1
    /// table; and no two entries share one level-1 table.
    pub open spec fn wf(self) -> bool {
        &&& self.l2().len() == 512
        &&& self.mapping_wf()
        &&& forall|i: int|
            0 <= i < 512 ==> ((#[trigger] self.l2()[i]) != 0 ==> e_present(self.l2()[i]))
        &&& forall|i: int|
            0 <= i < 512 ==> (e_present(#[trigger] self.l2()[i]) && !e_huge(self.l2()[i])
                ==> self.tables().contains_key(e_addr(self.l2()[i])))
        &&& forall|i: int, j: int|
            0 <= i < j < 512 ==> ((e_present(#[trigger] self.l2()[i]) && !e_huge(self.l2()[i])
                && e_present(#[trigger] self.l2()[j]) && !e_huge(self.l2()[j])) ==> e_addr(
                self.l2()[i],
            ) != e_addr(self.l2()[j]))
    }

    /// What translating `va` reads out of the current state: nothing, a
    /// huge mapping terminated at level 2, or a small mapping terminated at
    /// level 1.  A huge mapping keeps all address bits below the huge-page
    /// boundary as the offset; a small one only those below the page
    /// boundary.
    pub open spec fn spec_translate(self, va: u64) -> TranslateResult {
        let e = self.l2()[p2_index_of(va)];
        if !e_present(e) {
            TranslateResult::NotMapped
        } else if e_huge(e) {
            TranslateResult::Mapped {
                frame: PhysFrame {
                    start: (e_addr(e) - (e_addr(e) % SIZE_2MIB)) as u64,
                    size: PageSize::Size2MiB,
                },
                offset: (va % SIZE_2MIB) as u64,
                flags: e_flags(e),
            }
        } else {
            let u = self.tables()[e_addr(e)][p1_index_of(va)];
            if u == 0 {
                TranslateResult::NotMapped
            } else {
                TranslateResult::Mapped {
                    frame: PhysFrame { start: e_addr(u), size: PageSize::Size4KiB },
                    offset: (va % SIZE_4KIB) as u64,
                    flags: e_flags(u),
                }
            }
        }
    }

    /// A mapper over the given level-2 table and capability.  The caller
    /// is responsible for the pieces forming a valid hierarchy, as spelled
    /// out in the preconditions; a bare zeroed table with a fresh
    /// capability always qualifies.
    pub fn new(level_2_table: PageTable, page_table_walker: PageTableWalker<P>) -> (r:
        MappedPageTable<P>)
        requires
            level_2_table.wf(),
            page_table_walker.wf(),
            forall|i: int|
                0 <= i < 512 ==> ((#[trigger] level_2_table@[i]) != 0 ==> e_present(
                    level_2_table@[i],
                )),
            forall|i: int|
                0 <= i < 512 ==> (e_present(#[trigger] level_2_table@[i]) && !e_huge(
                    level_2_table@[i],
                ) ==> page_table_walker.tables().contains_key(e_addr(level_2_table@[i]))),
            forall|i: int, j: int|
                0 <= i < j < 512 ==> ((e_present(#[trigger] level_2_table@[i]) && !e_huge(
                    level_2_table@[i],
                ) && e_present(#[trigger] level_2_table@[j]) && !e_huge(level_2_table@[j]))
                    ==> e_addr(level_2_table@[i]) != e_addr(level_2_table@[j])),
        ensures
            r.wf(),
            r.l2() == level_2_table@,
            r.tables() == page_table_walker.tables(),
    {
        MappedPageTable { level_2_table, page_table_walker }
    }

    /// A reference to the wrapped level-2 table.
    pub fn level_2_table(&self) -> (r: &PageTable)
        ensures
            r@ == self.l2(),
    {
        &self.level_2_table
    }

    /// The terminal level-1 entry word governing indices `(i, j)` while
    /// the level-2 entry `i` points at a table.
    pub open spec fn p1_entry(self, i: int, j: int) -> u64 {
        self.tables()[e_addr(self.l2()[i])][j]
    }

    /// Exactly how a terminal-level map request relates the states before
    /// and after, and which result it returns on which prior state.
    pub open spec fn map_to_4kib_post(
        pre: MappedPageTable<P>,
        post: MappedPageTable<P>,
        apre: BootInfoFrameAllocator,
        apost: BootInfoFrameAllocator,
        page: Page,
        frame: PhysFrame,
        flags: u64,
        parent_table_flags: u64,
        r: Result<MapperFlush, MapToError>,
    ) -> bool {
        let i = p2_index_of(page.start);
        let j = p1_index_of(page.start);
        let e = pre.l2()[i];
        &&& (r is Ok <==> ((e == 0 && (apre.next as int) < apre.frames(PageSize::Size4KiB).len())
            || (e_present(e) && !e_huge(e) && pre.p1_entry(i, j) == 0)))
        &&& (r matches Ok(flush) ==> flush.page == page && (if e == 0 {
            let a = apre.frames(PageSize::Size4KiB)[apre.next as int];
            &&& post.l2() =~= pre.l2().update(i, a | parent_table_flags)
            &&& post.tables() =~= pre.tables().insert(
                a,
                zero_table().update(j, frame.start | flags),
            )
            &&& !pre.tables().contains_key(a)
            &&& apost.next == apre.next + 1
        } else {
            let a = e_addr(e);
            &&& post.l2() =~= pre.l2().update(i, a | (e_flags(e) | parent_table_flags))
            &&& post.tables() =~= pre.tables().insert(
                a,
                pre.tables()[a].update(j, frame.start | flags),
            )
            &&& apost == apre
        }))
        &&& (r == Err::<MapperFlush, MapToError>(MapToError::FrameAllocationFailed) <==> (e == 0
            && (apre.next as int) >= apre.frames(PageSize::Size4KiB).len()))
        &&& (r == Err::<MapperFlush, MapToError>(MapToError::FrameAllocationFailed) ==> post.l2()
            =~= pre.l2() && post.tables() == pre.tables() && apost.next == apre.next + 1)
        &&& (r == Err::<MapperFlush, MapToError>(MapToError::ParentEntryHugePage) <==> (e_present(
            e,
        ) && e_huge(e)))
        &&& (r == Err::<MapperFlush, MapToError>(MapToError::ParentEntryHugePage) ==> post.l2()
            =~= pre.l2().update(i, e_addr(e) | (e_flags(e) | parent_table_flags)) && post.tables()
            == pre.tables() && apost == apre)
        &&& (r == Err::<MapperFlush, MapToError>(MapToError::PageAlreadyMapped(frame)) <==> (
        e_present(e) && !e_huge(e) && pre.p1_entry(i, j) != 0))
        &&& (r == Err::<MapperFlush, MapToError>(MapToError::PageAlreadyMapped(frame)) ==> post.l2()
            =~= pre.l2().update(i, e_addr(e) | (e_flags(e) | parent_table_flags)) && post.tables()
            == pre.tables() && apost == apre)
    }

    /// Maps `page` to `frame` at the terminal level, walking or creating
    /// the level-1 table first.  Rejected with `PageAlreadyMapped` when the
    /// terminal entry is in use at all; the existing mapping is then left
    /// unchanged.
    pub fn map_to_4kib(
        &mut self,
        page: Page,
        frame: PhysFrame,
        flags: u64,
        parent_table_flags: u64,
        allocator: &mut BootInfoFrameAllocator,
    ) -> (r: Result<MapperFlush, MapToError>)
        requires
            old(self).wf(),
            page.size == PageSize::Size4KiB,
            page.wf(),
            frame.size == PageSize::Size4KiB,
            frame.wf(),
            flags & FLAGS_MASK == flags,
            parent_table_flags & FLAGS_MASK == parent_table_flags,
            flags_contain(parent_table_flags, PRESENT),
            !flags_contain(parent_table_flags, HUGE_PAGE),
            old(allocator).wf(),
            old(allocator).next + 1024 <= usize::MAX,
            alloc_fresh(*old(allocator), old(self).tables()),
        ensures
            final(self).wf(),
            final(allocator).wf(),
            final(allocator).memory_map == old(allocator).memory_map,
            alloc_fresh(*final(allocator), final(self).tables()),
            Self::map_to_4kib_post(
                *old(self),
                *final(self),
                *old(allocator),
                *final(allocator),
                page,
                frame,
                flags,
                parent_table_flags,
                r,
            ),
    {
        proof {
            crate::addr::lemma_zero_entry();
        }
        let i = page.p2_index();
        let ghost e0 = self.l2()[i as int];
        proof {
            lemma_merged_entry(e0, parent_table_flags);
            lemma_entry_zero(e0);
        }
        let entry = self.level_2_table.entry_mut(i);
        let created_r = self.page_table_walker.create_next_table(
            entry,
            parent_table_flags,
            allocator,
        );
        match created_r {
            Err(err) => {
                proof {
                    match err {
                        PageTableCreateError::FrameAllocationFailed => {
                            assert(self.l2() =~= old(self).l2());
                        },
                        PageTableCreateError::MappedToHugePage => {
                            assert(self.l2() =~= old(self).l2().update(
                                i as int,
                                e_addr(e0) | (e_flags(e0) | parent_table_flags),
                            ));
                        },
                    }
                }
                Err(map_error_from_create_error(err))
            },
            Ok(a) => {
                let j = page.p1_index();
                let p1e = self.page_table_walker.page_table_frame_mapping.table_entry(a, j);
                proof {
                    assert(self.l2() =~= old(self).l2().update(i as int, self.l2()[i as int]));
                    if e0 == 0 {
                        assert(p1e@ == 0);
                    }
                }
                if !p1e.is_unused() {
                    proof {
                        assert(self.l2() =~= old(self).l2().update(
                            i as int,
                            e_addr(e0) | (e_flags(e0) | parent_table_flags),
                        ));
                    }
                    return Err(MapToError::PageAlreadyMapped(frame));
                }
                let mut ne = PageTableEntry::new();
                ne.set_frame(frame, flags);
                let ghost mid = *self;
                let ghost mid_alloc = *allocator;
                self.page_table_walker.page_table_frame_mapping.set_table_entry(a, j, ne);
                proof {
                    let i_ = i as int;
                    let j_ = j as int;
                    assert(self.l2() == mid.l2());
                    if e0 == 0 {
                        assert(mid.tables()[a] == zero_table());
                        assert(self.tables() =~= old(self).tables().insert(
                            a,
                            zero_table().update(j_, ne@),
                        ));
                    } else {
                        assert(self.tables() =~= old(self).tables().insert(
                            a,
                            old(self).tables()[a].update(j_, ne@),
                        ));
                    }
                    assert forall|k: int|
                        0 <= k < 512 implies ((#[trigger] self.l2()[k]) != 0 ==> e_present(
                        self.l2()[k],
                    )) by {
                        if k != i_ {
                            assert(self.l2()[k] == old(self).l2()[k]);
                        }
                    }
                    assert forall|k: int|
                        0 <= k < 512 implies (e_present(#[trigger] self.l2()[k]) && !e_huge(
                        self.l2()[k],
                    ) ==> self.tables().contains_key(e_addr(self.l2()[k]))) by {
                        if k != i_ {
                            assert(self.l2()[k] == old(self).l2()[k]);
                            if e_present(self.l2()[k]) && !e_huge(self.l2()[k]) {
                                assert(mid.tables().contains_key(e_addr(self.l2()[k])));
                            }
                        }
                    }
                    assert forall|k: int, l: int|
                        0 <= k < l < 512 implies ((e_present(#[trigger] self.l2()[k]) && !e_huge(
                        self.l2()[k],
                    ) && e_present(#[trigger] self.l2()[l]) && !e_huge(self.l2()[l])) ==> e_addr(
                        self.l2()[k],
                    ) != e_addr(self.l2()[l])) by {
                        if k != i_ && l != i_ {
                            assert(self.l2()[k] == old(self).l2()[k] && self.l2()[l] == old(self).l2()[l]);
                        } else {
                            let o = if k == i_ {
                                l
                            } else {
                                k
                            };
                            assert(self.l2()[o] == old(self).l2()[o]);
                            if e_present(self.l2()[o]) && !e_huge(self.l2()[o]) && e_present(
                                self.l2()[i_],
                            ) && !e_huge(self.l2()[i_]) {
                                assert(old(self).tables().contains_key(e_addr(old(self).l2()[o])));
                                if e0 != 0 {
                                    assert(e_addr(self.l2()[i_]) == e_addr(e0));
                                }
                            }
                        }
                    }
                    assert forall|k: int|
                        allocator.next <= k < allocator.frames(PageSize::Size4KiB).len() implies !self.tables().contains_key(
                        #[trigger] allocator.frames(PageSize::Size4KiB)[k],
                    ) by {
                        assert(*allocator == mid_alloc);
                        assert(!mid.tables().contains_key(allocator.frames(PageSize::Size4KiB)[k]));
                        assert(mid.tables().contains_key(a));
                    }
                }
                Ok(MapperFlush::new(page))
            },
        }
    }

    /// Exactly how a huge-page map request relates the states before and
    /// after, and which result it returns on which prior state.
    pub open spec fn map_to_2mib_post(
        pre: MappedPageTable<P>,
        post: MappedPageTable<P>,
        page: Page,
        frame: PhysFrame,
        flags: u64,
        r: Result<MapperFlush, MapToError>,
    ) -> bool {
        let i = p2_index_of(page.start);
        let e = pre.l2()[i];
        &&& (r is Ok <==> e == 0)
        &&& (r matches Ok(flush) ==> flush.page == page && post.l2() =~= pre.l2().update(
            i,
            frame.start | (flags | HUGE_PAGE),
        ))
        &&& (r is Err <==> r == Err::<MapperFlush, MapToError>(MapToError::PageAlreadyMapped(
            frame,
        )))
        &&& (r is Err ==> (e != 0 && post.l2() == pre.l2()))
        &&& post.tables() == pre.tables()
    }

    /// Maps `page` to `frame` with a huge-page entry directly at level 2.
    /// The huge-page bit is forced into the stored flags.  Rejected with
    /// `PageAlreadyMapped` when the entry is in use at all; the existing
    /// entry is then left unchanged.
    pub fn map_to_2mib(
        &mut self,
        page: Page,
        frame: PhysFrame,
        flags: u64,
        _parent_table_flags: u64,
        _allocator: &mut BootInfoFrameAllocator,
    ) -> (r: Result<MapperFlush, MapToError>)
        requires
            old(self).wf(),
            page.size == PageSize::Size2MiB,
            page.wf(),
            frame.size == PageSize::Size2MiB,
            frame.wf(),
            flags & FLAGS_MASK == flags,
            // A used level-2 entry must be present, or a later walk would
            // meet a state it treats as a broken invariant.
            flags_contain(flags, PRESENT),
        ensures
            final(self).wf(),
            *final(_allocator) == *old(_allocator),
            Self::map_to_2mib_post(*old(self), *final(self), page, frame, flags, r),
    {
        let i = page.p2_index();
        let e = self.level_2_table.entry(i);
        if !e.is_unused() {
            return Err(MapToError::PageAlreadyMapped(frame));
        }
        proof {
            crate::addr::lemma_flag_const_words();
            lemma_flags_union(flags, HUGE_PAGE);
            lemma_merge_present_huge(flags, HUGE_PAGE);
        }
        let mut ne = PageTableEntry::new();
        ne.set_frame(frame, flags | HUGE_PAGE);
        self.level_2_table.set_entry(i, ne);
        proof {
            let i_ = i as int;
            assert forall|k: int|
                0 <= k < 512 implies ((#[trigger] self.l2()[k]) != 0 ==> e_present(
                self.l2()[k],
            )) by {
                if k != i_ {
                    assert(self.l2()[k] == old(self).l2()[k]);
                }
            }
            assert forall|k: int|
                0 <= k < 512 implies (e_present(#[trigger] self.l2()[k]) && !e_huge(self.l2()[k])
                ==> self.tables().contains_key(e_addr(self.l2()[k]))) by {
                if k != i_ {
                    assert(self.l2()[k] == old(self).l2()[k]);
                }
            }
            assert forall|k: int, l: int|
                0 <= k < l < 512 implies ((e_present(#[trigger] self.l2()[k]) && !e_huge(
                self.l2()[k],
            ) && e_present(#[trigger] self.l2()[l]) && !e_huge(self.l2()[l])) ==> e_addr(
                self.l2()[k],
            ) != e_addr(self.l2()[l])) by {
                if k != i_ && l != i_ {
                    assert(self.l2()[k] == old(self).l2()[k] && self.l2()[l] == old(self).l2()[l]);
                }
            }
        }
        Ok(MapperFlush::new(page))
    }

    /// Exactly how an unmap request relates the states before and after,
    /// and which result it returns on which prior state.
    pub open spec fn unmap_post(
        pre: MappedPageTable<P>,
        post: MappedPageTable<P>,
        page: Page,
        r: Result<(PhysFrame, MapperFlush), UnmapError>,
    ) -> bool {
        let i = p2_index_of(page.start);
        let j = p1_index_of(page.start);
        let e = pre.l2()[i];
        &&& (r is Err ==> post == pre)
        &&& if page.size == PageSize::Size4KiB {
            let u = pre.p1_entry(i, j);
            &&& (r is Ok <==> (e_present(e) && !e_huge(e) && e_present(u) && !e_huge(u)))
            &&& (r matches Ok((f, flush)) ==> f == (PhysFrame {
                start: e_addr(u),
                size: PageSize::Size4KiB,
            }) && flush.page == page && post.l2() == pre.l2() && post.tables() =~= pre.tables().insert(
                e_addr(e),
                pre.tables()[e_addr(e)].update(j, 0),
            ))
            &&& (r == Err::<(PhysFrame, MapperFlush), UnmapError>(UnmapError::PageNotMapped) <==> (
            !e_present(e) || (e_present(e) && !e_huge(e) && !e_present(u))))
            &&& (r == Err::<(PhysFrame, MapperFlush), UnmapError>(UnmapError::ParentEntryHugePage)
                <==> ((e_present(e) && e_huge(e)) || (e_present(e) && !e_huge(e) && e_present(u)
                && e_huge(u))))
        } else {
            &&& (r is Ok <==> (e_present(e) && e_huge(e) && e_addr(e) % SIZE_2MIB == 0))
            &&& (r matches Ok((f, flush)) ==> f == (PhysFrame {
                start: e_addr(e),
                size: PageSize::Size2MiB,
            }) && flush.page == page && post.l2() =~= pre.l2().update(i, 0) && post.tables()
                == pre.tables())
            &&& (r == Err::<(PhysFrame, MapperFlush), UnmapError>(UnmapError::PageNotMapped) <==> !e_present(
                e,
            ))
            &&& (r == Err::<(PhysFrame, MapperFlush), UnmapError>(UnmapError::ParentEntryHugePage)
                <==> (e_present(e) && !e_huge(e)))
            &&& (r == Err::<(PhysFrame, MapperFlush), UnmapError>(UnmapError::InvalidFrameAddress(
                e_addr(e),
            )) <==> (e_present(e) && e_huge(e) && e_addr(e) % SIZE_2MIB != 0))
        }
    }

    /// Removes the mapping of `page`, distinguishing an unused entry, a
    /// size mismatch between the request and the hardware state, and
    /// success, which clears the entry and returns the freed frame with
    /// the flush obligation.
    pub fn unmap(&mut self, page: Page) -> (r: Result<(PhysFrame, MapperFlush), UnmapError>)
        requires
            old(self).wf(),
            page.wf(),
        ensures
            final(self).wf(),
            Self::unmap_post(*old(self), *final(self), page, r),
    {
        let i = page.p2_index();
        match page.size {
            PageSize::Size4KiB => {
                let e = self.level_2_table.entry(i);
                let a = match self.page_table_walker.next_table(e) {
                    Ok(a) => a,
                    Err(err) => {
                        return Err(unmap_error_from_walk_error(err));
                    },
                };
                let j = page.p1_index();
                let p1e = self.page_table_walker.page_table_frame_mapping.table_entry(a, j);
                let frame = match p1e.frame() {
                    Ok(frame) => frame,
                    Err(FrameError::FrameNotPresent) => {
                        return Err(UnmapError::PageNotMapped);
                    },
                    Err(FrameError::HugeFrame) => {
                        return Err(UnmapError::ParentEntryHugePage);
                    },
                };
                let ghost mid = *self;
                self.page_table_walker.page_table_frame_mapping.set_table_entry(
                    a,
                    j,
                    PageTableEntry::new(),
                );
                proof {
                    assert(self.l2() == old(self).l2());
                    assert(self.tables() =~= old(self).tables().insert(
                        a,
                        old(self).tables()[a].update(j as int, 0),
                    ));
                    assert forall|k: int|
                        0 <= k < 512 implies (e_present(#[trigger] self.l2()[k]) && !e_huge(
                        self.l2()[k],
                    ) ==> self.tables().contains_key(e_addr(self.l2()[k]))) by {
                        if e_present(self.l2()[k]) && !e_huge(self.l2()[k]) {
                            assert(old(self).tables().contains_key(e_addr(self.l2()[k])));
                        }
                    }
                }
                Ok((frame, MapperFlush::new(page)))
            },
            PageSize::Size2MiB => {
                let e = self.level_2_table.entry(i);
                let fl = e.flags();
                if !crate::addr::flags_contains(fl, PRESENT) {
                    return Err(UnmapError::PageNotMapped);
                }
                if !crate::addr::flags_contains(fl, HUGE_PAGE) {
                    return Err(UnmapError::ParentEntryHugePage);
                }
                let frame = match PhysFrame::from_start_address(e.addr(), PageSize::Size2MiB) {
                    Ok(frame) => frame,
                    Err(_) => {
                        return Err(UnmapError::InvalidFrameAddress(e.addr()));
                    },
                };
                self.level_2_table.set_entry(i, PageTableEntry::new());
                proof {
                    crate::addr::lemma_zero_entry();
                    let i_ = i as int;
                    assert forall|k: int|
                        0 <= k < 512 implies ((#[trigger] self.l2()[k]) != 0 ==> e_present(
                        self.l2()[k],
                    )) by {
                        if k != i_ {
                            assert(self.l2()[k] == old(self).l2()[k]);
                        }
                    }
                    assert forall|k: int|
                        0 <= k < 512 implies (e_present(#[trigger] self.l2()[k]) && !e_huge(
                        self.l2()[k],
                    ) ==> self.tables().contains_key(e_addr(self.l2()[k]))) by {
                        if k != i_ {
                            assert(self.l2()[k] == old(self).l2()[k]);
                        }
                    }
                    assert forall|k: int, l: int|
                        0 <= k < l < 512 implies ((e_present(#[trigger] self.l2()[k]) && !e_huge(
                        self.l2()[k],
                    ) && e_present(#[trigger] self.l2()[l]) && !e_huge(self.l2()[l])) ==> e_addr(
                        self.l2()[k],
                    ) != e_addr(self.l2()[l])) by {
                        if k != i_ && l != i_ {
                            assert(self.l2()[k] == old(self).l2()[k] && self.l2()[l] == old(
                                self,
                            ).l2()[l]);
                        }
                    }
                }
                Ok((frame, MapperFlush::new(page)))
            },
        }
    }

    /// Exactly how a flag update relates the states before and after, and
    /// which result it returns on which prior state.
    pub open spec fn update_flags_post(
        pre: MappedPageTable<P>,
        post: MappedPageTable<P>,
        page: Page,
        flags: u64,
        r: Result<MapperFlush, FlagUpdateError>,
    ) -> bool {
        let i = p2_index_of(page.start);
        let j = p1_index_of(page.start);
        let e = pre.l2()[i];
        &&& (r is Err ==> post == pre)
        &&& (r matches Ok(flush) ==> flush.page == page)
        &&& if page.size == PageSize::Size4KiB {
            let u = pre.p1_entry(i, j);
            &&& (r is Ok <==> (e_present(e) && !e_huge(e) && u != 0))
            &&& (r is Ok ==> post.l2() == pre.l2() && post.tables() =~= pre.tables().insert(
                e_addr(e),
                pre.tables()[e_addr(e)].update(j, e_addr(u) | flags),
            ))
            &&& (r == Err::<MapperFlush, FlagUpdateError>(FlagUpdateError::PageNotMapped) <==> (
            !e_present(e) || (e_present(e) && !e_huge(e) && u == 0)))
            &&& (r == Err::<MapperFlush, FlagUpdateError>(FlagUpdateError::ParentEntryHugePage)
                <==> (e_present(e) && e_huge(e)))
        } else {
            &&& (r is Ok <==> e != 0)
            &&& (r is Ok ==> post.l2() =~= pre.l2().update(i, e_addr(e) | (flags | HUGE_PAGE))
                && post.tables() == pre.tables())
            &&& (r == Err::<MapperFlush, FlagUpdateError>(FlagUpdateError::PageNotMapped) <==> e
                == 0)
            &&& !(r == Err::<MapperFlush, FlagUpdateError>(FlagUpdateError::ParentEntryHugePage))
        }
    }

    /// Updates the flags of an existing mapping; never a create operation.
    /// For a huge page the huge-page bit is forced back into the flags.
    pub fn update_flags(&mut self, page: Page, flags: u64) -> (r: Result<
        MapperFlush,
        FlagUpdateError,
    >)
        requires
            old(self).wf(),
            page.wf(),
            flags & FLAGS_MASK == flags,
            // A used level-2 entry must stay present, or a later walk
            // would meet a state it treats as a broken invariant.
            page.size == PageSize::Size2MiB ==> flags_contain(flags, PRESENT),
        ensures
            final(self).wf(),
            Self::update_flags_post(*old(self), *final(self), page, flags, r),
    {
        let i = page.p2_index();
        match page.size {
            PageSize::Size4KiB => {
                let e = self.level_2_table.entry(i);
                let a = match self.page_table_walker.next_table(e) {
                    Ok(a) => a,
                    Err(err) => {
                        return Err(flag_update_error_from_walk_error(err));
                    },
                };
                let j = page.p1_index();
                let mut p1e = self.page_table_walker.page_table_frame_mapping.table_entry(a, j);
                if p1e.is_unused() {
                    return Err(FlagUpdateError::PageNotMapped);
                }
                p1e.set_flags(flags);
                self.page_table_walker.page_table_frame_mapping.set_table_entry(a, j, p1e);
                proof {
                    assert(self.l2() == old(self).l2());
                    assert(self.tables() =~= old(self).tables().insert(
                        a,
                        old(self).tables()[a].update(
                            j as int,
                            e_addr(old(self).p1_entry(i as int, j as int)) | flags,
                        ),
                    ));
                    assert forall|k: int|
                        0 <= k < 512 implies (e_present(#[trigger] self.l2()[k]) && !e_huge(
                        self.l2()[k],
                    ) ==> self.tables().contains_key(e_addr(self.l2()[k]))) by {
                        if e_present(self.l2()[k]) && !e_huge(self.l2()[k]) {
                            assert(old(self).tables().contains_key(e_addr(self.l2()[k])));
                        }
                    }
                }
                Ok(MapperFlush::new(page))
            },
            PageSize::Size2MiB => {
                let mut e = self.level_2_table.entry(i);
                if e.is_unused() {
                    return Err(FlagUpdateError::PageNotMapped);
                }
                proof {
                    crate::addr::lemma_flag_const_words();
                    lemma_flags_union(flags, HUGE_PAGE);
                    lemma_merge_present_huge(flags, HUGE_PAGE);
                }
                let fl = flags | HUGE_PAGE;
                e.set_flags(fl);
                self.level_2_table.set_entry(i, e);
                proof {
                    let i_ = i as int;
                    assert forall|k: int|
                        0 <= k < 512 implies ((#[trigger] self.l2()[k]) != 0 ==> e_present(
                        self.l2()[k],
                    )) by {
                        if k != i_ {
                            assert(self.l2()[k] == old(self).l2()[k]);
                        }
                    }
                    assert forall|k: int|
                        0 <= k < 512 implies (e_present(#[trigger] self.l2()[k]) && !e_huge(
                        self.l2()[k],
                    ) ==> self.tables().contains_key(e_addr(self.l2()[k]))) by {
                        if k != i_ {
                            assert(self.l2()[k] == old(self).l2()[k]);
                        }
                    }
                    assert forall|k: int, l: int|
                        0 <= k < l < 512 implies ((e_present(#[trigger] self.l2()[k]) && !e_huge(
                        self.l2()[k],
                    ) && e_present(#[trigger] self.l2()[l]) && !e_huge(self.l2()[l])) ==> e_addr(
                        self.l2()[k],
                    ) != e_addr(self.l2()[l])) by {
                        if k != i_ && l != i_ {
                            assert(self.l2()[k] == old(self).l2()[k] && self.l2()[l] == old(
                                self,
                            ).l2()[l]);
                        }
                    }
                }
                Ok(MapperFlush::new(page))
            },
        }
    }

    /// Sets the flags of the level-2 entry responsible for `page` itself,
    /// whatever that entry holds.  For the huge-page size the huge-page
    /// bit is forced back in.  Returns the whole-cache flush obligation.
    pub fn set_flags_p2_entry(&mut self, page: Page, flags: u64) -> (r: Result<
        MapperFlushAll,
        FlagUpdateError,
    >)
        requires
            old(self).wf(),
            page.wf(),
            flags & FLAGS_MASK == flags,
            flags_contain(flags, PRESENT),
            ({
                // A huge entry must stay huge: clearing the huge-page bit
                // on a level-2 entry would turn a mapped frame into a
                // supposed table pointer.
                let e = old(self).l2()[p2_index_of(page.start)];
                e_present(e) && e_huge(e) && page.size == PageSize::Size4KiB ==> flags_contain(
                    flags,
                    HUGE_PAGE,
                )
            }),
        ensures
            final(self).wf(),
            final(self).tables() == old(self).tables(),
            ({
                let i = p2_index_of(page.start);
                let e = old(self).l2()[i];
                let stored = if page.size == PageSize::Size4KiB {
                    flags
                } else {
                    flags | HUGE_PAGE
                };
                &&& (r is Ok <==> e != 0)
                &&& (r is Ok ==> final(self).l2() =~= old(self).l2().update(
                    i,
                    e_addr(e) | stored,
                ))
                &&& (r is Err <==> r == Err::<MapperFlushAll, FlagUpdateError>(
                    FlagUpdateError::PageNotMapped,
                ))
                &&& (r is Err ==> (e == 0 && final(self).l2() == old(self).l2()))
            }),
    {
        let i = page.p2_index();
        let mut e = self.level_2_table.entry(i);
        if e.is_unused() {
            return Err(FlagUpdateError::PageNotMapped);
        }
        proof {
            crate::addr::lemma_flag_const_words();
            lemma_flags_union(flags, HUGE_PAGE);
            lemma_merge_present_huge(flags, HUGE_PAGE);
        }
        let stored = match page.size {
            PageSize::Size4KiB => flags,
            PageSize::Size2MiB => flags | HUGE_PAGE,
        };
        e.set_flags(stored);
        self.level_2_table.set_entry(i, e);
        proof {
            let i_ = i as int;
            assert forall|k: int|
                0 <= k < 512 implies ((#[trigger] self.l2()[k]) != 0 ==> e_present(
                self.l2()[k],
            )) by {
                if k != i_ {
                    assert(self.l2()[k] == old(self).l2()[k]);
                }
            }
            assert forall|k: int|
                0 <= k < 512 implies (e_present(#[trigger] self.l2()[k]) && !e_huge(self.l2()[k])
                ==> self.tables().contains_key(e_addr(self.l2()[k]))) by {
                if k != i_ {
                    assert(self.l2()[k] == old(self).l2()[k]);
                } else {
                    assert(e_addr(self.l2()[i_]) == e_addr(old(self).l2()[i_]));
                    if !e_huge(self.l2()[i_]) {
                        assert(!e_huge(old(self).l2()[i_]));
                    }
                }
            }
            assert forall|k: int, l: int|
                0 <= k < l < 512 implies ((e_present(#[trigger] self.l2()[k]) && !e_huge(
                self.l2()[k],
            ) && e_present(#[trigger] self.l2()[l]) && !e_huge(self.l2()[l])) ==> e_addr(
                self.l2()[k],
            ) != e_addr(self.l2()[l])) by {
                if k != i_ && l != i_ {
                    assert(self.l2()[k] == old(self).l2()[k] && self.l2()[l] == old(self).l2()[l]);
                } else {
                    let o = if k == i_ {
                        l
                    } else {
                        k
                    };
                    assert(self.l2()[o] == old(self).l2()[o]);
                    assert(e_addr(self.l2()[i_]) == e_addr(old(self).l2()[i_]));
                    if !e_huge(self.l2()[i_]) {
                        assert(!e_huge(old(self).l2()[i_]));
                    }
                }
            }
        }
        Ok(MapperFlushAll::new())
    }

    /// Translates a single page to the frame it is mapped to, going by the
    /// request's size class.
    pub fn translate_page(&self, page: Page) -> (r: Result<PhysFrame, TranslateError>)
        requires
            self.wf(),
            page.wf(),
        ensures
            ({
                let i = p2_index_of(page.start);
                let j = p1_index_of(page.start);
                let e = self.l2()[i];
                if page.size == PageSize::Size4KiB {
                    let u = self.p1_entry(i, j);
                    &&& (r is Ok <==> (e_present(e) && !e_huge(e) && u != 0))
                    &&& (r matches Ok(f) ==> f == (PhysFrame {
                        start: e_addr(u),
                        size: PageSize::Size4KiB,
                    }))
                    &&& (r == Err::<PhysFrame, TranslateError>(TranslateError::PageNotMapped)
                        <==> (!e_present(e) || (e_present(e) && !e_huge(e) && u == 0)))
                    &&& (r == Err::<PhysFrame, TranslateError>(TranslateError::ParentEntryHugePage)
                        <==> (e_present(e) && e_huge(e)))
                } else {
                    &&& (r is Ok <==> (e != 0 && e_addr(e) % SIZE_2MIB == 0))
                    &&& (r matches Ok(f) ==> f == (PhysFrame {
                        start: e_addr(e),
                        size: PageSize::Size2MiB,
                    }))
                    &&& (r == Err::<PhysFrame, TranslateError>(TranslateError::PageNotMapped) <==> e
                        == 0)
                    &&& (r == Err::<PhysFrame, TranslateError>(TranslateError::InvalidFrameAddress(
                        e_addr(e),
                    )) <==> (e != 0 && e_addr(e) % SIZE_2MIB != 0))
                }
            }),
    {
        let i = page.p2_index();
        match page.size {
            PageSize::Size4KiB => {
                let e = self.level_2_table.entry(i);
                let a = match self.page_table_walker.next_table(e) {
                    Ok(a) => a,
                    Err(err) => {
                        return Err(translate_error_from_walk_error(err));
                    },
                };
                let j = page.p1_index();
                let p1e = self.page_table_walker.page_table_frame_mapping.table_entry(a, j);
                if p1e.is_unused() {
                    return Err(TranslateError::PageNotMapped);
                }
                match PhysFrame::from_start_address(p1e.addr(), PageSize::Size4KiB) {
                    Ok(frame) => Ok(frame),
                    Err(_) => {
                        // The address field is always page aligned; kept to
                        // mirror the defensive shape of the walk.
                        proof {
                            assert(false);
                        }
                        Err(TranslateError::InvalidFrameAddress(p1e.addr()))
                    },
                }
            },
            PageSize::Size2MiB => {
                let e = self.level_2_table.entry(i);
                if e.is_unused() {
                    return Err(TranslateError::PageNotMapped);
                }
                match PhysFrame::from_start_address(e.addr(), PageSize::Size2MiB) {
                    Ok(frame) => Ok(frame),
                    Err(_) => Err(TranslateError::InvalidFrameAddress(e.addr())),
                }
            },
        }
    }

    /// Maps `page` to `frame` at the size class both carry, with explicit
    /// flags for parent entries created along the way.
    pub fn map_to_with_table_flags(
        &mut self,
        page: Page,
        frame: PhysFrame,
        flags: u64,
        parent_table_flags: u64,
        allocator: &mut BootInfoFrameAllocator,
    ) -> (r: Result<MapperFlush, MapToError>)
        requires
            old(self).wf(),
            page.size == frame.size,
            page.wf(),
            frame.wf(),
            flags & FLAGS_MASK == flags,
            parent_table_flags & FLAGS_MASK == parent_table_flags,
            page.size == PageSize::Size4KiB ==> (flags_contain(parent_table_flags, PRESENT)
                && !flags_contain(parent_table_flags, HUGE_PAGE)),
            page.size == PageSize::Size2MiB ==> flags_contain(flags, PRESENT),
            old(allocator).wf(),
            old(allocator).next + 1024 <= usize::MAX,
            alloc_fresh(*old(allocator), old(self).tables()),
        ensures
            final(self).wf(),
            final(allocator).wf(),
            final(allocator).memory_map == old(allocator).memory_map,
            alloc_fresh(*final(allocator), final(self).tables()),
            page.size == PageSize::Size4KiB ==> Self::map_to_4kib_post(
                *old(self),
                *final(self),
                *old(allocator),
                *final(allocator),
                page,
                frame,
                flags,
                parent_table_flags,
                r,
            ),
            page.size == PageSize::Size2MiB ==> (Self::map_to_2mib_post(
                *old(self),
                *final(self),
                page,
                frame,
                flags,
                r,
            ) && *final(allocator) == *old(allocator)),
    {
        match page.size {
            PageSize::Size4KiB => self.map_to_4kib(page, frame, flags, parent_table_flags, allocator),
            PageSize::Size2MiB => self.map_to_2mib(page, frame, flags, parent_table_flags, allocator),
        }
    }

    /// Maps `page` to `frame`, deriving the parent-entry flags from the
    /// requested flags as the access bits among them.
    pub fn map_to(
        &mut self,
        page: Page,
        frame: PhysFrame,
        flags: u64,
        allocator: &mut BootInfoFrameAllocator,
    ) -> (r: Result<MapperFlush, MapToError>)
        requires
            old(self).wf(),
            page.size == frame.size,
            page.wf(),
            frame.wf(),
            flags & FLAGS_MASK == flags,
            flags_contain(flags, PRESENT),
            old(allocator).wf(),
            old(allocator).next + 1024 <= usize::MAX,
            alloc_fresh(*old(allocator), old(self).tables()),
        ensures
            final(self).wf(),
            final(allocator).wf(),
            final(allocator).memory_map == old(allocator).memory_map,
            alloc_fresh(*final(allocator), final(self).tables()),
            page.size == PageSize::Size4KiB ==> Self::map_to_4kib_post(
                *old(self),
                *final(self),
                *old(allocator),
                *final(allocator),
                page,
                frame,
                flags,
                flags & (PRESENT | WRITABLE | USER_ACCESSIBLE),
                r,
            ),
            page.size == PageSize::Size2MiB ==> (Self::map_to_2mib_post(
                *old(self),
                *final(self),
                page,
                frame,
                flags,
                r,
            ) && *final(allocator) == *old(allocator)),
    {
        proof {
            lemma_parent_flags(flags);
            assert(0x1u64 | 0x2u64 | 0x4u64 == 0x7u64) by (bit_vector);
        }
        let parent_table_flags = flags & (PRESENT | WRITABLE | USER_ACCESSIBLE);
        self.map_to_with_table_flags(page, frame, flags, parent_table_flags, allocator)
    }

    /// Maps `frame` at the virtual address equal to its own physical
    /// address.
    pub fn identity_map(
        &mut self,
        frame: PhysFrame,
        flags: u64,
        allocator: &mut BootInfoFrameAllocator,
    ) -> (r: Result<MapperFlush, MapToError>)
        requires
            old(self).wf(),
            frame.wf(),
            flags & FLAGS_MASK == flags,
            flags_contain(flags, PRESENT),
            old(allocator).wf(),
            old(allocator).next + 1024 <= usize::MAX,
            alloc_fresh(*old(allocator), old(self).tables()),
        ensures
            final(self).wf(),
            final(allocator).wf(),
            final(allocator).memory_map == old(allocator).memory_map,
            alloc_fresh(*final(allocator), final(self).tables()),
            frame.size == PageSize::Size4KiB ==> Self::map_to_4kib_post(
                *old(self),
                *final(self),
                *old(allocator),
                *final(allocator),
                Page { start: frame.start, size: frame.size },
                frame,
                flags,
                flags & (PRESENT | WRITABLE | USER_ACCESSIBLE),
                r,
            ),
            frame.size == PageSize::Size2MiB ==> (Self::map_to_2mib_post(
                *old(self),
                *final(self),
                Page { start: frame.start, size: frame.size },
                frame,
                flags,
                r,
            ) && *final(allocator) == *old(allocator)),
    {
        let page = Page { start: frame.start_address(), size: frame.size };
        self.map_to(page, frame, flags, allocator)
    }

    /// The read-only projection: walks as far as the entries allow and
    /// classifies the outcome.
    pub fn translate(&self, addr: u64) -> (r: TranslateResult)
        requires
            self.wf(),
        ensures
            r == self.spec_translate(addr),
    {
        let i: usize = ((addr / 0x20_0000) % 512) as usize;
        let e = self.level_2_table.entry(i);
        proof {
            assert(e@ == self.l2()[p2_index_of(addr)]);
        }
        match self.page_table_walker.next_table(e) {
            Err(PageTableWalkError::NotMapped) => TranslateResult::NotMapped,
            Err(PageTableWalkError::MappedToHugePage) => {
                let frame = PhysFrame::containing_address(e.addr(), PageSize::Size2MiB);
                let offset = addr % 0x20_0000;
                let flags = e.flags();
                TranslateResult::Mapped { frame, offset, flags }
            },
            Ok(a) => {
                let j: usize = ((addr / 4096) % 512) as usize;
                let u = self.page_table_walker.page_table_frame_mapping.table_entry(a, j);
                if u.is_unused() {
                    return TranslateResult::NotMapped;
                }
                match PhysFrame::from_start_address(u.addr(), PageSize::Size4KiB) {
                    Ok(frame) => TranslateResult::Mapped {
                        frame,
                        offset: addr % 4096,
                        flags: u.flags(),
                    },
                    Err(_) => {
                        // The address field of an entry is always page
                        // aligned, so this arm is unreachable; it mirrors
                        // the defensive shape of the walk.
                        proof {
                            assert(false);
                        }
                        TranslateResult::InvalidFrameAddress(u.addr())
                    },
                }
            },
        }
    }

    /// Every reachable level-1 table has the full count of entries.
    pub proof fn lemma_tables_len(self)
        requires
            self.mapping_wf(),
        ensures
            forall|a: u64| #[trigger]
                self.tables().contains_key(a) ==> self.tables()[a].len() == 512,
    {
        self.page_table_walker.page_table_frame_mapping.lemma_tables_len();
    }

    /// The offset a translation reports is exactly the translated
    /// address's remainder below the mapped size: a huge mapping keeps all
    /// bits below the huge-page boundary, a terminal mapping only those
    /// below the page boundary — never bits that select a table entry.
    pub proof fn lemma_translate_offset(self, va: u64)
        ensures
            self.spec_translate(va) matches TranslateResult::Mapped { frame, offset, flags }
                ==> offset == va % frame.size.spec_size() && offset < frame.size.spec_size(),
    {
    }

    /// Two addresses that agree on every bit below the huge-page boundary
    /// receive the same offset from their huge mappings, wherever in the
    /// table the two mappings sit.
    pub proof fn lemma_offset_ignores_index_bits(self, other: MappedPageTable<P>, va1: u64, va2: u64)
        requires
            va1 % SIZE_2MIB == va2 % SIZE_2MIB,
            self.spec_translate(va1) matches TranslateResult::Mapped { frame, offset, flags }
                && frame.size == PageSize::Size2MiB,
            other.spec_translate(va2) matches TranslateResult::Mapped { frame, offset, flags }
                && frame.size == PageSize::Size2MiB,
        ensures
            (self.spec_translate(va1))->Mapped_offset == (other.spec_translate(va2))->Mapped_offset,
    {
    }

    /// After a successful terminal-level map of `page` to `frame`, every
    /// address of that page translates to `frame` with the stored flags and
    /// its page offset, and every other address translates as before.
    pub proof fn lemma_translate_after_map_4kib(
        pre: MappedPageTable<P>,
        post: MappedPageTable<P>,
        apre: BootInfoFrameAllocator,
        apost: BootInfoFrameAllocator,
        page: Page,
        frame: PhysFrame,
        flags: u64,
        parent_table_flags: u64,
        r: Result<MapperFlush, MapToError>,
    )
        requires
            pre.wf(),
            post.wf(),
            page.size == PageSize::Size4KiB,
            page.wf(),
            frame.size == PageSize::Size4KiB,
            frame.wf(),
            flags & FLAGS_MASK == flags,
            flags != 0,
            parent_table_flags & FLAGS_MASK == parent_table_flags,
            flags_contain(parent_table_flags, PRESENT),
            !flags_contain(parent_table_flags, HUGE_PAGE),
            apre.wf(),
            Self::map_to_4kib_post(pre, post, apre, apost, page, frame, flags, parent_table_flags, r),
            r is Ok,
        ensures
            forall|va: u64|
                (p2_index_of(va) == p2_index_of(page.start) && p1_index_of(va) == p1_index_of(
                    page.start,
                )) ==> #[trigger] post.spec_translate(va) == (TranslateResult::Mapped {
                    frame,
                    offset: (va % SIZE_4KIB) as u64,
                    flags,
                }),
            forall|va: u64|
                (p2_index_of(va) != p2_index_of(page.start) || p1_index_of(va) != p1_index_of(
                    page.start,
                )) ==> #[trigger] post.spec_translate(va) == pre.spec_translate(va),
    {
        pre.lemma_tables_len();
        post.lemma_tables_len();
        let i = p2_index_of(page.start);
        let j = p1_index_of(page.start);
        let e = pre.l2()[i];
        let w = frame.start | flags;
        crate::page::lemma_frame_4kib_aligned(frame);
        crate::addr::lemma_aligned_addr_mask(frame.start);
        crate::addr::lemma_flag_const_words();
        crate::addr::lemma_entry_pack(frame.start, flags);
        lemma_entry_zero(w);
        lemma_merged_entry(e, parent_table_flags);
        lemma_merge_present_huge(e_flags(e), parent_table_flags);
        crate::addr::lemma_zero_entry();
        let a = if e == 0 {
            apre.frames(PageSize::Size4KiB)[apre.next as int]
        } else {
            e_addr(e)
        };
        let epost = post.l2()[i];
        assert(e_addr(epost) == a && e_present(epost) && !e_huge(epost)) by {
            if e == 0 {
                crate::frame_alloc::lemma_frames_seq_facts(apre.memory_map@, SIZE_4KIB);
                crate::addr::lemma_aligned_addr_mask(a);
                crate::addr::lemma_entry_pack(a, parent_table_flags);
            }
        }
        assert forall|va: u64|
            (p2_index_of(va) == i && p1_index_of(va) == j) implies #[trigger] post.spec_translate(
            va,
        ) == (TranslateResult::Mapped { frame, offset: (va % SIZE_4KIB) as u64, flags }) by {
            assert(post.tables()[a][j] == w);
            assert(w != 0);
        }
        assert forall|va: u64|
            (p2_index_of(va) != i || p1_index_of(va) != j) implies #[trigger] post.spec_translate(
            va,
        ) == pre.spec_translate(va) by {
            let i2 = p2_index_of(va);
            let j2 = p1_index_of(va);
            if i2 == i {
                if e == 0 {
                    assert(post.tables()[a][j2] == zero_table().update(j, w)[j2]);
                    assert(post.tables()[a][j2] == 0);
                } else {
                    assert(post.tables()[a][j2] == pre.tables()[a][j2]);
                }
            } else {
                assert(post.l2()[i2] == pre.l2()[i2]);
                let e2 = pre.l2()[i2];
                if e_present(e2) && !e_huge(e2) {
                    assert(pre.tables().contains_key(e_addr(e2)));
                    if e == 0 {
                        assert(!pre.tables().contains_key(a));
                        assert(e_addr(e2) != a);
                    } else {
                        if e_present(e) && !e_huge(e) {
                            if i2 < i {
                                assert(e_addr(pre.l2()[i2]) != e_addr(pre.l2()[i]));
                            } else {
                                assert(e_addr(pre.l2()[i]) != e_addr(pre.l2()[i2]));
                            }
                        }
                    }
                    assert(post.tables()[e_addr(e2)] == pre.tables()[e_addr(e2)]);
                }
            }
        }
    }

    /// A map request refused because the page is already mapped — or for
    /// want of a frame — leaves every translation as it was: the existing
    /// mapping's frame and flags survive the failed attempt, even though
    /// the walk merged access flags into the parent entry on the way.
    /// (A request refused because a huge page sits in the way is
    /// different: there the merge lands in the huge entry's own flags.)
    pub proof fn lemma_translate_after_failed_map_4kib(
        pre: MappedPageTable<P>,
        post: MappedPageTable<P>,
        apre: BootInfoFrameAllocator,
        apost: BootInfoFrameAllocator,
        page: Page,
        frame: PhysFrame,
        flags: u64,
        parent_table_flags: u64,
        r: Result<MapperFlush, MapToError>,
    )
        requires
            pre.wf(),
            page.size == PageSize::Size4KiB,
            page.wf(),
            parent_table_flags & FLAGS_MASK == parent_table_flags,
            flags_contain(parent_table_flags, PRESENT),
            !flags_contain(parent_table_flags, HUGE_PAGE),
            Self::map_to_4kib_post(pre, post, apre, apost, page, frame, flags, parent_table_flags, r),
            r == Err::<MapperFlush, MapToError>(MapToError::PageAlreadyMapped(frame)) || r == Err::<
                MapperFlush,
                MapToError,
            >(MapToError::FrameAllocationFailed),
        ensures
            forall|va: u64| #[trigger] post.spec_translate(va) == pre.spec_translate(va),
    {
        let i = p2_index_of(page.start);
        let e = pre.l2()[i];
        crate::addr::lemma_zero_entry();
        lemma_merged_entry(e, parent_table_flags);
        lemma_merge_present_huge(e_flags(e), parent_table_flags);
        assert forall|va: u64| #[trigger] post.spec_translate(va) == pre.spec_translate(va) by {
            let i2 = p2_index_of(va);
            if i2 == i {
                if r == Err::<MapperFlush, MapToError>(MapToError::FrameAllocationFailed) {
                    assert(post.l2() =~= pre.l2());
                } else {
                    assert(post.l2()[i] == (e_addr(e) | (e_flags(e) | parent_table_flags)));
                    assert(e_present(post.l2()[i]) == e_present(e) && e_huge(post.l2()[i])
                        == e_huge(e) && e_addr(post.l2()[i]) == e_addr(e));
                }
            } else {
                assert(post.l2()[i2] == pre.l2()[i2]);
            }
        }
    }

    /// After a successful huge-page map of `page` to `frame`, every address
    /// of that page translates to `frame` with the stored flags, huge-page
    /// bit included, keeping all address bits below the huge-page boundary
    /// as the offset; every other address translates as before.
    pub proof fn lemma_translate_after_map_2mib(
        pre: MappedPageTable<P>,
        post: MappedPageTable<P>,
        page: Page,
        frame: PhysFrame,
        flags: u64,
        r: Result<MapperFlush, MapToError>,
    )
        requires
            pre.wf(),
            post.wf(),
            page.size == PageSize::Size2MiB,
            page.wf(),
            frame.size == PageSize::Size2MiB,
            frame.wf(),
            flags & FLAGS_MASK == flags,
            flags_contain(flags, PRESENT),
            Self::map_to_2mib_post(pre, post, page, frame, flags, r),
            r is Ok,
        ensures
            forall|va: u64|
                p2_index_of(va) == p2_index_of(page.start) ==> #[trigger] post.spec_translate(va)
                    == (TranslateResult::Mapped {
                    frame,
                    offset: (va % SIZE_2MIB) as u64,
                    flags: flags | HUGE_PAGE,
                }),
            forall|va: u64|
                p2_index_of(va) != p2_index_of(page.start) ==> #[trigger] post.spec_translate(va)
                    == pre.spec_translate(va),
    {
        let i = p2_index_of(page.start);
        let w = frame.start | (flags | HUGE_PAGE);
        crate::page::lemma_frame_4kib_aligned(frame);
        crate::addr::lemma_aligned_addr_mask(frame.start);
        crate::addr::lemma_flag_const_words();
        lemma_flags_union(flags, HUGE_PAGE);
        lemma_merge_present_huge(flags, HUGE_PAGE);
        crate::addr::lemma_entry_pack(frame.start, flags | HUGE_PAGE);
        assert forall|va: u64|
            p2_index_of(va) == i implies #[trigger] post.spec_translate(va)
            == (TranslateResult::Mapped {
            frame,
            offset: (va % SIZE_2MIB) as u64,
            flags: flags | HUGE_PAGE,
        }) by {
            assert(post.l2()[i] == w);
            assert(e_addr(w) == frame.start && e_flags(w) == (flags | HUGE_PAGE));
            assert(frame.start % SIZE_2MIB == 0);
        }
        assert forall|va: u64|
            p2_index_of(va) != i implies #[trigger] post.spec_translate(va) == pre.spec_translate(
            va,
        ) by {
            assert(post.l2()[p2_index_of(va)] == pre.l2()[p2_index_of(va)]);
        }
    }

    /// After a successful unmap of `page`, every address of that page
    /// translates to nothing, and every other address translates as
    /// before.
    pub proof fn lemma_translate_after_unmap(
        pre: MappedPageTable<P>,
        post: MappedPageTable<P>,
        page: Page,
        r: Result<(PhysFrame, MapperFlush), UnmapError>,
    )
        requires
            pre.wf(),
            post.wf(),
            page.wf(),
            Self::unmap_post(pre, post, page, r),
            r is Ok,
        ensures
            forall|va: u64|
                (p2_index_of(va) == p2_index_of(page.start) && (page.size == PageSize::Size2MiB
                    || p1_index_of(va) == p1_index_of(page.start))) ==> #[trigger] post.spec_translate(
                    va,
                ) == TranslateResult::NotMapped,
            forall|va: u64|
                (p2_index_of(va) != p2_index_of(page.start) || (page.size == PageSize::Size4KiB
                    && p1_index_of(va) != p1_index_of(page.start))) ==> #[trigger] post.spec_translate(
                    va,
                ) == pre.spec_translate(va),
    {
        pre.lemma_tables_len();
        post.lemma_tables_len();
        let i = p2_index_of(page.start);
        let j = p1_index_of(page.start);
        let e = pre.l2()[i];
        crate::addr::lemma_zero_entry();
        if page.size == PageSize::Size4KiB {
            let a = e_addr(e);
            assert forall|va: u64|
                (p2_index_of(va) == i && p1_index_of(va) == j) implies #[trigger] post.spec_translate(
                va,
            ) == TranslateResult::NotMapped by {
                assert(post.l2()[i] == e);
                assert(post.tables()[a][j] == 0);
            }
            assert forall|va: u64|
                (p2_index_of(va) != i || p1_index_of(va) != j) implies #[trigger] post.spec_translate(
                va,
            ) == pre.spec_translate(va) by {
                let i2 = p2_index_of(va);
                if i2 == i {
                    assert(post.tables()[a][p1_index_of(va)] == pre.tables()[a][p1_index_of(va)]);
                } else {
                    assert(post.l2()[i2] == pre.l2()[i2]);
                    let e2 = pre.l2()[i2];
                    if e_present(e2) && !e_huge(e2) {
                        assert(pre.tables().contains_key(e_addr(e2)));
                        if i2 < i {
                            assert(e_addr(pre.l2()[i2]) != e_addr(pre.l2()[i]));
                        } else {
                            assert(e_addr(pre.l2()[i]) != e_addr(pre.l2()[i2]));
                        }
                        assert(post.tables()[e_addr(e2)] == pre.tables()[e_addr(e2)]);
                    }
                }
            }
        } else {
            assert forall|va: u64|
                p2_index_of(va) == i implies #[trigger] post.spec_translate(va)
                == TranslateResult::NotMapped by {
                assert(post.l2()[i] == 0);
            }
            assert forall|va: u64|
                p2_index_of(va) != i implies #[trigger] post.spec_translate(va)
                == pre.spec_translate(va) by {
                assert(post.l2()[p2_index_of(va)] == pre.l2()[p2_index_of(va)]);
            }
        }
    }
}

} // verus!