//! One level of the hardware hierarchy: a fixed-size table of packed
//! 64-bit entries.

use vstd::prelude::*;
use crate::addr::{
    aligned, e_addr, e_flags, e_huge, e_present, lemma_aligned_addr_mask, lemma_e_addr_in_range,
    lemma_entry_pack, lemma_entry_zero, ADDR_MASK, FLAGS_MASK, MAX_PHYS_ADDR, PRESENT, SIZE_4KIB,
};
use crate::page::{PageSize, PhysFrame};

verus! {

/// Returned when an entry cannot be followed to a frame.
#[derive(Clone, Copy, Debug, PartialEq, Eq, Structural)]
pub enum FrameError {
    /// The entry's present flag is clear.
    FrameNotPresent,
    /// The entry terminates the walk at its own level (huge page), so it does
    /// not point to a table of the next level.
    HugeFrame,
}

/// A single table entry: a packed physical address plus flag bits.
#[derive(Clone, Copy, Debug, PartialEq, Eq, Structural)]
pub struct PageTableEntry {
    entry: u64,
}

impl View for PageTableEntry {
    type V = u64;

    closed spec fn view(&self) -> u64 {
        self.entry
    }
}

impl PageTableEntry {
    /// An unused (all-zero) entry.
    pub fn new() -> (r: PageTableEntry)
        ensures
            r@ == 0,
    {
        PageTableEntry { entry: 0 }
    }

    /// The entry is unused: no bit at all is set.
    pub fn is_unused(&self) -> (r: bool)
        ensures
            r == (self@ == 0),
    {
        self.entry == 0
    }

    /// Clears the entry.
    pub fn set_unused(&mut self)
        ensures
            final(self)@ == 0,
    {
        self.entry = 0;
    }

    /// The physical address field.
    pub fn addr(&self) -> (r: u64)
        ensures
            r == e_addr(self@),
            aligned(r, SIZE_4KIB),
            r < MAX_PHYS_ADDR,
    {
        proof {
            lemma_e_addr_in_range(self.entry);
        }
        self.entry & ADDR_MASK
    }

    /// The flag field.
    pub fn flags(&self) -> (r: u64)
        ensures
            r == e_flags(self@),
    {
        self.entry & FLAGS_MASK
    }

    /// Stores an address together with flags.
    pub fn set_addr(&mut self, addr: u64, flags: u64)
        requires
            aligned(addr, SIZE_4KIB),
            addr < MAX_PHYS_ADDR,
            flags & FLAGS_MASK == flags,
        ensures
            final(self)@ == (addr | flags),
            e_addr(final(self)@) == addr,
            e_flags(final(self)@) == flags,
    {
        proof {
            lemma_aligned_addr_mask(addr);
            lemma_entry_pack(addr, flags);
        }
        self.entry = addr | flags;
    }

    /// Stores a frame's start address together with flags.
    pub fn set_frame(&mut self, frame: PhysFrame, flags: u64)
        requires
            frame.wf(),
            flags & FLAGS_MASK == flags,
        ensures
            final(self)@ == (frame.start | flags),
            e_addr(final(self)@) == frame.start,
            e_flags(final(self)@) == flags,
    {
        proof {
            crate::page::lemma_frame_4kib_aligned(frame);
        }
        self.set_addr(frame.start, flags);
    }

    /// Replaces only the flag field, keeping the address.
    pub fn set_flags(&mut self, flags: u64)
        requires
            flags & FLAGS_MASK == flags,
        ensures
            final(self)@ == (e_addr(old(self)@) | flags),
            e_addr(final(self)@) == e_addr(old(self)@),
            e_flags(final(self)@) == flags,
    {
        proof {
            lemma_e_addr_in_range(self.entry);
        }
        let a = self.entry & ADDR_MASK;
        proof {
            lemma_entry_pack(a, flags);
        }
        self.entry = a | flags;
    }

    /// The 4 KiB frame of the next-level table this entry points to, or why
    /// it cannot be followed.
    pub fn frame(&self) -> (r: Result<PhysFrame, FrameError>)
        ensures
            r matches Ok(f) ==> e_present(self@) && !e_huge(self@) && f == (PhysFrame {
                start: e_addr(self@),
                size: PageSize::Size4KiB,
            }) && f.wf(),
            r == Err::<PhysFrame, FrameError>(FrameError::FrameNotPresent) <==> !e_present(self@),
            r == Err::<PhysFrame, FrameError>(FrameError::HugeFrame) <==> (e_present(self@)
                && e_huge(self@)),
    {
        if !crate::addr::flags_contains(self.flags(), PRESENT) {
            Err(FrameError::FrameNotPresent)
        } else if crate::addr::flags_contains(self.flags(), crate::addr::HUGE_PAGE) {
            Err(FrameError::HugeFrame)
        } else {
            proof {
                lemma_e_addr_in_range(self.entry);
            }
            Ok(PhysFrame { start: self.addr(), size: PageSize::Size4KiB })
        }
    }
}

/// A fixed-size table of entries, one level of the hierarchy.
#[derive(Debug)]
pub struct PageTable {
    entries: Vec<PageTableEntry>,
}

impl View for PageTable {
    type V = Seq<u64>;

    closed spec fn view(&self) -> Seq<u64> {
        self.entries@.map_values(|e: PageTableEntry| e@)
    }
}

/// The view of a freshly zeroed table.
pub open spec fn zero_table() -> Seq<u64> {
    Seq::new(512, |i: int| 0u64)
}

impl PageTable {
    /// The table has exactly `ENTRY_COUNT` entries.
    pub open spec fn wf(self) -> bool {
        self@.len() == 512
    }

    /// A fresh table with every entry unused.
    pub fn new() -> (r: PageTable)
        ensures
            r.wf(),
            r@ =~= zero_table(),
    {
        let mut entries: Vec<PageTableEntry> = Vec::new();
        let mut i: usize = 0;
        while i < 512
            invariant
                i <= 512,
                entries@.len() == i,
                forall|k: int| 0 <= k < i ==> entries@[k]@ == 0,
            decreases 512 - i,
        {
            entries.push(PageTableEntry::new());
            i = i + 1;
        }
        let r = PageTable { entries };
        assert(r@ =~= zero_table());
        r
    }

    /// Clears every entry.
    pub fn zero(&mut self)
        requires
            old(self).wf(),
        ensures
            final(self).wf(),
            final(self)@ =~= zero_table(),
    {
        let mut i: usize = 0;
        while i < 512
            invariant
                i <= 512,
                self.entries@.len() == 512,
                forall|k: int| 0 <= k < i ==> self.entries@[k]@ == 0,
            decreases 512 - i,
        {
            let e = &mut self.entries[i];
            e.set_unused();
            i = i + 1;
        }
        assert(self@ =~= zero_table());
    }

    /// The entry at `index`, by value.
    pub fn entry(&self, index: usize) -> (r: PageTableEntry)
        requires
            self.wf(),
            index < 512,
        ensures
            r@ == self@[index as int],
    {
        self.entries[index]
    }

    /// A mutable reference to the entry at `index`.
    pub fn entry_mut(&mut self, index: usize) -> (r: &mut PageTableEntry)
        requires
            old(self).wf(),
            index < 512,
        ensures
            (*r)@ == old(self)@[index as int],
            final(self)@ =~= old(self)@.update(index as int, final(r)@),
            final(self).wf(),
    {
        &mut self.entries[index]
    }

    /// Overwrites the entry at `index`.
    pub fn set_entry(&mut self, index: usize, e: PageTableEntry)
        requires
            old(self).wf(),
            index < 512,
        ensures
            final(self).wf(),
            final(self)@ =~= old(self)@.update(index as int, e@),
    {
        self.entries.set(index, e);
        assert(self@ =~= old(self)@.update(index as int, e@));
    }
}

} // verus!
