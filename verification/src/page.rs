//! Pages and frames: aligned units of virtual and physical address space,
//! tagged with their size class.

use vstd::prelude::*;
use crate::addr::{aligned, MAX_PHYS_ADDR, SIZE_2MIB, SIZE_4KIB};


verus! {

/// The size classes a page or frame can have in the two-level hierarchy.
#[derive(Clone, Copy, Debug, PartialEq, Eq, Structural)]
pub enum PageSize {
    /// A terminal-level page, 4 KiB.
    Size4KiB,
    /// A level-2 huge page, 2 MiB.
    Size2MiB,
}

impl PageSize {
    /// The size in bytes.
    pub open spec fn spec_size(self) -> u64 {
        match self {
            PageSize::Size4KiB => SIZE_4KIB,
            PageSize::Size2MiB => SIZE_2MIB,
        }
    }

    /// The size in bytes.
    #[verifier::when_used_as_spec(spec_size)]
    pub fn size(self) -> (r: u64)
        ensures
            r == self.spec_size(),
    {
        match self {
            PageSize::Size4KiB => 4096,
            PageSize::Size2MiB => 0x20_0000,
        }
    }
}

/// Returned when an address is not aligned to the required size boundary.
#[derive(Clone, Copy, Debug, PartialEq, Eq, Structural)]
pub struct AddressNotAligned;

/// A physical frame: a size-aligned physical address tagged with its size.
#[derive(Clone, Copy, Debug, PartialEq, Eq, Structural)]
pub struct PhysFrame {
    /// Start address of the frame.
    pub start: u64,
    /// Size class of the frame.
    pub size: PageSize,
}

impl PhysFrame {
    /// The frame's start address is aligned to its size and encodable in a
    /// page-table entry.
    pub open spec fn wf(self) -> bool {
        aligned(self.start, self.size.spec_size()) && self.start < MAX_PHYS_ADDR
    }

    /// The frame starting exactly at `addr`, or `AddressNotAligned`.
    pub fn from_start_address(addr: u64, size: PageSize) -> (r: Result<PhysFrame, AddressNotAligned>)
        requires
            addr < MAX_PHYS_ADDR,
        ensures
            r is Ok <==> aligned(addr, size.spec_size()),
            r matches Ok(f) ==> f == (PhysFrame { start: addr, size }) && f.wf(),
    {
        if addr % size.size() == 0 {
            Ok(PhysFrame { start: addr, size })
        } else {
            Err(AddressNotAligned)
        }
    }

    /// The frame of the given size that contains `addr`.
    pub fn containing_address(addr: u64, size: PageSize) -> (r: PhysFrame)
        requires
            addr < MAX_PHYS_ADDR,
        ensures
            r.start == addr - (addr % size.spec_size()),
            r.size == size,
            r.wf(),
    {
        let start = addr - (addr % size.size());
        PhysFrame { start, size }
    }

    /// Start address of the frame.
    pub fn start_address(self) -> (r: u64)
        ensures
            r == self.start,
    {
        self.start
    }
}

/// A virtual page: a size-aligned virtual address tagged with its size.
#[derive(Clone, Copy, Debug, PartialEq, Eq, Structural)]
pub struct Page {
    /// Start address of the page.
    pub start: u64,
    /// Size class of the page.
    pub size: PageSize,
}

impl Page {
    /// The page's start address is aligned to its size.
    pub open spec fn wf(self) -> bool {
        aligned(self.start, self.size.spec_size())
    }

    /// The page starting exactly at `addr`, or `AddressNotAligned`.
    pub fn from_start_address(addr: u64, size: PageSize) -> (r: Result<Page, AddressNotAligned>)
        ensures
            r is Ok <==> aligned(addr, size.spec_size()),
            r matches Ok(p) ==> p == (Page { start: addr, size }) && p.wf(),
    {
        if addr % size.size() == 0 {
            Ok(Page { start: addr, size })
        } else {
            Err(AddressNotAligned)
        }
    }

    /// The page of the given size that contains `addr`.
    pub fn containing_address(addr: u64, size: PageSize) -> (r: Page)
        ensures
            r.start == addr - (addr % size.spec_size()),
            r.size == size,
            r.wf(),
    {
        let start = addr - (addr % size.size());
        Page { start, size }
    }

    /// Start address of the page.
    pub fn start_address(self) -> (r: u64)
        ensures
            r == self.start,
    {
        self.start
    }

    /// Index of the level-2 entry responsible for this page.
    pub fn p2_index(self) -> (r: usize)
        ensures
            r == crate::addr::p2_index_of(self.start),
            r < 512,
    {
        ((self.start / 0x20_0000) % 512) as usize
    }

    /// Index of the level-1 entry responsible for this page.
    pub fn p1_index(self) -> (r: usize)
        ensures
            r == crate::addr::p1_index_of(self.start),
            r < 512,
    {
        ((self.start / 4096) % 512) as usize
    }
}

/// A frame aligned to its own size is in particular 4 KiB aligned.
pub proof fn lemma_frame_4kib_aligned(f: PhysFrame)
    requires
        f.wf(),
    ensures
        aligned(f.start, SIZE_4KIB),
{
    match f.size {
        PageSize::Size4KiB => {},
        PageSize::Size2MiB => {
            assert(SIZE_2MIB == SIZE_4KIB * 512);
            vstd::arithmetic::div_mod::lemma_mod_mod(f.start as int, SIZE_4KIB as int, 512);
        },
    }
}

} // verus!
