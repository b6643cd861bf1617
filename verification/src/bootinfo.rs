//! Boot information handed to the kernel: the physical memory map and the
//! per-core boot data.

use vstd::prelude::*;
use crate::addr::MAX_PHYS_ADDR;

verus! {

/// Classification of one physical memory region, as reported at boot.
#[derive(Clone, Copy, Debug, PartialEq, Eq, Structural)]
pub enum MemoryRegionType {
    /// Free for the kernel to use.
    Usable,
    /// Currently in use.
    InUse,
    /// Reserved by the firmware.
    Reserved,
    /// ACPI tables, reclaimable after they were parsed.
    AcpiReclaimable,
    /// ACPI non-volatile storage.
    AcpiNvs,
    /// Reported defective.
    BadMemory,
    /// Holds the kernel image.
    Kernel,
    /// Holds the kernel stack.
    KernelStack,
    /// Holds boot page tables.
    PageTable,
    /// Used by the bootloader.
    Bootloader,
    /// The first frame, kept out of use.
    FrameZero,
    /// An unfilled map slot.
    Empty,
    /// Holds the boot information itself.
    BootInfo,
    /// Holds the loaded package.
    Package,
}

/// A right-open range of physical addresses.
#[derive(Clone, Copy, Debug, PartialEq, Eq, Structural)]
pub struct FrameRange {
    /// First address of the range.
    pub start_addr: u64,
    /// First address past the range.
    pub end_addr: u64,
}

impl FrameRange {
    /// A range from `start_addr` up to, excluding, `end_addr`.
    pub fn new(start_addr: u64, end_addr: u64) -> (r: FrameRange)
        requires
            start_addr <= end_addr,
        ensures
            r == (FrameRange { start_addr, end_addr }),
    {
        FrameRange { start_addr, end_addr }
    }

    /// Number of bytes in the range.
    pub fn size(&self) -> (r: u64)
        requires
            self.start_addr <= self.end_addr,
        ensures
            r == self.end_addr - self.start_addr,
    {
        self.end_addr - self.start_addr
    }
}

/// One classified region of the boot memory map.
#[derive(Clone, Copy, Debug, PartialEq, Eq, Structural)]
pub struct MemoryRegion {
    /// The addresses the region spans.
    pub range: FrameRange,
    /// What the region holds.
    pub region_type: MemoryRegionType,
}

impl MemoryRegion {
    /// An empty region, as used for unfilled map slots.
    pub fn empty() -> (r: MemoryRegion)
        ensures
            r == (MemoryRegion {
                range: FrameRange { start_addr: 0, end_addr: 0 },
                region_type: MemoryRegionType::Empty,
            }),
    {
        MemoryRegion {
            range: FrameRange { start_addr: 0, end_addr: 0 },
            region_type: MemoryRegionType::Empty,
        }
    }

    /// The region spans well-formed, encodable addresses.
    pub open spec fn wf(self) -> bool {
        self.range.start_addr <= self.range.end_addr <= MAX_PHYS_ADDR
    }

    /// The region contains address `addr`.
    pub open spec fn spec_contains(self, addr: u64) -> bool {
        self.range.start_addr <= addr < self.range.end_addr
    }
}

/// The first region of `regions` that contains `addr`, if any.
pub open spec fn region_for(regions: Seq<MemoryRegion>, addr: u64) -> Option<MemoryRegion>
    decreases regions.len(),
{
    if regions.len() == 0 {
        None
    } else if regions[0].spec_contains(addr) {
        Some(regions[0])
    } else {
        region_for(regions.drop_first(), addr)
    }
}

/// The boot-supplied map of physical memory: classified regions, disjoint
/// and ordered by start address.
#[derive(Debug)]
pub struct MemoryMap {
    regions: Vec<MemoryRegion>,
}

impl View for MemoryMap {
    type V = Seq<MemoryRegion>;

    closed spec fn view(&self) -> Seq<MemoryRegion> {
        self.regions@
    }
}

impl MemoryMap {
    /// Every region is well formed, and the regions are disjoint and ordered
    /// by start address.
    pub open spec fn wf(self) -> bool {
        &&& forall|i: int| 0 <= i < self@.len() ==> (#[trigger] self@[i]).wf()
        &&& forall|i: int, j: int|
            0 <= i < j < self@.len() ==> #[trigger] self@[i].range.end_addr
                <= #[trigger] self@[j].range.start_addr
    }

    /// An empty map.
    pub fn new() -> (r: MemoryMap)
        ensures
            r@ =~= Seq::<MemoryRegion>::empty(),
            r.wf(),
    {
        MemoryMap { regions: Vec::new() }
    }

    /// Appends a region; it must lie past every region already in the map.
    pub fn add_region(&mut self, region: MemoryRegion)
        requires
            old(self).wf(),
            region.wf(),
            forall|i: int|
                0 <= i < old(self)@.len() ==> (#[trigger] old(self)@[i]).range.end_addr
                    <= region.range.start_addr,
        ensures
            final(self)@ =~= old(self)@.push(region),
            final(self).wf(),
    {
        self.regions.push(region);
    }

    /// Number of regions in the map.
    pub fn len(&self) -> (r: usize)
        ensures
            r == self@.len(),
    {
        self.regions.len()
    }

    /// The region at position `index`.
    pub fn region_at(&self, index: usize) -> (r: MemoryRegion)
        requires
            index < self@.len(),
        ensures
            r == self@[index as int],
    {
        self.regions[index]
    }

    /// The first region containing `addr`, if any.
    pub fn get_region_by_addr(&self, addr: u64) -> (r: Option<MemoryRegion>)
        ensures
            r == region_for(self@, addr),
    {
        let n = self.regions.len();
        let mut i: usize = 0;
        proof {
            assert(self@.skip(0) =~= self@);
        }
        while i < n
            invariant
                i <= n,
                n == self@.len(),
                region_for(self@, addr) == region_for(self@.skip(i as int), addr),
            decreases n - i,
        {
            let region = self.regions[i];
            proof {
                assert(self@.skip(i as int).drop_first() =~= self@.skip(i as int + 1));
            }
            if region.range.start_addr <= addr && addr < region.range.end_addr {
                return Some(region);
            }
            i = i + 1;
        }
        proof {
            assert(self@.skip(n as int) =~= Seq::<MemoryRegion>::empty());
        }
        None
    }
}

/// Boot data for one processor core.
#[derive(Clone, Copy, Debug, PartialEq, Eq, Structural)]
pub struct Core {
    /// Start address of the core's stack.
    pub stack_start_addr: u64,
    /// End address of the core's stack.
    pub stack_end_addr: u64,
    /// Size of the core's stack.
    pub stack_size: u64,
}

impl Core {
    /// A core record with every field zero.
    pub fn empty() -> (r: Core)
        ensures
            r == (Core { stack_start_addr: 0, stack_end_addr: 0, stack_size: 0 }),
    {
        Core { stack_start_addr: 0, stack_end_addr: 0, stack_size: 0 }
    }
}

/// The per-core boot records, with the count of cores that came online.
#[derive(Debug)]
pub struct Cores {
    /// The per-core records; the first `num_cores` are in use.
    pub cores: Vec<Core>,
    /// Number of records in use.
    pub num_cores: u32,
}

impl View for Cores {
    type V = Seq<Core>;

    closed spec fn view(&self) -> Seq<Core> {
        self.cores@
    }
}

impl Cores {
    /// The slots of all 256 possible cores exist and the in-use count stays
    /// within them.
    pub open spec fn wf(self) -> bool {
        self@.len() == 256 && self.num_cores <= 256
    }

    /// A table of 256 zeroed core records, none in use.
    pub fn empty() -> (r: Cores)
        ensures
            r.wf(),
            r.num_cores == 0,
            forall|i: int|
                0 <= i < 256 ==> r@[i] == (Core {
                    stack_start_addr: 0,
                    stack_end_addr: 0,
                    stack_size: 0,
                }),
    {
        let mut cores: Vec<Core> = Vec::new();
        let mut i: usize = 0;
        while i < 256
            invariant
                i <= 256,
                cores@.len() == i,
                forall|k: int|
                    0 <= k < i ==> cores@[k] == (Core {
                        stack_start_addr: 0,
                        stack_end_addr: 0,
                        stack_size: 0,
                    }),
            decreases 256 - i,
        {
            cores.push(Core::empty());
            i = i + 1;
        }
        Cores { cores, num_cores: 0 }
    }

    /// The core record at `index`, which must be in use.
    pub fn core_at(&self, index: usize) -> (r: Core)
        requires
            self.wf(),
            index < self.num_cores,
        ensures
            r == self@[index as int],
    {
        self.cores[index]
    }
}

/// Everything the bootloader passes to the kernel.
#[derive(Debug)]
pub struct BootInfo {
    /// The classified map of physical memory.
    pub memory_map: MemoryMap,
    /// Entry point that secondary cores start from.
    pub smp_trampoline: u32,
    /// Virtual address at which all physical memory is mapped.
    pub physical_memory_offset: u64,
    /// Physical address of the active translation root.
    pub page_table_addr: u32,
    /// Physical address of the kernel entry point.
    pub kernel_entry_addr: u32,
    /// Per-core boot records.
    pub cores: Cores,
    /// Amount of physical memory available, in bytes.
    pub max_phys_memory: u64,
}

impl BootInfo {
    /// A boot information record with an empty map and zeroed fields.
    pub fn new() -> (r: BootInfo)
        ensures
            r.memory_map@ =~= Seq::<MemoryRegion>::empty(),
            r.memory_map.wf(),
            r.smp_trampoline == 0,
            r.physical_memory_offset == 0,
            r.page_table_addr == 0,
            r.kernel_entry_addr == 0,
            r.max_phys_memory == 0,
            r.cores.wf(),
            r.cores.num_cores == 0,
            forall|i: int|
                0 <= i < 256 ==> r.cores@[i] == (Core {
                    stack_start_addr: 0,
                    stack_end_addr: 0,
                    stack_size: 0,
                }),
    {
        let smp_trampoline: u32 = 0;
        let memory_map = MemoryMap::new();
        let physical_memory_offset: u64 = 0;
        BootInfo {
            memory_map,
            smp_trampoline,
            page_table_addr: 0,
            max_phys_memory: 0,
            kernel_entry_addr: 0,
            physical_memory_offset,
            cores: Cores::empty(),
        }
    }
}

} // verus!
