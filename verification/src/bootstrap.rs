//! The early-boot table builder: constructs the minimal hierarchy used
//! before any allocator or general mapper exists, identity mapping the
//! first gigabytes with huge pages and then re-mapping the first huge page
//! at terminal granularity for fine-grained protection.
//!
//! Table storage is statically reserved memory handed in as raw physical
//! addresses; the builder owns the table contents it creates.

use vstd::prelude::*;
use crate::addr::{
    aligned, e_addr, e_flags, e_huge, e_present, flags_contain, lemma_aligned_addr_mask,
    lemma_entry_pack, aligned as addr_aligned, FLAGS_MASK, HUGE_PAGE, MAX_PHYS_ADDR, NO_CACHE,
    NO_EXECUTE, PRESENT, SIZE_2MIB, SIZE_4KIB, WRITABLE,
};
use crate::bootinfo::{region_for, BootInfo, MemoryRegion, MemoryRegionType};
use crate::page_table::{PageTable, PageTableEntry};

verus! {

/// One gigabyte, the region one third-level entry covers.
pub const ONE_GIG: u64 = 0x4000_0000;

/// Two megabytes, the region one huge-page entry covers.
pub const TWO_MEG: u64 = 0x20_0000;

/// The top of the legacy low-memory range.
pub const ONE_MEG: u64 = 0x10_0000;

/// The legacy video memory address, identity mapped with its own flags.
pub const VGA_ADDR: u64 = 0xb8000;

/// The huge-page entry the builder writes for the huge page at `va`:
/// writable for usable memory, non-writable and non-executable for any
/// other classified memory, and unused where the map says nothing.
pub open spec fn bootstrap_huge_entry(regions: Seq<MemoryRegion>, va: u64) -> u64 {
    match region_for(regions, va) {
        Some(reg) => if reg.region_type == MemoryRegionType::Usable {
            va | (PRESENT | WRITABLE | HUGE_PAGE)
        } else {
            va | (PRESENT | HUGE_PAGE | NO_EXECUTE)
        },
        None => 0,
    }
}

/// The terminal entry the re-map loop writes for page `k` of the first
/// huge page, before the video-memory override: the stack-guard page is
/// left present but otherwise unprotected, the trampoline range is
/// writable, everything at or below the legacy boundary is uncached and
/// non-executable, and the rest is plain present.
pub open spec fn remap_loop_entry(k: int, stack_guard: u64, ts: u64, te: u64) -> u64 {
    let a = (k * SIZE_4KIB) as u64;
    if a == stack_guard {
        a | PRESENT
    } else if ts <= a < te {
        a | (PRESENT | WRITABLE)
    } else if a <= ONE_MEG {
        a | (PRESENT | NO_CACHE | NO_EXECUTE)
    } else {
        a | PRESENT
    }
}

/// The terminal entry page `k` of the first huge page ends up with: the
/// video-memory page gets its fixed flags, every other page what the
/// re-map loop wrote.
pub open spec fn remap_entry(k: int, stack_guard: u64, ts: u64, te: u64) -> u64 {
    if k == 0xb8 {
        VGA_ADDR | (PRESENT | WRITABLE | NO_CACHE | NO_EXECUTE)
    } else {
        remap_loop_entry(k, stack_guard, ts, te)
    }
}

/// The flag words the builder writes are flag words, and how their bits
/// read back.
pub proof fn lemma_bootstrap_flag_words()
    ensures
        (PRESENT | WRITABLE) & FLAGS_MASK == (PRESENT | WRITABLE),
        (PRESENT | WRITABLE | HUGE_PAGE) & FLAGS_MASK == (PRESENT | WRITABLE | HUGE_PAGE),
        (PRESENT | HUGE_PAGE | NO_EXECUTE) & FLAGS_MASK == (PRESENT | HUGE_PAGE | NO_EXECUTE),
        PRESENT & FLAGS_MASK == PRESENT,
        (PRESENT | NO_CACHE | NO_EXECUTE) & FLAGS_MASK == (PRESENT | NO_CACHE | NO_EXECUTE),
        (PRESENT | WRITABLE | NO_CACHE | NO_EXECUTE) & FLAGS_MASK == (PRESENT | WRITABLE
            | NO_CACHE | NO_EXECUTE),
        flags_contain(PRESENT | WRITABLE | HUGE_PAGE, PRESENT),
        flags_contain(PRESENT | WRITABLE | HUGE_PAGE, WRITABLE),
        flags_contain(PRESENT | WRITABLE | HUGE_PAGE, HUGE_PAGE),
        !flags_contain(PRESENT | WRITABLE | HUGE_PAGE, NO_EXECUTE),
        flags_contain(PRESENT | HUGE_PAGE | NO_EXECUTE, PRESENT),
        flags_contain(PRESENT | HUGE_PAGE | NO_EXECUTE, HUGE_PAGE),
        flags_contain(PRESENT | HUGE_PAGE | NO_EXECUTE, NO_EXECUTE),
        !flags_contain(PRESENT | HUGE_PAGE | NO_EXECUTE, WRITABLE),
{
    assert((0x1u64 | 0x2u64) & 0xFFF0_0000_0000_0FFFu64 == (0x1u64 | 0x2u64) && (0x1u64 | 0x2u64
        | 0x80u64) & 0xFFF0_0000_0000_0FFFu64 == (0x1u64 | 0x2u64 | 0x80u64) && (0x1u64 | 0x80u64
        | 0x8000_0000_0000_0000u64) & 0xFFF0_0000_0000_0FFFu64 == (0x1u64 | 0x80u64
        | 0x8000_0000_0000_0000u64) && 0x1u64 & 0xFFF0_0000_0000_0FFFu64 == 0x1u64 && (0x1u64
        | 0x10u64 | 0x8000_0000_0000_0000u64) & 0xFFF0_0000_0000_0FFFu64 == (0x1u64 | 0x10u64
        | 0x8000_0000_0000_0000u64) && (0x1u64 | 0x2u64 | 0x10u64 | 0x8000_0000_0000_0000u64)
        & 0xFFF0_0000_0000_0FFFu64 == (0x1u64 | 0x2u64 | 0x10u64 | 0x8000_0000_0000_0000u64) && (
    0x1u64 | 0x2u64 | 0x80u64) & 0x1u64 == 0x1u64 && (0x1u64 | 0x2u64 | 0x80u64) & 0x2u64 == 0x2u64
        && (0x1u64 | 0x2u64 | 0x80u64) & 0x80u64 == 0x80u64 && !((0x1u64 | 0x2u64 | 0x80u64)
        & 0x8000_0000_0000_0000u64 == 0x8000_0000_0000_0000u64) && (0x1u64 | 0x80u64
        | 0x8000_0000_0000_0000u64) & 0x1u64 == 0x1u64 && (0x1u64 | 0x80u64
        | 0x8000_0000_0000_0000u64) & 0x80u64 == 0x80u64 && (0x1u64 | 0x80u64
        | 0x8000_0000_0000_0000u64) & 0x8000_0000_0000_0000u64 == 0x8000_0000_0000_0000u64 && !((
    0x1u64 | 0x80u64 | 0x8000_0000_0000_0000u64) & 0x2u64 == 0x2u64)) by (bit_vector);
}

/// A huge-page virtual address below four gigabytes is page aligned and
/// encodable.
pub proof fn lemma_huge_va(g: int, k: int)
    requires
        0 <= g < 4,
        0 <= k < 512,
    ensures
        0 <= g * ONE_GIG + k * TWO_MEG < 4 * ONE_GIG,
        (g * ONE_GIG + k * TWO_MEG) % (SIZE_4KIB as int) == 0,
        (g * ONE_GIG + k * TWO_MEG) % (SIZE_2MIB as int) == 0,
{
    assert(g * 0x4000_0000 + k * 0x20_0000 == (512 * g + k) * 0x20_0000) by (nonlinear_arith);
    assert(0 <= (512 * g + k) * 0x20_0000 < 4 * 0x4000_0000) by (nonlinear_arith)
        requires
            0 <= g < 4,
            0 <= k < 512,
    ;
    let m = 512 * g + k;
    assert((m * 0x20_0000) % 0x20_0000 == 0 && (m * 0x20_0000) % 4096 == 0) by {
        vstd::arithmetic::div_mod::lemma_mod_multiples_vanish(m, 0, 0x20_0000);
        vstd::arithmetic::div_mod::lemma_mod_multiples_vanish(m * 512, 0, 4096);
        assert(m * 0x20_0000 == 0x20_0000 * m && m * 0x20_0000 == 4096 * (m * 512))
            by (nonlinear_arith);
    }
}

/// The builder's whole output: the top-level table, the single third-level
/// table, the four second-level tables holding the huge mappings, and the
/// one terminal table added by the re-map step, each with the physical
/// address it sits at.
pub struct BootstrapTables {
    p4_addr: u64,
    p4: PageTable,
    p3_addr: u64,
    p3: PageTable,
    p2_start: u64,
    p2_tables: Vec<PageTable>,
    p1_addr: u64,
    p1: Option<PageTable>,
}

impl BootstrapTables {
    /// Entry words of the top-level table.
    pub closed spec fn p4(self) -> Seq<u64> {
        self.p4@
    }

    /// Entry words of the third-level table.
    pub closed spec fn p3(self) -> Seq<u64> {
        self.p3@
    }

    /// Entry words of the second-level tables, one per mapped gigabyte.
    pub closed spec fn p2s(self) -> Seq<Seq<u64>> {
        self.p2_tables@.map_values(|t: PageTable| t@)
    }

    /// Entry words of the terminal table of the re-map step, if it ran.
    pub closed spec fn p1(self) -> Option<Seq<u64>> {
        match self.p1 {
            Some(ref t) => Some(t@),
            None => None,
        }
    }

    /// Physical address of the top-level table: the translation root.
    pub closed spec fn spec_p4_addr(self) -> u64 {
        self.p4_addr
    }

    /// Physical address of the third-level table.
    pub closed spec fn spec_p3_addr(self) -> u64 {
        self.p3_addr
    }

    /// Physical address of the first second-level table; table `g` sits
    /// one page further per step.
    pub closed spec fn spec_p2_start(self) -> u64 {
        self.p2_start
    }

    /// Every held table has the full count of entries.
    pub open spec fn wf(self) -> bool {
        &&& self.p4().len() == 512
        &&& self.p3().len() == 512
        &&& self.p2s().len() == 4
        &&& forall|g: int| 0 <= g < 4 ==> (#[trigger] self.p2s()[g]).len() == 512
        &&& (self.p1() matches Some(t) ==> t.len() == 512)
    }

    /// The physical address of the constructed top-level table, to be
    /// loaded as the active translation root by the embedder.
    pub fn root_table_addr(&self) -> (r: u64)
        ensures
            r == self.spec_p4_addr(),
    {
        self.p4_addr
    }

    /// The top-level table.
    pub fn p4_table(&self) -> (r: &PageTable)
        ensures
            r@ == self.p4(),
    {
        &self.p4
    }

    /// The third-level table.
    pub fn p3_table(&self) -> (r: &PageTable)
        ensures
            r@ == self.p3(),
    {
        &self.p3
    }

    /// The second-level table for gigabyte `g`.
    pub fn p2_table(&self, g: usize) -> (r: &PageTable)
        requires
            self.wf(),
            g < 4,
        ensures
            r@ == self.p2s()[g as int],
    {
        &self.p2_tables[g]
    }

    /// The terminal table of the re-map step, if it ran.
    pub fn p1_table(&self) -> (r: Option<&PageTable>)
        ensures
            r matches Some(t) ==> self.p1() == Some(t@),
            r is Some <==> self.p1() is Some,
    {
        match &self.p1 {
            Some(t) => Some(t),
            None => None,
        }
    }
}

/// Builds the boot hierarchy: one top-level entry to one third-level
/// table, whose first four entries point at four second-level tables that
/// identity map the first four gigabytes with huge pages — writable where
/// the boot map says usable, non-writable and non-executable where it says
/// anything else, and unmapped where it says nothing.
pub fn generate_page_table(
    p4_addr: u64,
    p3_addr: u64,
    p2_tables_start: u64,
    p2_tables_end: u64,
    boot_info: &BootInfo,
) -> (r: BootstrapTables)
    requires
        aligned(p4_addr, SIZE_4KIB),
        p4_addr < MAX_PHYS_ADDR,
        aligned(p3_addr, SIZE_4KIB),
        p3_addr < MAX_PHYS_ADDR,
        aligned(p2_tables_start, SIZE_4KIB),
        // The statically reserved region must hold the four second-level
        // tables; running out of table space this early is unrecoverable,
        // so it is excluded up front rather than reported.
        p2_tables_start + 4 * SIZE_4KIB <= p2_tables_end,
        p2_tables_end <= MAX_PHYS_ADDR,
        boot_info.memory_map.wf(),
    ensures
        r.wf(),
        r.spec_p4_addr() == p4_addr,
        r.spec_p3_addr() == p3_addr,
        r.spec_p2_start() == p2_tables_start,
        r.p1() is None,
        r.p4()[0] == (p3_addr | (PRESENT | WRITABLE)),
        forall|i: int| 0 < i < 512 ==> r.p4()[i] == 0,
        forall|g: int| 0 <= g < 4 ==> r.p3()[g] == ((p2_tables_start + g * SIZE_4KIB) as u64 | (
        PRESENT | WRITABLE)),
        forall|g: int| 4 <= g < 512 ==> r.p3()[g] == 0,
        forall|g: int, k: int|
            0 <= g < 4 && 0 <= k < 512 ==> #[trigger] r.p2s()[g][k] == bootstrap_huge_entry(
                boot_info.memory_map@,
                (g * ONE_GIG + k * TWO_MEG) as u64,
            ),
{
    proof {
        lemma_bootstrap_flag_words();
    }
    let mut p4 = PageTable::new();
    let mut e4 = PageTableEntry::new();
    e4.set_addr(p3_addr, PRESENT | WRITABLE);
    p4.set_entry(0, e4);
    let mut p3 = PageTable::new();
    let mut p2_tables: Vec<PageTable> = Vec::new();
    let mut g: usize = 0;
    while g < 4
        invariant
            g <= 4,
            boot_info.memory_map.wf(),
            aligned(p2_tables_start, SIZE_4KIB),
            p2_tables_start + 4 * SIZE_4KIB <= p2_tables_end <= MAX_PHYS_ADDR,
            p4.wf(),
            p4@[0] == (p3_addr | (PRESENT | WRITABLE)),
            forall|i: int| 0 < i < 512 ==> p4@[i] == 0,
            p3.wf(),
            forall|i: int|
                0 <= i < g ==> p3@[i] == ((p2_tables_start + i * SIZE_4KIB) as u64 | (PRESENT
                    | WRITABLE)),
            forall|i: int| g <= i < 512 ==> p3@[i] == 0,
            p2_tables@.len() == g,
            forall|i: int| 0 <= i < g ==> (#[trigger] p2_tables@[i]@).len() == 512,
            forall|i: int, k: int|
                0 <= i < g && 0 <= k < 512 ==> #[trigger] p2_tables@[i]@[k]
                    == bootstrap_huge_entry(
                    boot_info.memory_map@,
                    (i * ONE_GIG + k * TWO_MEG) as u64,
                ),
        decreases 4 - g,
    {
        let pde_addr = p2_tables_start + (g as u64) * 4096;
        proof {
            vstd::arithmetic::div_mod::lemma_mod_multiples_vanish(g as int, 0, 4096);
            vstd::arithmetic::div_mod::lemma_mod_adds(
                p2_tables_start as int,
                (g as u64 * 4096) as int,
                4096,
            );
            assert((g as u64 * 4096) as int == 4096 * (g as int)) by (nonlinear_arith);
        }
        let mut pde = PageTable::new();
        let mut k: usize = 0;
        while k < 512
            invariant
                k <= 512,
                g < 4,
                boot_info.memory_map.wf(),
                pde.wf(),
                forall|m: int|
                    0 <= m < k ==> #[trigger] pde@[m] == bootstrap_huge_entry(
                        boot_info.memory_map@,
                        ((g as int) * ONE_GIG + m * TWO_MEG) as u64,
                    ),
                forall|m: int| k <= m < 512 ==> pde@[m] == 0,
            decreases 512 - k,
        {
            proof {
                lemma_huge_va(g as int, k as int);
                lemma_bootstrap_flag_words();
            }
            let va = (g as u64) * ONE_GIG + (k as u64) * TWO_MEG;
            match boot_info.memory_map.get_region_by_addr(va) {
                Some(region) => {
                    let flags = if matches!(region.region_type, MemoryRegionType::Usable) {
                        PRESENT | WRITABLE | HUGE_PAGE
                    } else {
                        PRESENT | HUGE_PAGE | NO_EXECUTE
                    };
                    let mut entry = PageTableEntry::new();
                    entry.set_addr(va, flags);
                    pde.set_entry(k, entry);
                },
                None => {},
            }
            k = k + 1;
        }
        let mut e3 = PageTableEntry::new();
        proof {
            lemma_bootstrap_flag_words();
        }
        e3.set_addr(pde_addr, PRESENT | WRITABLE);
        p3.set_entry(g, e3);
        p2_tables.push(pde);
        g = g + 1;
    }
    BootstrapTables { p4_addr, p4, p3_addr, p3, p2_start: p2_tables_start, p2_tables, p1_addr: 0, p1: None }
}

impl BootstrapTables {
    /// Re-maps the first huge page at terminal granularity: a fresh
    /// terminal table replaces the first huge entry, giving the
    /// stack-guard page, the trampoline range, the legacy low range and
    /// the video-memory page each their own protections.
    pub fn remap_first_2mb_with_4kb(
        &mut self,
        p1_addr: u64,
        stack_guard: u64,
        smp_trampoline_start: u64,
        smp_trampoline_end: u64,
    )
        requires
            old(self).wf(),
            aligned(p1_addr, SIZE_4KIB),
            p1_addr < MAX_PHYS_ADDR,
        ensures
            final(self).wf(),
            final(self).p4() == old(self).p4(),
            final(self).p3() == old(self).p3(),
            final(self).spec_p4_addr() == old(self).spec_p4_addr(),
            final(self).spec_p3_addr() == old(self).spec_p3_addr(),
            final(self).spec_p2_start() == old(self).spec_p2_start(),
            final(self).p2s() =~= old(self).p2s().update(
                0,
                old(self).p2s()[0].update(0, p1_addr | (PRESENT | WRITABLE)),
            ),
            final(self).p1() matches Some(t) && t.len() == 512 && forall|k: int|
                0 <= k < 512 ==> t[k] == remap_entry(
                    k,
                    stack_guard,
                    smp_trampoline_start,
                    smp_trampoline_end,
                ),
    {
        proof {
            lemma_bootstrap_flag_words();
        }
        let mut p1 = PageTable::new();
        let mut k: usize = 0;
        while k < 512
            invariant
                k <= 512,
                p1.wf(),
                forall|m: int|
                    0 <= m < k ==> #[trigger] p1@[m] == remap_loop_entry(
                        m,
                        stack_guard,
                        smp_trampoline_start,
                        smp_trampoline_end,
                    ),
            decreases 512 - k,
        {
            let addr = (k as u64) * 4096;
            proof {
                lemma_bootstrap_flag_words();
                vstd::arithmetic::div_mod::lemma_mod_multiples_vanish(k as int, 0, 4096);
                assert((k as u64 * 4096) as int == 4096 * (k as int)) by (nonlinear_arith);
            }
            let mut entry = PageTableEntry::new();
            if addr == stack_guard {
                entry.set_addr(addr, PRESENT);
            } else if smp_trampoline_start <= addr && addr < smp_trampoline_end {
                entry.set_addr(addr, PRESENT | WRITABLE);
            } else if addr <= ONE_MEG {
                entry.set_addr(addr, PRESENT | NO_CACHE | NO_EXECUTE);
            } else {
                entry.set_addr(addr, PRESENT);
            }
            p1.set_entry(k, entry);
            k = k + 1;
        }
        let mut vga = PageTableEntry::new();
        proof {
            lemma_bootstrap_flag_words();
            assert(0xb8000u64 % 4096u64 == 0 && 0xb8000u64 < 0x10_0000_0000_0000u64);
        }
        vga.set_addr(VGA_ADDR, PRESENT | WRITABLE | NO_CACHE | NO_EXECUTE);
        p1.set_entry(0xb8, vga);
        proof {
            assert(old(self).p2s()[0].len() == 512);
        }
        let first = &mut self.p2_tables[0];
        proof {
            assert((*first)@ == old(self).p2s()[0]);
        }
        let mut e2 = PageTableEntry::new();
        e2.set_addr(p1_addr, PRESENT | WRITABLE);
        first.set_entry(0, e2);
        self.p1_addr = p1_addr;
        self.p1 = Some(p1);
        proof {
            assert(self.p2s() =~= old(self).p2s().update(
                0,
                old(self).p2s()[0].update(0, p1_addr | (PRESENT | WRITABLE)),
            ));
        }
    }
}

/// What the built huge mappings promise, address by address: every
/// classified huge page below four gigabytes is mapped onto itself, huge
/// and present — writable and executable exactly when the region is
/// usable, and otherwise read-only and non-executable; an unclassified
/// huge page is left unmapped.
pub proof fn lemma_bootstrap_protection(regions: Seq<MemoryRegion>, va: u64)
    requires
        addr_aligned(va, SIZE_2MIB),
        va < 4 * ONE_GIG,
    ensures
        region_for(regions, va) matches Some(reg) ==> ({
            let e = bootstrap_huge_entry(regions, va);
            &&& e_present(e)
            &&& e_huge(e)
            &&& e_addr(e) == va
            &&& (reg.region_type == MemoryRegionType::Usable ==> (flags_contain(
                e_flags(e),
                WRITABLE,
            ) && !flags_contain(e_flags(e), NO_EXECUTE)))
            &&& (reg.region_type != MemoryRegionType::Usable ==> (!flags_contain(
                e_flags(e),
                WRITABLE,
            ) && flags_contain(e_flags(e), NO_EXECUTE)))
        }),
        region_for(regions, va) is None ==> bootstrap_huge_entry(regions, va) == 0,
{
    lemma_bootstrap_flag_words();
    vstd::arithmetic::div_mod::lemma_mod_mod(va as int, SIZE_4KIB as int, 512);
    lemma_aligned_addr_mask(va);
    if region_for(regions, va) is Some {
        lemma_entry_pack(va, PRESENT | WRITABLE | HUGE_PAGE);
        lemma_entry_pack(va, PRESENT | HUGE_PAGE | NO_EXECUTE);
    }
}

} // verus!
