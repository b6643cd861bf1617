//! Address arithmetic, the hardware entry layout, and flag-word helpers.
//!
//! A page-table entry is a single 64-bit word: bits 12..52 hold a physical
//! address, the remaining bits hold flags.  Flags are carried around as plain
//! `u64` bit sets.

use vstd::prelude::*;

verus! {

/// Number of entries in one page table.
pub const ENTRY_COUNT: usize = 512;

/// Size in bytes of a page or frame at the terminal table level.
pub const SIZE_4KIB: u64 = 4096;

/// Size in bytes of the region one level-2 entry covers: a huge page.
pub const SIZE_2MIB: u64 = 0x20_0000;

/// One past the largest physical address an entry can encode (2^52).
pub const MAX_PHYS_ADDR: u64 = 0x10_0000_0000_0000;

/// Bits of an entry word that hold the physical address.
pub const ADDR_MASK: u64 = 0x000F_FFFF_FFFF_F000;

/// Bits of an entry word that hold flags; the complement of `ADDR_MASK`.
pub const FLAGS_MASK: u64 = 0xFFF0_0000_0000_0FFF;

/// The mapping is live; clear entries are ignored by the hardware walk.
pub const PRESENT: u64 = 0x1;

/// Writes through the mapping are allowed.
pub const WRITABLE: u64 = 0x2;

/// User-mode accesses through the mapping are allowed.
pub const USER_ACCESSIBLE: u64 = 0x4;

/// Write-through caching for this mapping.
pub const WRITE_THROUGH: u64 = 0x8;

/// Caching is disabled for this mapping.
pub const NO_CACHE: u64 = 0x10;

/// Set by the hardware when the mapping is used.
pub const ACCESSED: u64 = 0x20;

/// Set by the hardware when the mapping is written.
pub const DIRTY: u64 = 0x40;

/// The entry terminates the walk at its own level instead of pointing to a
/// further table.
pub const HUGE_PAGE: u64 = 0x80;

/// The mapping survives address-space switches.
pub const GLOBAL: u64 = 0x100;

/// Instruction fetches through the mapping are forbidden.
pub const NO_EXECUTE: u64 = 0x8000_0000_0000_0000;

/// `addr` is a multiple of `size`.
pub open spec fn aligned(addr: u64, size: u64) -> bool
    recommends
        size > 0,
{
    addr % size == 0
}

/// Every flag bit of `g` is also set in `f`.
pub open spec fn flags_contain(f: u64, g: u64) -> bool {
    f & g == g
}

/// `f` uses only flag bits, none of the address bits.
pub open spec fn is_flag_word(f: u64) -> bool {
    f & ADDR_MASK == 0
}

/// The physical address packed into an entry word.
pub open spec fn e_addr(e: u64) -> u64 {
    e & ADDR_MASK
}

/// The flag bits of an entry word.
pub open spec fn e_flags(e: u64) -> u64 {
    e & FLAGS_MASK
}

/// The entry's mapping is live.
pub open spec fn e_present(e: u64) -> bool {
    flags_contain(e_flags(e), PRESENT)
}

/// The entry terminates the walk at its own level.
pub open spec fn e_huge(e: u64) -> bool {
    flags_contain(e_flags(e), HUGE_PAGE)
}

/// Index of the level-2 entry responsible for virtual address `va`.
pub open spec fn p2_index_of(va: u64) -> int {
    ((va / SIZE_2MIB) % 512) as int
}

/// Index of the level-1 entry responsible for virtual address `va`.
pub open spec fn p1_index_of(va: u64) -> int {
    ((va / SIZE_4KIB) % 512) as int
}

/// Exec mirror of `flags_contain`.
pub fn flags_contains(f: u64, g: u64) -> (r: bool)
    ensures
        r == flags_contain(f, g),
{
    f & g == g
}

/// Packing an address and a flag word into one entry loses neither.
pub proof fn lemma_entry_pack(a: u64, f: u64)
    requires
        a & ADDR_MASK == a,
        f & FLAGS_MASK == f,
    ensures
        e_addr(a | f) == a,
        e_flags(a | f) == f,
{
    assert((a | f) & 0x000F_FFFF_FFFF_F000u64 == a && (a | f) & 0xFFF0_0000_0000_0FFFu64 == f)
        by (bit_vector)
        requires
            a & 0x000F_FFFF_FFFF_F000u64 == a,
            f & 0xFFF0_0000_0000_0FFFu64 == f,
    ;
}

/// The address field of any entry word is 4 KiB aligned and below 2^52,
/// and re-masking it changes nothing.
pub proof fn lemma_e_addr_in_range(e: u64)
    ensures
        aligned(e_addr(e), SIZE_4KIB),
        e_addr(e) < MAX_PHYS_ADDR,
        e_addr(e) & ADDR_MASK == e_addr(e),
{
    assert((e & 0x000F_FFFF_FFFF_F000u64) % 4096u64 == 0 && (e & 0x000F_FFFF_FFFF_F000u64)
        < 0x10_0000_0000_0000u64 && (e & 0x000F_FFFF_FFFF_F000u64) & 0x000F_FFFF_FFFF_F000u64 == (e
        & 0x000F_FFFF_FFFF_F000u64)) by (bit_vector);
}

/// A 4 KiB aligned address below 2^52 survives the address mask unchanged.
pub proof fn lemma_aligned_addr_mask(a: u64)
    requires
        aligned(a, SIZE_4KIB),
        a < MAX_PHYS_ADDR,
    ensures
        a & ADDR_MASK == a,
{
    assert(a & 0x000F_FFFF_FFFF_F000u64 == a) by (bit_vector)
        requires
            a % 4096u64 == 0 && a < 0x10_0000_0000_0000u64,
    ;
}

/// The flag field of any entry word uses only flag bits, and re-masking it
/// changes nothing.
pub proof fn lemma_e_flags_is_flag_word(e: u64)
    ensures
        is_flag_word(e_flags(e)),
        e_flags(e) & FLAGS_MASK == e_flags(e),
{
    assert((e & 0xFFF0_0000_0000_0FFFu64) & 0x000F_FFFF_FFFF_F000u64 == 0 && (e
        & 0xFFF0_0000_0000_0FFFu64) & 0xFFF0_0000_0000_0FFFu64 == (e & 0xFFF0_0000_0000_0FFFu64))
        by (bit_vector);
}

/// The union of two flag words is still a flag word and contains both.
pub proof fn lemma_flags_union(f: u64, g: u64)
    requires
        f & FLAGS_MASK == f,
        g & FLAGS_MASK == g,
    ensures
        (f | g) & FLAGS_MASK == (f | g),
        flags_contain(f | g, f),
        flags_contain(f | g, g),
{
    assert((f | g) & 0xFFF0_0000_0000_0FFFu64 == (f | g) && (f | g) & f == f && (f | g) & g == g)
        by (bit_vector)
        requires
            f & 0xFFF0_0000_0000_0FFFu64 == f,
            g & 0xFFF0_0000_0000_0FFFu64 == g,
    ;
}

/// How a union of flag words treats the present and huge-page bits: the
/// union is present as soon as either side is, and it is huge exactly when
/// one of the sides is.
pub proof fn lemma_merge_present_huge(f: u64, g: u64)
    ensures
        flags_contain(f | g, PRESENT) <==> (flags_contain(f, PRESENT) || flags_contain(
            g,
            PRESENT,
        )),
        flags_contain(f | g, HUGE_PAGE) <==> (flags_contain(f, HUGE_PAGE) || flags_contain(
            g,
            HUGE_PAGE,
        )),
{
    assert((((f | g) & 0x1u64 == 0x1u64) <==> (f & 0x1u64 == 0x1u64 || g & 0x1u64 == 0x1u64)) && (((
    f | g) & 0x80u64 == 0x80u64) <==> (f & 0x80u64 == 0x80u64 || g & 0x80u64 == 0x80u64)))
        by (bit_vector);
}

/// Flags already contained are absorbed by a union.
pub proof fn lemma_contain_absorb(f: u64, g: u64)
    requires
        flags_contain(f, g),
    ensures
        (f | g) == f,
{
    assert(f & g == g ==> (f | g) == f) by (bit_vector);
}

/// The zero entry has no address, no flags, and is neither present nor
/// huge.
pub proof fn lemma_zero_entry()
    ensures
        e_addr(0) == 0,
        e_flags(0) == 0,
        !e_present(0),
        !e_huge(0),
{
    assert(0u64 & 0x000F_FFFF_FFFF_F000u64 == 0 && 0u64 & 0xFFF0_0000_0000_0FFFu64 == 0 && !(0u64
        & 0x1u64 == 0x1u64) && !(0u64 & 0x80u64 == 0x80u64)) by (bit_vector);
}

/// Every flag word contains itself.
pub proof fn lemma_contain_refl(f: u64)
    ensures
        flags_contain(f, f),
{
    assert(f & f == f) by (bit_vector);
}

/// Flag containment is transitive.
pub proof fn lemma_contain_trans(f: u64, g: u64, h: u64)
    requires
        flags_contain(f, g),
        flags_contain(g, h),
    ensures
        flags_contain(f, h),
{
    assert(f & g == g && g & h == h ==> f & h == h) by (bit_vector);
}

/// The named flag bits use only flag bits of the entry word, and each
/// contains itself.
pub proof fn lemma_flag_const_words()
    ensures
        PRESENT & FLAGS_MASK == PRESENT,
        WRITABLE & FLAGS_MASK == WRITABLE,
        USER_ACCESSIBLE & FLAGS_MASK == USER_ACCESSIBLE,
        WRITE_THROUGH & FLAGS_MASK == WRITE_THROUGH,
        NO_CACHE & FLAGS_MASK == NO_CACHE,
        HUGE_PAGE & FLAGS_MASK == HUGE_PAGE,
        GLOBAL & FLAGS_MASK == GLOBAL,
        NO_EXECUTE & FLAGS_MASK == NO_EXECUTE,
        flags_contain(PRESENT, PRESENT),
        flags_contain(HUGE_PAGE, HUGE_PAGE),
        !flags_contain(PRESENT, HUGE_PAGE),
{
    assert(0x1u64 & 0xFFF0_0000_0000_0FFFu64 == 0x1u64 && 0x2u64 & 0xFFF0_0000_0000_0FFFu64
        == 0x2u64 && 0x4u64 & 0xFFF0_0000_0000_0FFFu64 == 0x4u64 && 0x8u64
        & 0xFFF0_0000_0000_0FFFu64 == 0x8u64 && 0x10u64 & 0xFFF0_0000_0000_0FFFu64 == 0x10u64
        && 0x80u64 & 0xFFF0_0000_0000_0FFFu64 == 0x80u64 && 0x100u64 & 0xFFF0_0000_0000_0FFFu64
        == 0x100u64 && 0x8000_0000_0000_0000u64 & 0xFFF0_0000_0000_0FFFu64
        == 0x8000_0000_0000_0000u64 && 0x1u64 & 0x1u64 == 0x1u64 && 0x80u64 & 0x80u64 == 0x80u64
        && !(0x1u64 & 0x80u64 == 0x80u64)) by (bit_vector);
}

/// An entry word is zero exactly when both its address and flag fields are.
pub proof fn lemma_entry_zero(e: u64)
    ensures
        e == 0 <==> (e_addr(e) == 0 && e_flags(e) == 0),
        e == (e_addr(e) | e_flags(e)),
{
    assert((e == 0 <==> ((e & 0x000F_FFFF_FFFF_F000u64) == 0 && (e & 0xFFF0_0000_0000_0FFFu64)
        == 0)) && e == ((e & 0x000F_FFFF_FFFF_F000u64) | (e & 0xFFF0_0000_0000_0FFFu64)))
        by (bit_vector);
}

} // verus!
