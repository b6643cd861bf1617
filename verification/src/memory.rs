//! The identity-mapping policy: make a physical frame reachable at the
//! virtual address equal to its own physical address, creating a fresh
//! mapping or validating an existing one against the requested flags.

use vstd::prelude::*;
use crate::addr::{
    flags_contain, flags_contains, lemma_contain_trans, lemma_flag_const_words,
    lemma_flags_union, lemma_zero_entry, FLAGS_MASK, HUGE_PAGE, MAX_PHYS_ADDR, NO_CACHE, PRESENT,
    SIZE_2MIB, SIZE_4KIB,
};
use crate::frame_alloc::BootInfoFrameAllocator;
use crate::frame_mapping::PageTableFrameMapping;
use crate::mapper::{alloc_fresh, MappedPageTable, MapperFlush, TranslateResult};
use crate::page::{Page, PageSize, PhysFrame};

verus! {

/// Why an identity-map request failed.
#[derive(Clone, Copy, Debug, PartialEq, Eq, Structural)]
pub enum IdMapError {
    /// No frame was left to create a required table, or the walk met a
    /// state it treats as unrecoverable for this request.
    FrameAllocationFailed,
    /// The address is already mapped, but not to itself; carries the
    /// requested and the actually mapped frame address.
    MappingIsNotIdentity(u64, u64),
    /// The address is already mapped to itself, but with flags lacking
    /// some of the requested ones; carries the actual current flags.
    AlreadyMappedDiffFlags(u64),
}

/// The flags an identity-map request asks for: always present, plus
/// whatever was passed along.
pub open spec fn requested_flags(add_flags: Option<u64>) -> u64 {
    PRESENT | (match add_flags {
        Some(f) => f,
        None => 0,
    })
}

/// The flags the caching-disabled variant asks to add: never-cache, plus
/// whatever was passed along.
pub open spec fn nocache_flags(add_flags: Option<u64>) -> u64 {
    NO_CACHE | (match add_flags {
        Some(f) => f,
        None => 0,
    })
}

/// Whether the map step of an identity-map request, issued on an address
/// the mapper reports unmapped, will succeed: only the creation of a fresh
/// level-1 table can fail, for want of a frame.
pub open spec fn id_map_can_map<P: PageTableFrameMapping>(
    m: MappedPageTable<P>,
    alloc: BootInfoFrameAllocator,
    my_frame: PhysFrame,
) -> bool {
    let i = crate::addr::p2_index_of(my_frame.start);
    if my_frame.size == PageSize::Size4KiB {
        m.l2()[i] != 0 || (alloc.next as int) < alloc.frames(PageSize::Size4KiB).len()
    } else {
        m.l2()[i] == 0
    }
}

/// The exact outcome of an identity-map request on a given prior state.
/// On an unmapped address the mapping is created if a table frame is
/// available.  On a mapped address nothing changes and the existing
/// mapping is validated: it must map the address to itself at whatever
/// size it was mapped, and its flags must contain every requested one —
/// the error for a flag mismatch carries the actual current flags.  The
/// order of the two checks follows the mapped size.
pub open spec fn id_map_spec<P: PageTableFrameMapping>(
    m: MappedPageTable<P>,
    alloc: BootInfoFrameAllocator,
    my_frame: PhysFrame,
    add_flags: Option<u64>,
) -> Result<Page, IdMapError> {
    let va = my_frame.start;
    let my_flags = requested_flags(add_flags);
    let page = Page { start: va, size: my_frame.size };
    match m.spec_translate(va) {
        TranslateResult::NotMapped => {
            if id_map_can_map(m, alloc, my_frame) {
                Ok(page)
            } else {
                Err(IdMapError::FrameAllocationFailed)
            }
        },
        TranslateResult::InvalidFrameAddress(_) => Err(IdMapError::FrameAllocationFailed),
        TranslateResult::Mapped { frame, offset, flags } => {
            if frame.size == PageSize::Size4KiB {
                if va - (va % SIZE_4KIB) != frame.start {
                    Err(
                        IdMapError::MappingIsNotIdentity(
                            (va - (va % SIZE_4KIB)) as u64,
                            frame.start,
                        ),
                    )
                } else if !flags_contain(flags, my_flags) {
                    Err(IdMapError::AlreadyMappedDiffFlags(flags))
                } else {
                    Ok(page)
                }
            } else {
                if !flags_contain(flags, my_flags) {
                    Err(IdMapError::AlreadyMappedDiffFlags(flags))
                } else if va - (va % SIZE_2MIB) != frame.start {
                    Err(
                        IdMapError::MappingIsNotIdentity(
                            (va - (va % SIZE_2MIB)) as u64,
                            frame.start,
                        ),
                    )
                } else {
                    Ok(page)
                }
            }
        },
    }
}

/// The exact mapping the create path of an identity-map request installs:
/// the requested frame at its own address, with exactly the requested
/// flags — the huge-page bit forced in at the huge size — and offset zero
/// at the frame's base.
pub open spec fn created_mapping<P: PageTableFrameMapping>(
    m: MappedPageTable<P>,
    my_frame: PhysFrame,
    add_flags: Option<u64>,
) -> bool {
    m.spec_translate(my_frame.start) == (TranslateResult::Mapped {
        frame: my_frame,
        offset: 0,
        flags: if my_frame.size == PageSize::Size4KiB {
            requested_flags(add_flags)
        } else {
            requested_flags(add_flags) | HUGE_PAGE
        },
    })
}

/// The mapper reports `a` covered by a mapping whose frame contains `a` at
/// the very same address, with at least the present flag.
pub open spec fn identity_mapped_at<P: PageTableFrameMapping>(
    m: MappedPageTable<P>,
    a: u64,
) -> bool {
    m.spec_translate(a) matches TranslateResult::Mapped { frame, offset, flags }
        && frame.start == a - (a % frame.size.spec_size()) && flags_contain(flags, PRESENT)
}

/// Identity maps `my_frame`: creates the mapping with the present flag
/// plus `add_flags` when the address is unmapped, and otherwise validates
/// the existing mapping without touching it.
pub fn id_map<P: PageTableFrameMapping>(
    mapper: &mut MappedPageTable<P>,
    frame_allocator: &mut BootInfoFrameAllocator,
    my_frame: PhysFrame,
    add_flags: Option<u64>,
) -> (r: Result<Page, IdMapError>)
    requires
        old(mapper).wf(),
        my_frame.wf(),
        (add_flags matches Some(f) ==> f & FLAGS_MASK == f),
        old(frame_allocator).wf(),
        old(frame_allocator).next + 1024 <= usize::MAX,
        alloc_fresh(*old(frame_allocator), old(mapper).tables()),
    ensures
        final(mapper).wf(),
        final(frame_allocator).wf(),
        final(frame_allocator).memory_map == old(frame_allocator).memory_map,
        alloc_fresh(*final(frame_allocator), final(mapper).tables()),
        r == id_map_spec(*old(mapper), *old(frame_allocator), my_frame, add_flags),
        old(mapper).spec_translate(my_frame.start) matches TranslateResult::Mapped { .. } ==> (
        *final(mapper) == *old(mapper) && *final(frame_allocator) == *old(frame_allocator)),
        r is Err ==> (final(mapper).l2() == old(mapper).l2() && final(mapper).tables() == old(
            mapper,
        ).tables()),
        r is Ok ==> identity_mapped_at(*final(mapper), my_frame.start) && flags_contain(
            (final(mapper).spec_translate(my_frame.start))->Mapped_flags,
            requested_flags(add_flags),
        ),
        final(frame_allocator).next <= old(frame_allocator).next + 1,
        (old(mapper).spec_translate(my_frame.start) is NotMapped && r is Ok) ==> created_mapping(
            *final(mapper),
            my_frame,
            add_flags,
        ),
        (old(mapper).spec_translate(my_frame.start) is NotMapped && r is Ok) ==> (forall|va: u64|
            (crate::addr::p2_index_of(va) != crate::addr::p2_index_of(my_frame.start) || (
            my_frame.size == PageSize::Size4KiB && crate::addr::p1_index_of(va)
                != crate::addr::p1_index_of(my_frame.start))) ==> #[trigger] final(mapper).spec_translate(va) == old(mapper).spec_translate(va)),
{
    proof {
        lemma_flag_const_words();
        lemma_zero_entry();
        assert(0u64 & 0xFFF0_0000_0000_0FFFu64 == 0u64) by (bit_vector);
        match add_flags {
            Some(f) => {
                lemma_flags_union(PRESENT, f);
            },
            None => {
                lemma_flags_union(PRESENT, 0);
            },
        }
        crate::mapper::lemma_parent_flags(requested_flags(add_flags));
        crate::addr::lemma_contain_refl(requested_flags(add_flags));
        assert(0x1u64 | 0x2u64 | 0x4u64 == 0x7u64) by (bit_vector);
    }
    let addr = my_frame.start_address();
    let page = match Page::from_start_address(addr, my_frame.size) {
        Ok(p) => p,
        Err(_) => {
            // Unreachable: the frame's own address is aligned to its size.
            proof {
                assert(false);
            }
            return Err(IdMapError::FrameAllocationFailed);
        },
    };
    let my_flags = PRESENT | (match add_flags {
        Some(f) => f,
        None => 0,
    });
    match mapper.translate(addr) {
        TranslateResult::NotMapped => {
            match mapper.identity_map(my_frame, my_flags, frame_allocator) {
                Ok(flush) => {
                    proof {
                        match my_frame.size {
                            PageSize::Size4KiB => {
                                MappedPageTable::<P>::lemma_translate_after_map_4kib(
                                    *old(mapper),
                                    *mapper,
                                    *old(frame_allocator),
                                    *frame_allocator,
                                    page,
                                    my_frame,
                                    my_flags,
                                    my_flags & (PRESENT | crate::addr::WRITABLE
                                        | crate::addr::USER_ACCESSIBLE),
                                    Ok(flush),
                                );
                            },
                            PageSize::Size2MiB => {
                                MappedPageTable::<P>::lemma_translate_after_map_2mib(
                                    *old(mapper),
                                    *mapper,
                                    page,
                                    my_frame,
                                    my_flags,
                                    Ok(flush),
                                );
                                lemma_flags_union(my_flags, crate::addr::HUGE_PAGE);
                                lemma_contain_trans(
                                    my_flags | crate::addr::HUGE_PAGE,
                                    my_flags,
                                    PRESENT,
                                );
                            },
                        }
                    }
                    flush.flush();
                    Ok(page)
                },
                Err(_) => Err(IdMapError::FrameAllocationFailed),
            }
        },
        TranslateResult::InvalidFrameAddress(_) => {
            // The mapper's read-only projection never reports a misaligned
            // terminal address in this two-level layout; kept to mirror the
            // defensive shape of the policy.
            proof {
                assert(false);
            }
            Err(IdMapError::FrameAllocationFailed)
        },
        TranslateResult::Mapped { frame, offset: _, flags } => {
            match frame.size {
                PageSize::Size4KiB => {
                    let my4 = PhysFrame::containing_address(addr, PageSize::Size4KiB);
                    if my4.start_address() != frame.start_address() {
                        return Err(
                            IdMapError::MappingIsNotIdentity(
                                my4.start_address(),
                                frame.start_address(),
                            ),
                        );
                    }
                    if !flags_contains(flags, my_flags) {
                        return Err(IdMapError::AlreadyMappedDiffFlags(flags));
                    }
                    proof {
                        lemma_contain_trans(flags, my_flags, PRESENT);
                    }
                    Ok(page)
                },
                PageSize::Size2MiB => {
                    if !flags_contains(flags, my_flags) {
                        return Err(IdMapError::AlreadyMappedDiffFlags(flags));
                    }
                    let my2 = PhysFrame::containing_address(addr, PageSize::Size2MiB);
                    if my2.start_address() != frame.start_address() {
                        return Err(
                            IdMapError::MappingIsNotIdentity(
                                my2.start_address(),
                                frame.start_address(),
                            ),
                        );
                    }
                    proof {
                        lemma_contain_trans(flags, my_flags, PRESENT);
                    }
                    Ok(page)
                },
            }
        },
    }
}

/// Identity maps `my_frame` with caching disabled: the never-cache flag is
/// always added to the requested ones.
pub fn id_map_nocache<P: PageTableFrameMapping>(
    mapper: &mut MappedPageTable<P>,
    frame_allocator: &mut BootInfoFrameAllocator,
    my_frame: PhysFrame,
    add_flags: Option<u64>,
) -> (r: Result<Page, IdMapError>)
    requires
        old(mapper).wf(),
        my_frame.wf(),
        (add_flags matches Some(f) ==> f & FLAGS_MASK == f),
        old(frame_allocator).wf(),
        old(frame_allocator).next + 1024 <= usize::MAX,
        alloc_fresh(*old(frame_allocator), old(mapper).tables()),
    ensures
        final(mapper).wf(),
        final(frame_allocator).wf(),
        final(frame_allocator).memory_map == old(frame_allocator).memory_map,
        alloc_fresh(*final(frame_allocator), final(mapper).tables()),
        r == id_map_spec(
            *old(mapper),
            *old(frame_allocator),
            my_frame,
            Some(nocache_flags(add_flags)),
        ),
        old(mapper).spec_translate(my_frame.start) matches TranslateResult::Mapped { .. } ==> (
        *final(mapper) == *old(mapper) && *final(frame_allocator) == *old(frame_allocator)),
        r is Err ==> (final(mapper).l2() == old(mapper).l2() && final(mapper).tables() == old(
            mapper,
        ).tables()),
        r is Ok ==> identity_mapped_at(*final(mapper), my_frame.start) && flags_contain(
            (final(mapper).spec_translate(my_frame.start))->Mapped_flags,
            requested_flags(Some(nocache_flags(add_flags))),
        ),
        final(frame_allocator).next <= old(frame_allocator).next + 1,
        (old(mapper).spec_translate(my_frame.start) is NotMapped && r is Ok) ==> created_mapping(
            *final(mapper),
            my_frame,
            Some(nocache_flags(add_flags)),
        ),
        (old(mapper).spec_translate(my_frame.start) is NotMapped && r is Ok) ==> (forall|va: u64|
            (crate::addr::p2_index_of(va) != crate::addr::p2_index_of(my_frame.start) || (
            my_frame.size == PageSize::Size4KiB && crate::addr::p1_index_of(va)
                != crate::addr::p1_index_of(my_frame.start))) ==> #[trigger] final(mapper).spec_translate(va) == old(mapper).spec_translate(va)),
{
    proof {
        lemma_flag_const_words();
        assert(0u64 & 0xFFF0_0000_0000_0FFFu64 == 0u64) by (bit_vector);
        match add_flags {
            Some(f) => {
                lemma_flags_union(NO_CACHE, f);
            },
            None => {
                lemma_flags_union(NO_CACHE, 0);
            },
        }
    }
    let my_flags = NO_CACHE | (match add_flags {
        Some(f) => f,
        None => 0,
    });
    id_map(mapper, frame_allocator, my_frame, Some(my_flags))
}

/// Identity maps `my_frame` with caching disabled, and when the address
/// is already identity mapped with flags lacking some requested ones, the
/// one anticipated conflict, upgrades the existing mapping's flags in
/// place instead of failing.
pub fn id_map_nocache_update_flags<P: PageTableFrameMapping>(
    mapper: &mut MappedPageTable<P>,
    frame_allocator: &mut BootInfoFrameAllocator,
    my_frame: PhysFrame,
    add_flags: Option<u64>,
) -> (r: Result<Page, IdMapError>)
    requires
        old(mapper).wf(),
        my_frame.wf(),
        (add_flags matches Some(f) ==> f & FLAGS_MASK == f),
        old(frame_allocator).wf(),
        old(frame_allocator).next + 1024 <= usize::MAX,
        alloc_fresh(*old(frame_allocator), old(mapper).tables()),
        ({
            // The flag upgrade walks the hierarchy at the request's own
            // size; an address covered by a huge mapping with lacking
            // flags cannot be upgraded through a terminal-size request.
            let tr = old(mapper).spec_translate(my_frame.start);
            !(my_frame.size == PageSize::Size4KiB && (tr
                matches TranslateResult::Mapped { frame, offset, flags } && frame.size
                == PageSize::Size2MiB && !flags_contain(
                flags,
                PRESENT | nocache_flags(add_flags),
            )))
        }),
    ensures
        final(mapper).wf(),
        final(frame_allocator).wf(),
        final(frame_allocator).memory_map == old(frame_allocator).memory_map,
        alloc_fresh(*final(frame_allocator), final(mapper).tables()),
        final(frame_allocator).next <= old(frame_allocator).next + 1,
        ({
            let s = id_map_spec(
                *old(mapper),
                *old(frame_allocator),
                my_frame,
                Some(nocache_flags(add_flags)),
            );
            let page = Page { start: my_frame.start, size: my_frame.size };
            let upd = PRESENT | nocache_flags(add_flags);
            if s matches Err(IdMapError::AlreadyMappedDiffFlags(_)) {
                &&& r == Ok::<Page, IdMapError>(page)
                &&& MappedPageTable::<P>::update_flags_post(
                    *old(mapper),
                    *final(mapper),
                    page,
                    upd,
                    Ok(MapperFlush { page }),
                )
                &&& *final(frame_allocator) == *old(frame_allocator)
            } else {
                &&& r == s
                &&& (r is Err ==> (final(mapper).l2() == old(mapper).l2()
                    && final(mapper).tables() == old(mapper).tables()))
                &&& (r is Ok ==> identity_mapped_at(*final(mapper), my_frame.start))
            }
        }),
{
    proof {
        lemma_flag_const_words();
        lemma_zero_entry();
        assert(0u64 & 0xFFF0_0000_0000_0FFFu64 == 0u64) by (bit_vector);
        match add_flags {
            Some(f) => {
                lemma_flags_union(NO_CACHE, f);
            },
            None => {
                lemma_flags_union(NO_CACHE, 0);
            },
        }
        lemma_flags_union(PRESENT, nocache_flags(add_flags));
    }
    match id_map_nocache(mapper, frame_allocator, my_frame, add_flags) {
        Ok(i) => Ok(i),
        Err(IdMapError::AlreadyMappedDiffFlags(_)) => {
            let addr = my_frame.start_address();
            let page = match Page::from_start_address(addr, my_frame.size) {
                Ok(p) => p,
                Err(_) => {
                    // Unreachable: the frame's own address is aligned to
                    // its size.
                    proof {
                        assert(false);
                    }
                    return Err(IdMapError::FrameAllocationFailed);
                },
            };
            let my_flags = PRESENT | (NO_CACHE | (match add_flags {
                Some(f) => f,
                None => 0,
            }));
            match mapper.update_flags(page, my_flags) {
                Ok(flush) => {
                    flush.flush();
                    Ok(page)
                },
                Err(_) => {
                    // The conflict arm implies a live mapping of the
                    // request's own size, so the upgrade cannot miss.
                    proof {
                        assert(false);
                    }
                    Err(IdMapError::FrameAllocationFailed)
                },
            }
        },
        Err(err) => Err(err),
    }
}

/// Identity maps every frame that the byte range `[addr, addr + size]`
/// touches at the terminal page size — the containing frame of the first
/// byte, and of the byte one past the range when that falls into the next
/// frame.  This is how a reader makes a small physical object reachable
/// before accessing it.
#[verifier::rlimit(100)]
pub fn id_map_range<P: PageTableFrameMapping>(
    mapper: &mut MappedPageTable<P>,
    frame_allocator: &mut BootInfoFrameAllocator,
    addr: u64,
    size: u64,
) -> (r: Result<(), IdMapError>)
    requires
        old(mapper).wf(),
        addr + size < MAX_PHYS_ADDR,
        size <= SIZE_4KIB,
        old(frame_allocator).wf(),
        old(frame_allocator).next + 2048 <= usize::MAX,
        alloc_fresh(*old(frame_allocator), old(mapper).tables()),
    ensures
        final(mapper).wf(),
        final(frame_allocator).wf(),
        final(frame_allocator).memory_map == old(frame_allocator).memory_map,
        alloc_fresh(*final(frame_allocator), final(mapper).tables()),
        r is Ok ==> identity_mapped_at(*final(mapper), (addr - (addr % SIZE_4KIB)) as u64)
            && identity_mapped_at(
            *final(mapper),
            (((addr + size) as int) - (((addr + size) as int) % (SIZE_4KIB as int))) as u64,
        ),
        r is Ok ==> (forall|va: u64|
            ({
                let b1 = (addr - (addr % SIZE_4KIB)) as u64;
                let b2 = (((addr + size) as int) - (((addr + size) as int) % (
                SIZE_4KIB as int))) as u64;
                &&& (crate::addr::p2_index_of(va) != crate::addr::p2_index_of(b1)
                    || crate::addr::p1_index_of(va) != crate::addr::p1_index_of(b1))
                &&& (crate::addr::p2_index_of(va) != crate::addr::p2_index_of(b2)
                    || crate::addr::p1_index_of(va) != crate::addr::p1_index_of(b2))
            }) ==> #[trigger] final(mapper).spec_translate(va) == old(mapper).spec_translate(va)),
{
    let frame = PhysFrame::containing_address(addr, PageSize::Size4KiB);
    let frame2 = PhysFrame::containing_address(addr + size, PageSize::Size4KiB);
    match id_map(mapper, frame_allocator, frame, None) {
        Ok(_) => (),
        Err(err) => {
            return Err(err);
        },
    }
    if frame.start_address() != frame2.start_address() {
        let ghost mid = *mapper;
        match id_map(mapper, frame_allocator, frame2, None) {
            Ok(_) => (),
            Err(err) => {
                return Err(err);
            },
        }
        proof {
            assert forall|va: u64|
                ((crate::addr::p2_index_of(va) != crate::addr::p2_index_of(frame.start)
                    || crate::addr::p1_index_of(va) != crate::addr::p1_index_of(frame.start)) && (
                crate::addr::p2_index_of(va) != crate::addr::p2_index_of(frame2.start)
                    || crate::addr::p1_index_of(va) != crate::addr::p1_index_of(
                    frame2.start,
                ))) implies #[trigger] mapper.spec_translate(va) == old(mapper).spec_translate(
                va,
            ) by {
                assert(mapper.spec_translate(va) == mid.spec_translate(va));
                assert(mid.spec_translate(va) == old(mapper).spec_translate(va));
            }
        }
        proof {
            let b1 = frame.start as int;
            let b2 = frame2.start as int;
            let q1 = b1 / 4096;
            let q2 = b2 / 4096;
            assert(b2 == b1 + 4096) by {
                vstd::arithmetic::div_mod::lemma_fundamental_div_mod(addr as int, 4096);
                vstd::arithmetic::div_mod::lemma_fundamental_div_mod(addr as int + size, 4096);
                assert(b1 % 4096 == 0 && b2 % 4096 == 0) by {
                    vstd::arithmetic::div_mod::lemma_mod_multiples_vanish(addr as int / 4096, 0, 4096);
                    vstd::arithmetic::div_mod::lemma_mod_multiples_vanish(
                        (addr as int + size) / 4096,
                        0,
                        4096,
                    );
                    assert(4096 * (addr as int / 4096) == (addr as int / 4096) * 4096)
                        by (nonlinear_arith);
                    assert(4096 * ((addr as int + size) / 4096) == ((addr as int + size) / 4096)
                        * 4096) by (nonlinear_arith);
                }
                assert(b1 <= b2 <= b1 + (addr % 4096) + size);
                assert((b2 - b1) % 4096 == 0) by {
                    vstd::arithmetic::div_mod::lemma_fundamental_div_mod(b1, 4096);
                    vstd::arithmetic::div_mod::lemma_fundamental_div_mod(b2, 4096);
                    assert(b2 - b1 == (b2 / 4096 - b1 / 4096) * 4096 + 0) by (nonlinear_arith)
                        requires
                            b1 == 4096 * (b1 / 4096),
                            b2 == 4096 * (b2 / 4096),
                    ;
                    vstd::arithmetic::div_mod::lemma_fundamental_div_mod_converse(
                        b2 - b1,
                        4096,
                        b2 / 4096 - b1 / 4096,
                        0,
                    );
                }
                assert(0 < b2 - b1 < 2 * 4096);
                assert(b2 - b1 == 4096) by {
                    vstd::arithmetic::div_mod::lemma_fundamental_div_mod_converse(
                        b2 - b1,
                        4096,
                        1,
                        b2 - b1 - 4096,
                    );
                }
            }
            assert(crate::addr::p1_index_of(frame.start) != crate::addr::p1_index_of(frame2.start))
                by {
                vstd::arithmetic::div_mod::lemma_fundamental_div_mod(q1, 512);
                let k = q1 / 512;
                let j1 = q1 % 512;
                assert(b2 == 4096 * (q1 + 1)) by {
                    vstd::arithmetic::div_mod::lemma_fundamental_div_mod(b1, 4096);
                    assert(4096 * (q1 + 1) == 4096 * q1 + 4096) by (nonlinear_arith);
                }
                assert(q2 == q1 + 1) by {
                    vstd::arithmetic::div_mod::lemma_fundamental_div_mod_converse(
                        b2,
                        4096,
                        q1 + 1,
                        0,
                    );
                }
                if j1 < 511 {
                    assert(q1 + 1 == 512 * k + (j1 + 1));
                    assert((q1 + 1) % 512 == j1 + 1) by {
                        vstd::arithmetic::div_mod::lemma_fundamental_div_mod_converse(
                            q1 + 1,
                            512,
                            k,
                            j1 + 1,
                        );
                    }
                } else {
                    assert(q1 + 1 == 512 * (k + 1) + 0) by (nonlinear_arith)
                        requires
                            q1 == 512 * k + 511,
                    ;
                    assert((q1 + 1) % 512 == 0) by {
                        vstd::arithmetic::div_mod::lemma_fundamental_div_mod_converse(
                            q1 + 1,
                            512,
                            k + 1,
                            0,
                        );
                    }
                }
            }
            assert(identity_mapped_at(*mapper, frame.start)) by {
                if mid.spec_translate(frame2.start) is NotMapped {
                    assert(mapper.spec_translate(frame.start) == mid.spec_translate(frame.start));
                }
            }
        }
    } else {
        proof {
            assert forall|va: u64|
                (crate::addr::p2_index_of(va) != crate::addr::p2_index_of(frame.start)
                    || crate::addr::p1_index_of(va) != crate::addr::p1_index_of(
                    frame.start,
                )) implies #[trigger] mapper.spec_translate(va) == old(mapper).spec_translate(
                va,
            ) by {
                assert(mapper.spec_translate(va) == old(mapper).spec_translate(va));
            }
        }
    }
    Ok(())
}

/// The round-trip law of the identity-mapping policy: on an address that
/// is already identity mapped with current flags `cur`, a further request
/// succeeds exactly when `cur` contains every newly requested flag, and a
/// refusal reports `cur` itself — the actual flags, never the requested
/// ones.
pub proof fn lemma_id_map_round_trip<P: PageTableFrameMapping>(
    m: MappedPageTable<P>,
    alloc: BootInfoFrameAllocator,
    my_frame: PhysFrame,
    add_flags: Option<u64>,
    cur: u64,
)
    requires
        my_frame.wf(),
        m.spec_translate(my_frame.start) matches TranslateResult::Mapped { frame, offset, flags }
            && frame.start == my_frame.start - (my_frame.start % frame.size.spec_size()) && flags
            == cur,
    ensures
        flags_contain(cur, requested_flags(add_flags)) ==> id_map_spec(
            m,
            alloc,
            my_frame,
            add_flags,
        ) == Ok::<Page, IdMapError>(Page { start: my_frame.start, size: my_frame.size }),
        !flags_contain(cur, requested_flags(add_flags)) ==> id_map_spec(
            m,
            alloc,
            my_frame,
            add_flags,
        ) == Err::<Page, IdMapError>(IdMapError::AlreadyMappedDiffFlags(cur)),
{
}

} // verus!
