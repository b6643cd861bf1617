//! The physical-frame allocator: turns the boot memory map into a lazily
//! indexed sequence of usable, size-aligned frames and hands them out with a
//! single monotonically advancing cursor.

use vstd::prelude::*;
use vstd::arithmetic::div_mod::{
    lemma_fundamental_div_mod, lemma_mod_decreases, lemma_mod_multiples_vanish,
};
use vstd::arithmetic::mul::lemma_mul_inequality;
use crate::addr::{MAX_PHYS_ADDR, SIZE_2MIB, SIZE_4KIB};
use crate::bootinfo::{MemoryMap, MemoryRegion, MemoryRegionType};
use crate::page::{PageSize, PhysFrame};

verus! {

/// `a` rounded up to the next multiple of `s`.
pub open spec fn spec_align_up(a: int, s: int) -> int
    recommends
        s > 0,
{
    if a % s == 0 {
        a
    } else {
        a - a % s + s
    }
}

/// `a` rounded down to a multiple of `s`.
pub open spec fn spec_align_down(a: int, s: int) -> int
    recommends
        s > 0,
{
    a - a % s
}

/// The result of rounding up is aligned and within `[a, a + s)`.
pub proof fn lemma_align_up(a: int, s: int)
    requires
        0 <= a,
        0 < s,
    ensures
        spec_align_up(a, s) % s == 0,
        a <= spec_align_up(a, s) < a + s,
{
    lemma_fundamental_div_mod(a, s);
    if a % s != 0 {
        assert(spec_align_up(a, s) == s * (a / s) + s);
        assert(s * (a / s) + s == s * (a / s + 1)) by (nonlinear_arith);
        lemma_mod_multiples_vanish(a / s + 1, 0, s);
    }
}

/// The result of rounding down is aligned and within `(a - s, a]`.
pub proof fn lemma_align_down(a: int, s: int)
    requires
        0 <= a,
        0 < s,
    ensures
        spec_align_down(a, s) % s == 0,
        a - s < spec_align_down(a, s) <= a,
{
    lemma_fundamental_div_mod(a, s);
    assert(spec_align_down(a, s) == s * (a / s));
    lemma_mod_multiples_vanish(a / s, 0, s);
}

/// The frame start addresses one region contributes for frame size `s`:
/// none unless the region is usable; otherwise the region is shrunk to
/// `s`-aligned bounds and stepped through in units of `s`.
pub open spec fn region_frames(r: MemoryRegion, s: u64) -> Seq<u64>
    recommends
        s > 0,
{
    if r.region_type == MemoryRegionType::Usable {
        let lo = spec_align_up(r.range.start_addr as int, s as int);
        let hi = spec_align_down(r.range.end_addr as int, s as int);
        if lo < hi {
            Seq::new(((hi - lo) / (s as int)) as nat, |k: int| (lo + k * s) as u64)
        } else {
            Seq::empty()
        }
    } else {
        Seq::empty()
    }
}

/// All frame start addresses the map yields for frame size `s`, in map
/// order.
pub open spec fn usable_frames_seq(regions: Seq<MemoryRegion>, s: u64) -> Seq<u64>
    recommends
        s > 0,
    decreases regions.len(),
{
    if regions.len() == 0 {
        Seq::empty()
    } else {
        region_frames(regions[0], s) + usable_frames_seq(regions.drop_first(), s)
    }
}

/// Every frame a usable region contributes is `s`-aligned and lies, with
/// all of its `s` bytes, inside the region; within one region the frames
/// step up by exactly `s`.
pub proof fn lemma_region_frames_facts(r: MemoryRegion, s: u64)
    requires
        r.wf(),
        s > 0,
    ensures
        forall|k: int|
            0 <= k < region_frames(r, s).len() ==> (#[trigger] region_frames(r, s)[k]) % s == 0
                && r.range.start_addr <= region_frames(r, s)[k] && region_frames(r, s)[k] + s
                <= r.range.end_addr,
        forall|k: int, l: int|
            0 <= k < l < region_frames(r, s).len() ==> #[trigger] region_frames(r, s)[k] + s
                <= #[trigger] region_frames(r, s)[l],
{
    if r.region_type == MemoryRegionType::Usable {
        let a = r.range.start_addr as int;
        let e = r.range.end_addr as int;
        let si = s as int;
        let lo = spec_align_up(a, si);
        let hi = spec_align_down(e, si);
        lemma_align_up(a, si);
        lemma_align_down(e, si);
        if lo < hi {
            let rf = region_frames(r, s);
            let cnt = (hi - lo) / si;
            assert(cnt * si <= hi - lo) by {
                lemma_fundamental_div_mod(hi - lo, si);
                assert(si * ((hi - lo) / si) == ((hi - lo) / si) * si) by (nonlinear_arith);
            }
            assert forall|k: int| 0 <= k < rf.len() implies (#[trigger] rf[k]) % s == 0
                && r.range.start_addr <= rf[k] && rf[k] + s <= r.range.end_addr by {
                let v = lo + k * si;
                assert(0 <= k * si && k * si + si <= cnt * si) by {
                    lemma_mul_inequality(0, k, si);
                    lemma_mul_inequality(k + 1, cnt, si);
                    assert((k + 1) * si == k * si + si) by (nonlinear_arith);
                }
                assert(v % si == 0) by {
                    assert(k * si == si * k) by (nonlinear_arith);
                    lemma_mod_multiples_vanish(k, lo, si);
                }
                assert(rf[k] == v as u64);
            }
            assert forall|k: int, l: int| 0 <= k < l < rf.len() implies #[trigger] rf[k] + s
                <= #[trigger] rf[l] by {
                assert(0 <= k * si && k * si + si <= l * si && l * si + si <= cnt * si) by {
                    lemma_mul_inequality(0, k, si);
                    lemma_mul_inequality(k + 1, l, si);
                    lemma_mul_inequality(l + 1, cnt, si);
                    assert((k + 1) * si == k * si + si && (l + 1) * si == l * si + si)
                        by (nonlinear_arith);
                }
                assert(rf[k] == (lo + k * si) as u64 && rf[l] == (lo + l * si) as u64);
            }
        }
    }
}

/// Every frame the map yields is `s`-aligned, fits below the largest
/// encodable address, lies at or past the first region's start, and the
/// sequence increases strictly, by at least `s`, from one index to the
/// next.
pub proof fn lemma_frames_seq_facts(regions: Seq<MemoryRegion>, s: u64)
    requires
        s > 0,
        forall|i: int| 0 <= i < regions.len() ==> (#[trigger] regions[i]).wf(),
        forall|i: int, j: int|
            0 <= i < j < regions.len() ==> #[trigger] regions[i].range.end_addr
                <= #[trigger] regions[j].range.start_addr,
    ensures
        forall|n: int|
            0 <= n < usable_frames_seq(regions, s).len() ==> (#[trigger] usable_frames_seq(
                regions,
                s,
            )[n]) % s == 0 && usable_frames_seq(regions, s)[n] + s <= MAX_PHYS_ADDR,
        forall|n: int, m: int|
            0 <= n < m < usable_frames_seq(regions, s).len() ==> #[trigger] usable_frames_seq(
                regions,
                s,
            )[n] + s <= #[trigger] usable_frames_seq(regions, s)[m],
        forall|n: int|
            0 <= n < usable_frames_seq(regions, s).len() && regions.len() > 0
                ==> regions[0].range.start_addr <= #[trigger] usable_frames_seq(regions, s)[n],
    decreases regions.len(),
{
    if regions.len() > 0 {
        let head = regions[0];
        let rest = regions.drop_first();
        let hf = region_frames(head, s);
        let tf = usable_frames_seq(rest, s);
        let fs = usable_frames_seq(regions, s);
        assert(fs == hf + tf);
        assert(fs.len() == hf.len() + tf.len());
        lemma_region_frames_facts(head, s);
        lemma_frames_seq_facts(rest, s);
        assert forall|n: int|
            0 <= n < fs.len() implies (#[trigger] fs[n]) % s == 0 && fs[n] + s <= MAX_PHYS_ADDR
            && head.range.start_addr <= fs[n] by {
            if n < hf.len() {
                assert(fs[n] == hf[n]);
            } else {
                assert(fs[n] == tf[n - hf.len()]);
                assert(rest.len() > 0);
                assert(rest[0] == regions[1]);
                assert(head.range.end_addr <= regions[1].range.start_addr);
                assert(head.range.start_addr <= head.range.end_addr);
            }
        }
        assert forall|n: int, m: int| 0 <= n < m < fs.len() implies #[trigger] fs[n] + s
            <= #[trigger] fs[m] by {
            if m < hf.len() {
                assert(fs[n] == hf[n] && fs[m] == hf[m]);
            } else if n >= hf.len() {
                assert(fs[n] == tf[n - hf.len()] && fs[m] == tf[m - hf.len()]);
            } else {
                assert(fs[n] == hf[n] && fs[m] == tf[m - hf.len()]);
                assert(hf[n] + s <= head.range.end_addr);
                assert(rest.len() > 0);
                assert(rest[0] == regions[1]);
                assert(head.range.end_addr <= regions[1].range.start_addr);
                assert(regions[1].range.start_addr <= tf[m - hf.len()]);
            }
        }
    }
}

/// Rounds `a` up to the next multiple of `s`.
fn align_up_u64(a: u64, s: u64) -> (r: u64)
    requires
        a <= MAX_PHYS_ADDR,
        0 < s <= 0x20_0000,
    ensures
        r == spec_align_up(a as int, s as int),
{
    proof {
        lemma_mod_decreases(a as nat, s as nat);
    }
    let m = a % s;
    if m == 0 {
        a
    } else {
        a - m + s
    }
}

/// Rounds `a` down to a multiple of `s`.
fn align_down_u64(a: u64, s: u64) -> (r: u64)
    requires
        0 < s,
    ensures
        r == spec_align_down(a as int, s as int),
{
    proof {
        lemma_mod_decreases(a as nat, s as nat);
    }
    a - a % s
}

/// Two multiples of `m` within less than `m` of each other are ordered.
proof fn lemma_aligned_le(a: int, b: int, m: int)
    requires
        m > 0,
        a % m == 0,
        b % m == 0,
        a < b + m,
    ensures
        a <= b,
{
    lemma_fundamental_div_mod(a, m);
    lemma_fundamental_div_mod(b, m);
    if a > b {
        let d = a / m - b / m;
        assert(a - b == m * d) by (nonlinear_arith)
            requires
                a == m * (a / m) + 0,
                b == m * (b / m) + 0,
                d == a / m - b / m,
        ;
        assert(false) by (nonlinear_arith)
            requires
                a - b == m * d,
                0 < a - b < m,
        ;
    }
}

/// A region yields at least the full ratio of terminal-size frames for
/// every huge frame it yields: each of its huge frames contains 512 of
/// its own terminal-size frames.
proof fn lemma_region_frame_counts(r: MemoryRegion)
    requires
        r.wf(),
    ensures
        region_frames(r, SIZE_4KIB).len() >= 512 * region_frames(r, SIZE_2MIB).len(),
{
    if r.region_type == MemoryRegionType::Usable {
        let a = r.range.start_addr as int;
        let e = r.range.end_addr as int;
        let lo4 = spec_align_up(a, 4096);
        let hi4 = spec_align_down(e, 4096);
        let lo2 = spec_align_up(a, 0x20_0000);
        let hi2 = spec_align_down(e, 0x20_0000);
        lemma_align_up(a, 4096);
        lemma_align_down(e, 4096);
        lemma_align_up(a, 0x20_0000);
        lemma_align_down(e, 0x20_0000);
        if lo2 < hi2 {
            assert(lo2 % 4096 == 0 && hi2 % 4096 == 0) by {
                vstd::arithmetic::div_mod::lemma_mod_mod(lo2, 4096, 512);
                vstd::arithmetic::div_mod::lemma_mod_mod(hi2, 4096, 512);
                assert(4096 * 512 == 0x20_0000);
            }
            lemma_aligned_le(lo4, lo2, 4096);
            lemma_aligned_le(hi2, hi4, 4096);
            let c2 = (hi2 - lo2) / 0x20_0000;
            let c4 = (hi4 - lo4) / 4096;
            lemma_fundamental_div_mod(hi2 - lo2, 0x20_0000);
            assert(0x20_0000 * c2 <= hi2 - lo2);
            assert(hi4 - lo4 == 4096 * c4) by {
                lemma_fundamental_div_mod(lo4, 4096);
                lemma_fundamental_div_mod(hi4, 4096);
                assert(hi4 - lo4 == 4096 * (hi4 / 4096 - lo4 / 4096)) by (nonlinear_arith)
                    requires
                        hi4 == 4096 * (hi4 / 4096) + 0,
                        lo4 == 4096 * (lo4 / 4096) + 0,
                ;
                vstd::arithmetic::div_mod::lemma_fundamental_div_mod_converse(
                    hi4 - lo4,
                    4096,
                    hi4 / 4096 - lo4 / 4096,
                    0,
                );
            }
            assert(512 * c2 <= c4) by (nonlinear_arith)
                requires
                    0x20_0000 * c2 <= hi2 - lo2,
                    hi2 - lo2 <= hi4 - lo4,
                    hi4 - lo4 == 4096 * c4,
            ;
            assert(region_frames(r, SIZE_2MIB).len() == c2);
            assert(region_frames(r, SIZE_4KIB).len() == c4);
        }
    }
}

/// On any well-formed memory map, the huge frame at position `n` of the
/// huge-size sequence lies wholly past the first `512 * n` frames of the
/// terminal-size sequence: within each region every huge frame contains
/// 512 of the region's own terminal-size frames, so the two sequences
/// never fall behind each other in this direction.
pub proof fn lemma_huge_frame_past_page_frames(regions: Seq<MemoryRegion>, n2: int)
    requires
        forall|i: int| 0 <= i < regions.len() ==> (#[trigger] regions[i]).wf(),
        forall|i: int, j: int|
            0 <= i < j < regions.len() ==> #[trigger] regions[i].range.end_addr
                <= #[trigger] regions[j].range.start_addr,
        0 <= n2 < usable_frames_seq(regions, SIZE_2MIB).len(),
    ensures
        forall|k: int|
            0 <= k < 512 * n2 && k < usable_frames_seq(regions, SIZE_4KIB).len()
                ==> #[trigger] usable_frames_seq(regions, SIZE_4KIB)[k] + SIZE_4KIB
                <= usable_frames_seq(regions, SIZE_2MIB)[n2],
    decreases regions.len(),
{
    let f4 = usable_frames_seq(regions, SIZE_4KIB);
    let f2 = usable_frames_seq(regions, SIZE_2MIB);
    let head = regions[0];
    let rest = regions.drop_first();
    let h4 = region_frames(head, SIZE_4KIB);
    let h2 = region_frames(head, SIZE_2MIB);
    let t4 = usable_frames_seq(rest, SIZE_4KIB);
    let t2 = usable_frames_seq(rest, SIZE_2MIB);
    assert(f4 == h4 + t4 && f2 == h2 + t2);
    lemma_region_frames_facts(head, SIZE_4KIB);
    lemma_region_frame_counts(head);
    if n2 < h2.len() {
        let a = head.range.start_addr as int;
        let e = head.range.end_addr as int;
        let lo4 = spec_align_up(a, 4096);
        let lo2 = spec_align_up(a, 0x20_0000);
        let hi2 = spec_align_down(e, 0x20_0000);
        lemma_align_up(a, 4096);
        lemma_align_up(a, 0x20_0000);
        lemma_align_down(e, 0x20_0000);
        assert(lo2 % 4096 == 0) by {
            vstd::arithmetic::div_mod::lemma_mod_mod(lo2, 4096, 512);
            assert(4096 * 512 == 0x20_0000);
        }
        lemma_aligned_le(lo4, lo2, 4096);
        let s = h2[n2];
        assert(s == (lo2 + n2 * 0x20_0000) as u64);
        assert(lo2 + n2 * 0x20_0000 + 0x20_0000 <= hi2) by {
            lemma_fundamental_div_mod(hi2 - lo2, 0x20_0000);
            lemma_mul_inequality(n2 + 1, (hi2 - lo2) / 0x20_0000, 0x20_0000);
            assert(((hi2 - lo2) / 0x20_0000) * 0x20_0000 <= hi2 - lo2) by (nonlinear_arith)
                requires
                    hi2 - lo2 == 0x20_0000 * ((hi2 - lo2) / 0x20_0000) + (hi2 - lo2) % 0x20_0000,
                    (hi2 - lo2) % 0x20_0000 >= 0,
            ;
            assert((n2 + 1) * 0x20_0000 == n2 * 0x20_0000 + 0x20_0000) by (nonlinear_arith);
        }
        assert forall|k: int| 0 <= k < 512 * n2 && k < f4.len() implies #[trigger] f4[k]
            + SIZE_4KIB <= f2[n2] by {
            assert(512 * n2 < 512 * h2.len());
            assert(k < h4.len());
            assert(f4[k] == h4[k]);
            assert(h4[k] == (lo4 + k * 4096) as u64);
            assert(k * 4096 + 4096 <= n2 * 0x20_0000) by (nonlinear_arith)
                requires
                    0 <= k,
                    k < 512 * n2,
            ;
            assert(0 <= k * 4096) by (nonlinear_arith)
                requires
                    0 <= k,
            ;
        }
    } else {
        let n2p = n2 - h2.len();
        lemma_huge_frame_past_page_frames(rest, n2p);
        lemma_frames_seq_facts(rest, SIZE_2MIB);
        assert(f2[n2] == t2[n2p]);
        assert(rest.len() > 0);
        assert(rest[0] == regions[1]);
        assert forall|k: int| 0 <= k < 512 * n2 && k < f4.len() implies #[trigger] f4[k]
            + SIZE_4KIB <= f2[n2] by {
            if k < h4.len() {
                assert(f4[k] == h4[k]);
                assert(h4[k] + SIZE_4KIB <= head.range.end_addr);
                assert(head.range.end_addr <= regions[1].range.start_addr);
                assert(regions[1].range.start_addr <= t2[n2p]);
            } else {
                let kp = k - h4.len();
                assert(512 * h2.len() <= h4.len());
                assert(kp < 512 * n2p) by (nonlinear_arith)
                    requires
                        kp == k - h4.len(),
                        k < 512 * n2,
                        n2p == n2 - h2.len(),
                        512 * h2.len() <= h4.len(),
                ;
                assert(f4[k] == t4[kp]);
                assert(t4[kp] + SIZE_4KIB <= t2[n2p]);
            }
        }
    }
}

/// The no-reuse half of the shared-cursor discipline that holds on every
/// well-formed map: the huge frame a request at the current cursor
/// position returns lies wholly past each terminal-size frame position
/// the cursor has already passed, so a huge request never re-covers
/// memory handed out before it.
pub proof fn lemma_huge_alloc_skips_passed_frames(alloc: BootInfoFrameAllocator, k: int)
    requires
        alloc.wf(),
        alloc.cursor_index(PageSize::Size2MiB) < alloc.frames(PageSize::Size2MiB).len(),
        0 <= k < alloc.next,
        k < alloc.frames(PageSize::Size4KiB).len(),
    ensures
        alloc.frames(PageSize::Size4KiB)[k] + SIZE_4KIB <= alloc.frames(PageSize::Size2MiB)[
            alloc.cursor_index(PageSize::Size2MiB)],
{
    let idx = alloc.cursor_index(PageSize::Size2MiB);
    assert(512 * idx >= alloc.next) by {
        lemma_fundamental_div_mod(alloc.next as int + 511, 512);
        assert(0 <= (alloc.next as int + 511) % 512 < 512);
    }
    lemma_huge_frame_past_page_frames(alloc.memory_map@, idx);
}

/// Over a map holding one usable region that starts at address zero, the
/// frame sequences are the plain multiples of the frame size: position `k`
/// of the terminal-size sequence starts at `k` pages, position `n` of the
/// huge-size sequence at `n` huge pages.
pub proof fn lemma_zero_based_frames(regions: Seq<MemoryRegion>, s: u64)
    requires
        regions.len() == 1,
        regions[0].region_type == MemoryRegionType::Usable,
        regions[0].range.start_addr == 0,
        regions[0].wf(),
        0 < s <= 0x20_0000,
    ensures
        forall|k: int|
            0 <= k < usable_frames_seq(regions, s).len() ==> #[trigger] usable_frames_seq(
                regions,
                s,
            )[k] == k * s,
{
    let e = regions[0].range.end_addr as int;
    let si = s as int;
    lemma_align_up(0, si);
    lemma_align_down(e, si);
    let hi = spec_align_down(e, si);
    assert(regions.drop_first().len() == 0);
    assert(usable_frames_seq(regions.drop_first(), s) =~= Seq::<u64>::empty());
    if 0 < hi {
        assert forall|k: int|
            0 <= k < usable_frames_seq(regions, s).len() implies #[trigger] usable_frames_seq(
            regions,
            s,
        )[k] == k * s by {
            lemma_region_frames_facts(regions[0], s);
            assert(region_frames(regions[0], s)[k] == (0 + k * si) as u64);
            assert(0 <= k * si && k * si + si <= hi) by {
                lemma_mul_inequality(0, k, si);
                lemma_mul_inequality(k + 1, (hi - 0) / si, si);
                assert((k + 1) * si == k * si + si) by (nonlinear_arith);
                assert(((hi - 0) / si) * si <= hi) by {
                    lemma_fundamental_div_mod(hi, si);
                    assert(si * (hi / si) == (hi / si) * si) by (nonlinear_arith);
                }
            }
        }
    }
}

/// The no-reuse discipline of the shared cursor, over a map holding one
/// usable region that starts at address zero: whatever the request size,
/// the frame a successful allocation hands out spans exactly the byte
/// range the cursor steps over during the call, measured in terminal-size
/// steps.  Frames of any sequence of allocations are therefore pairwise
/// disjoint and strictly increasing: each call's span begins at or after
/// the previous call's span ended.
///
/// The zero-based region keeps the two frame sequences exactly in step;
/// the same holds of any region whose page-aligned start is huge-aligned.
/// On a map with a usable region that is page- but not huge-aligned the
/// correspondence is one-sided: a huge request still never re-covers
/// memory handed out before it, on any map whatsoever
/// (`lemma_huge_frame_past_page_frames`), but the fixed size-ratio step
/// the cursor advances by can under-count such a region's offset, so a
/// terminal-size request issued after a huge one may there fall inside
/// the huge frame.
pub proof fn lemma_alloc_no_reuse(
    pre: BootInfoFrameAllocator,
    post: BootInfoFrameAllocator,
    size: PageSize,
    f: PhysFrame,
)
    requires
        pre.memory_map@.len() == 1,
        pre.memory_map@[0].region_type == MemoryRegionType::Usable,
        pre.memory_map@[0].range.start_addr == 0,
        pre.memory_map@[0].wf(),
        // what `allocate_frame` ensures of a successful call
        pre.cursor_index(size) < pre.frames(size).len(),
        f == (PhysFrame { start: pre.frames(size)[pre.cursor_index(size)], size }),
        post.next == (match size {
            PageSize::Size4KiB => pre.next + 1int,
            PageSize::Size2MiB => (pre.cursor_index(PageSize::Size2MiB) + 1) * 512,
        }),
    ensures
        (pre.next as int) * SIZE_4KIB <= f.start,
        f.start + f.size.spec_size() <= (post.next as int) * SIZE_4KIB,
{
    lemma_zero_based_frames(pre.memory_map@, size.spec_size());
    let idx = pre.cursor_index(size);
    match size {
        PageSize::Size4KiB => {
            assert(f.start == idx * SIZE_4KIB);
        },
        PageSize::Size2MiB => {
            assert(f.start == idx * SIZE_2MIB);
            lemma_fundamental_div_mod(pre.next as int + 511, 512);
            assert(512 * idx >= pre.next as int) by {
                assert(0 <= (pre.next as int + 511) % 512 < 512);
            }
            assert(idx * (SIZE_2MIB as int) == (512 * idx) * (SIZE_4KIB as int) && (idx + 1) * (
            SIZE_2MIB as int) == ((idx + 1) * 512) * (SIZE_4KIB as int) && (pre.next as int) * (
            SIZE_4KIB as int) <= (512 * idx) * (SIZE_4KIB as int)) by (nonlinear_arith)
                requires
                    512 * idx >= pre.next as int,
            ;
        },
    }
}

/// A frame allocator fed by the boot memory map.  It owns a single cursor
/// into the per-size frame sequences and never reuses or frees a frame.
#[derive(Debug)]
pub struct BootInfoFrameAllocator {
    /// The boot-supplied map of physical memory.
    pub memory_map: MemoryMap,
    /// Cursor into the frame sequences, counted in 4 KiB steps.
    pub next: usize,
}

impl BootInfoFrameAllocator {
    /// The held memory map is well formed.
    pub open spec fn wf(self) -> bool {
        self.memory_map.wf()
    }

    /// The sequence of frames this allocator draws from for size `size`.
    pub open spec fn frames(self, size: PageSize) -> Seq<u64> {
        usable_frames_seq(self.memory_map@, size.spec_size())
    }

    /// An allocator over the given map, with the cursor at the start.
    pub fn new(memory_map: MemoryMap) -> (r: BootInfoFrameAllocator)
        ensures
            r.memory_map == memory_map,
            r.next == 0,
    {
        BootInfoFrameAllocator { memory_map, next: 0 }
    }

    /// The `index`-th usable frame of size `size`, counted over the whole
    /// map, or `None` when fewer frames than that exist.
    #[verifier::rlimit(60)]
    pub fn usable_frames(&self, size: PageSize, index: usize) -> (r: Option<PhysFrame>)
        requires
            self.wf(),
        ensures
            r is Some <==> (index as int) < self.frames(size).len(),
            r matches Some(f) ==> f == (PhysFrame {
                start: self.frames(size)[index as int],
                size,
            }) && f.wf(),
    {
        let ghost all = self.frames(size);
        let s = size.size();
        let n = self.memory_map.len();
        let mut i: usize = 0;
        let mut remaining: u64 = index as u64;
        proof {
            assert(self.memory_map@.skip(0) =~= self.memory_map@);
        }
        while i < n
            invariant
                self.wf(),
                i <= n,
                n == self.memory_map@.len(),
                s == size.spec_size(),
                0 < s <= 0x20_0000,
                all == usable_frames_seq(self.memory_map@, s),
                remaining <= index,
                index - remaining == all.len() - usable_frames_seq(
                    self.memory_map@.skip(i as int),
                    s,
                ).len(),
                all =~= all.take(all.len() - usable_frames_seq(
                    self.memory_map@.skip(i as int),
                    s,
                ).len()) + usable_frames_seq(self.memory_map@.skip(i as int), s),
            decreases n - i,
        {
            let ghost suffix = usable_frames_seq(self.memory_map@.skip(i as int), s);
            let region = self.memory_map.region_at(i);
            proof {
                assert(region.wf());
                assert(self.memory_map@.skip(i as int)[0] == region);
                assert(self.memory_map@.skip(i as int).drop_first() =~= self.memory_map@.skip(
                    i as int + 1,
                ));
                lemma_region_frames_facts(region, s);
            }
            let ghost rf = region_frames(region, s);
            let ghost rest = usable_frames_seq(self.memory_map@.skip(i as int + 1), s);
            proof {
                assert(suffix == rf + rest);
            }
            if matches!(region.region_type, MemoryRegionType::Usable) {
                let lo = align_up_u64(region.range.start_addr, s);
                let hi = align_down_u64(region.range.end_addr, s);
                if lo < hi {
                    let cnt: u64 = (hi - lo) / s;
                    proof {
                        assert(cnt == rf.len());
                    }
                    if remaining < cnt {
                        proof {
                            assert(rf[remaining as int] % s == 0 && rf[remaining as int] + s
                                <= region.range.end_addr);
                            assert(rf[remaining as int] == (lo + (remaining as int) * (s as int))
                                as u64);
                            assert((remaining as int) * (s as int) + s <= (cnt as int) * (s as int))
                                by (nonlinear_arith)
                                requires
                                    (remaining as int) < (cnt as int),
                                    s > 0,
                            ;
                            assert((cnt as int) * (s as int) <= hi - lo) by {
                                lemma_fundamental_div_mod(hi as int - lo as int, s as int);
                                assert((s as int) * ((hi - lo) as int / (s as int)) == ((hi - lo)
                                    as int / (s as int)) * (s as int)) by (nonlinear_arith);
                            }
                            assert(all[index as int] == suffix[remaining as int]);
                            assert(suffix[remaining as int] == rf[remaining as int]);
                        }
                        let addr = lo + remaining * s;
                        return Some(PhysFrame { start: addr, size });
                    } else {
                        remaining = remaining - cnt;
                    }
                }
            }
            i = i + 1;
            proof {
                let post = usable_frames_seq(self.memory_map@.skip(i as int), s);
                assert(all =~= all.take(all.len() - post.len()) + post);
            }
        }
        proof {
            assert(self.memory_map@.skip(n as int) =~= Seq::<MemoryRegion>::empty());
        }
        None
    }

    /// The position in the per-size frame sequence that the shared cursor
    /// stands for: the cursor counts terminal-size steps, and a huge
    /// request takes the first huge frame the cursor has not yet entered,
    /// so that memory already handed out at the terminal size is never
    /// handed out again inside a huge frame.
    pub open spec fn cursor_index(self, size: PageSize) -> int {
        match size {
            PageSize::Size4KiB => self.next as int,
            PageSize::Size2MiB => ((self.next as int) + 511) / 512,
        }
    }

    /// Hands out the next not-yet-used frame of the requested size, or
    /// `None` on exhaustion.  The shared cursor advances by one 4 KiB step
    /// for a 4 KiB frame; a huge frame is taken at the first huge position
    /// the cursor has not yet entered, and the cursor moves past it.  The
    /// n-th request for one size thus yields the n-th frame of that size,
    /// and the cursor strictly increases on every call, successful or not.
    /// How far the single cursor keeps frames of different sizes apart is
    /// stated by `lemma_huge_frame_past_page_frames` for every map and by
    /// `lemma_alloc_no_reuse` for maps that keep the two sequences in
    /// step.
    pub fn allocate_frame(&mut self, size: PageSize) -> (r: Option<PhysFrame>)
        requires
            old(self).wf(),
            old(self).next + 1024 <= usize::MAX,
        ensures
            final(self).wf(),
            final(self).memory_map == old(self).memory_map,
            final(self).next == (match size {
                PageSize::Size4KiB => old(self).next + 1int,
                PageSize::Size2MiB => (old(self).cursor_index(PageSize::Size2MiB) + 1) * 512,
            }),
            final(self).next > old(self).next,
            r is Some <==> old(self).cursor_index(size) < old(self).frames(size).len(),
            r matches Some(f) ==> f == (PhysFrame {
                start: old(self).frames(size)[old(self).cursor_index(size)],
                size,
            }) && f.wf(),
    {
        let frame = match size {
            PageSize::Size4KiB => {
                let frame = self.usable_frames(size, self.next);
                self.next = self.next + 1;
                frame
            },
            PageSize::Size2MiB => {
                let index = (self.next + 511) / 512;
                proof {
                    lemma_fundamental_div_mod(self.next as int + 511, 512);
                    assert(512 * ((self.next as int + 511) / 512) == ((self.next as int + 511)
                        / 512) * 512) by (nonlinear_arith);
                    assert((index as int) * 512 <= self.next + 511);
                    assert((index as int) * 512 >= self.next - 511) by {
                        assert(0 <= (self.next as int + 511) % 512 < 512);
                    }
                }
                let frame = self.usable_frames(size, index);
                self.next = (index + 1) * 512;
                frame
            },
        };
        frame
    }
}

} // verus!
