//! Reconciling overlapping region reports into one memory map.
//!
//! Several sources describe physical memory, each in its own kind, and their
//! reports may overlap. The memory map gives every byte to the strongest kind
//! that claims it, in ascending, disjoint regions that are as long as they
//! can be.

use crate::memory_region::{MemoryRegion, MemoryRegionType};
use vstd::prelude::*;
use vstd::seq_lib::{to_multiset_build, to_multiset_remove};

verus! {

/// The strength of the claim that `region` lays on the byte at `addr`: the
/// rank of its kind where it contains the byte, and -1 where it does not.
pub open spec fn claim(region: MemoryRegion, addr: int) -> int {
    if region.spec_contains(addr) {
        region.spec_typ().rank()
    } else {
        -1
    }
}

/// The strongest claim that any of `regions` lays on the byte at `addr`, and
/// -1 where none of them contains it.
pub open spec fn strongest_claim(regions: Seq<MemoryRegion>, addr: int) -> int
    decreases regions.len(),
{
    if regions.len() == 0 {
        -1
    } else {
        vstd::math::max(strongest_claim(regions.drop_last(), addr), claim(regions.last(), addr))
    }
}

/// The kind that `regions` give the byte at `addr`: that of the strongest
/// claim on it, and none where no region contains it.
pub open spec fn kind_at(regions: Seq<MemoryRegion>, addr: int) -> Option<MemoryRegionType> {
    let rank = strongest_claim(regions, addr);
    if rank == 0 {
        Some(MemoryRegionType::Usable)
    } else if rank == 1 {
        Some(MemoryRegionType::Reserved)
    } else if rank == 2 {
        Some(MemoryRegionType::Kernel)
    } else if rank == 3 {
        Some(MemoryRegionType::Module)
    } else if rank == 4 {
        Some(MemoryRegionType::Framebuffer)
    } else {
        None
    }
}

/// Every region holds at least one byte and ends within the address space.
pub open spec fn all_wf(regions: Seq<MemoryRegion>) -> bool {
    forall|i: int| 0 <= i < regions.len() ==> (#[trigger] regions[i]).wf()
}

/// The regions come in ascending order and no two of them share a byte: each
/// ends at or before the base of every later one.
pub open spec fn ascending(regions: Seq<MemoryRegion>) -> bool {
    forall|i: int, j: int|
        0 <= i < j < regions.len() ==> (#[trigger] regions[i]).spec_end() <= (
        #[trigger] regions[j]).spec_base()
}

/// No region could be joined with its successor: two neighbours that touch
/// differ in kind.
pub open spec fn coalesced(regions: Seq<MemoryRegion>) -> bool {
    forall|i: int, j: int|
        0 <= i && j == i + 1 && j < regions.len() ==> !((#[trigger] regions[i]).spec_end() == (
        #[trigger] regions[j]).spec_base() && regions[i].spec_typ() == regions[j].spec_typ())
}

/// A memory map: regions in ascending order that share no byte and are as
/// long as they can be.
pub open spec fn is_memory_map(regions: Seq<MemoryRegion>) -> bool {
    all_wf(regions) && ascending(regions) && coalesced(regions)
}

/// `map` is the memory map of `reports`: a memory map in which every byte has
/// the strongest claim that the reports lay on it, and no other byte has one.
pub open spec fn reconciles(map: Seq<MemoryRegion>, reports: Seq<MemoryRegion>) -> bool {
    &&& is_memory_map(map)
    &&& forall|addr: int| #[trigger] strongest_claim(map, addr) == strongest_claim(reports, addr)
}

/// One more region adds its own claim to those of the regions before it.
pub proof fn lemma_claim_push(regions: Seq<MemoryRegion>, region: MemoryRegion, addr: int)
    ensures
        strongest_claim(regions.push(region), addr) == vstd::math::max(
            strongest_claim(regions, addr),
            claim(region, addr),
        ),
{
    assert(regions.push(region).drop_last() =~= regions);
}

/// The strongest claim on a byte is at least as strong as the claim of each
/// region, and it is the claim of one of them unless no region contains the
/// byte.
pub proof fn lemma_strongest_claim(regions: Seq<MemoryRegion>, addr: int)
    ensures
        forall|i: int|
            0 <= i < regions.len() ==> claim(#[trigger] regions[i], addr) <= strongest_claim(
                regions,
                addr,
            ),
        strongest_claim(regions, addr) == -1 || exists|i: int|
            0 <= i < regions.len() && claim(#[trigger] regions[i], addr) == strongest_claim(
                regions,
                addr,
            ),
        -1 <= strongest_claim(regions, addr) <= 4,
    decreases regions.len(),
{
    if regions.len() > 0 {
        let rest = regions.drop_last();
        lemma_strongest_claim(rest, addr);
        assert forall|i: int| 0 <= i < regions.len() implies claim(
            #[trigger] regions[i],
            addr,
        ) <= strongest_claim(regions, addr) by {
            if i < rest.len() {
                assert(regions[i] == rest[i]);
            }
        }
        if strongest_claim(regions, addr) != -1 {
            if strongest_claim(regions, addr) == claim(regions.last(), addr) {
                assert(claim(regions[regions.len() - 1], addr) == strongest_claim(regions, addr));
            } else {
                let i = choose|i: int|
                    0 <= i < rest.len() && claim(#[trigger] rest[i], addr) == strongest_claim(
                        rest,
                        addr,
                    );
                assert(regions[i] == rest[i]);
            }
        }
    }
}

/// In ascending regions, a byte that one of them contains gets that region's
/// kind.
pub proof fn lemma_claim_of_member(regions: Seq<MemoryRegion>, i: int, addr: int)
    requires
        ascending(regions),
        0 <= i < regions.len(),
        regions[i].spec_contains(addr),
    ensures
        strongest_claim(regions, addr) == regions[i].spec_typ().rank(),
{
    lemma_strongest_claim(regions, addr);
    assert(claim(regions[i], addr) >= 0);
    let j = choose|j: int|
        0 <= j < regions.len() && claim(#[trigger] regions[j], addr) == strongest_claim(
            regions,
            addr,
        );
    if j < i {
        assert(regions[j].spec_end() <= regions[i].spec_base());
    } else if i < j {
        assert(regions[i].spec_end() <= regions[j].spec_base());
    }
}

/// A byte that lies between two neighbours of ascending regions, below the
/// first or above the last of them, is claimed by none.
pub proof fn lemma_claim_in_gap(regions: Seq<MemoryRegion>, k: int, addr: int)
    requires
        all_wf(regions),
        ascending(regions),
        0 <= k <= regions.len(),
        k > 0 ==> regions[k - 1].spec_end() <= addr,
        k < regions.len() ==> addr < regions[k].spec_base(),
    ensures
        strongest_claim(regions, addr) == -1,
{
    lemma_strongest_claim(regions, addr);
    assert forall|j: int| 0 <= j < regions.len() implies claim(#[trigger] regions[j], addr)
        == -1 by {
        if j < k - 1 {
            assert(regions[j].spec_end() <= regions[k - 1].spec_base());
            assert(regions[k - 1].wf());
        } else if j > k {
            assert(regions[k].spec_end() <= regions[j].spec_base());
            assert(regions[k].wf());
        }
    }
}

/// A byte that no region contains has no claim on it.
pub proof fn lemma_claim_uncovered(regions: Seq<MemoryRegion>, addr: int)
    requires
        forall|i: int| 0 <= i < regions.len() ==> !(#[trigger] regions[i]).spec_contains(addr),
    ensures
        strongest_claim(regions, addr) == -1,
{
    lemma_strongest_claim(regions, addr);
}

/// No two regions of a memory map share a byte, whether they are neighbours
/// or not, and the earlier one ends at or before the base of the later one.
pub proof fn lemma_map_regions_share_no_byte(map: Seq<MemoryRegion>, i: int, j: int)
    requires
        is_memory_map(map),
        0 <= i < j < map.len(),
    ensures
        map[i].spec_end() <= map[j].spec_base(),
        !map[i].spec_overlaps(&map[j]),
        forall|addr: int| !(map[i].spec_contains(addr) && map[j].spec_contains(addr)),
{
    assert(map[i].wf() && map[j].wf());
}

/// Regions that follow each other in order and hold a byte each are in
/// ascending order as a whole: what holds of neighbours holds of every pair.
pub proof fn lemma_neighbours_in_order(regions: Seq<MemoryRegion>, i: int, j: int)
    requires
        all_wf(regions),
        forall|k: int|
            0 <= k < regions.len() - 1 ==> (#[trigger] regions[k]).spec_end() <= regions[k
                + 1].spec_base(),
        0 <= i < j < regions.len(),
    ensures
        regions[i].spec_end() <= regions[j].spec_base(),
    decreases j - i,
{
    if i + 1 < j {
        lemma_neighbours_in_order(regions, i, j - 1);
        assert(regions[j - 1].spec_end() <= regions[j - 1 + 1].spec_base());
        assert(regions[j - 1].wf());
    } else {
        assert(regions[i].spec_end() <= regions[i + 1].spec_base());
    }
}

/// In the memory map of some reports, a byte of a region has the kind of the
/// strongest report that contains it: one report of that kind contains the
/// byte, and no report that contains it ranks higher.
pub proof fn lemma_map_gives_strongest_kind(
    map: Seq<MemoryRegion>,
    reports: Seq<MemoryRegion>,
    i: int,
    addr: int,
)
    requires
        reconciles(map, reports),
        0 <= i < map.len(),
        map[i].spec_contains(addr),
    ensures
        kind_at(reports, addr) == Some(map[i].spec_typ()),
        exists|j: int|
            0 <= j < reports.len() && (#[trigger] reports[j]).spec_contains(addr)
                && reports[j].spec_typ() == map[i].spec_typ(),
        forall|j: int|
            0 <= j < reports.len() && (#[trigger] reports[j]).spec_contains(addr)
                ==> reports[j].spec_typ().rank() <= map[i].spec_typ().rank(),
{
    lemma_claim_of_member(map, i, addr);
    lemma_strongest_claim(reports, addr);
    assert(strongest_claim(map, addr) == strongest_claim(reports, addr));
    let j = choose|j: int|
        0 <= j < reports.len() && claim(#[trigger] reports[j], addr) == strongest_claim(
            reports,
            addr,
        );
    assert(reports[j].spec_contains(addr));
    assert forall|k: int|
        0 <= k < reports.len() && (#[trigger] reports[k]).spec_contains(
            addr,
        ) implies reports[k].spec_typ().rank() <= map[i].spec_typ().rank() by {
        assert(claim(reports[k], addr) <= strongest_claim(reports, addr));
    }
}

/// The memory map of some reports covers the bytes that the reports contain,
/// and no others.
pub proof fn lemma_map_covers_reports(map: Seq<MemoryRegion>, reports: Seq<MemoryRegion>, addr: int)
    requires
        reconciles(map, reports),
    ensures
        (exists|i: int| 0 <= i < map.len() && (#[trigger] map[i]).spec_contains(addr)) <==> (
        exists|j: int| 0 <= j < reports.len() && (#[trigger] reports[j]).spec_contains(addr)),
{
    lemma_strongest_claim(map, addr);
    lemma_strongest_claim(reports, addr);
    assert(strongest_claim(map, addr) == strongest_claim(reports, addr));
    if exists|i: int| 0 <= i < map.len() && (#[trigger] map[i]).spec_contains(addr) {
        let i = choose|i: int| 0 <= i < map.len() && (#[trigger] map[i]).spec_contains(addr);
        assert(claim(map[i], addr) >= 0);
        let j = choose|j: int|
            0 <= j < reports.len() && claim(#[trigger] reports[j], addr) == strongest_claim(
                reports,
                addr,
            );
        assert(reports[j].spec_contains(addr));
    }
    if exists|j: int| 0 <= j < reports.len() && (#[trigger] reports[j]).spec_contains(addr) {
        let j = choose|j: int| 0 <= j < reports.len() && (#[trigger] reports[j]).spec_contains(addr);
        assert(claim(reports[j], addr) >= 0);
        let i = choose|i: int|
            0 <= i < map.len() && claim(#[trigger] map[i], addr) == strongest_claim(map, addr);
        assert(map[i].spec_contains(addr));
    }
}

/// Without its first region, a memory map is a memory map still, and it lays
/// the same claims but on the bytes of that region, on which it lays none.
proof fn lemma_map_without_first(map: Seq<MemoryRegion>)
    requires
        is_memory_map(map),
        map.len() > 0,
    ensures
        is_memory_map(map.drop_first()),
        forall|addr: int| #[trigger]
            strongest_claim(map.drop_first(), addr) == if map[0].spec_contains(addr) {
                -1
            } else {
                strongest_claim(map, addr)
            },
{
    let rest = map.drop_first();
    assert forall|i: int, j: int| 0 <= i < j < rest.len() implies (#[trigger] rest[i]).spec_end()
        <= (#[trigger] rest[j]).spec_base() by {
        assert(map[i + 1].spec_end() <= map[j + 1].spec_base());
    }
    assert forall|i: int, j: int| 0 <= i && j == i + 1 && j < rest.len() implies !((
    #[trigger] rest[i]).spec_end() == (#[trigger] rest[j]).spec_base() && rest[i].spec_typ()
        == rest[j].spec_typ()) by {
        assert(!(map[i + 1].spec_end() == map[j + 1].spec_base() && map[i + 1].spec_typ()
            == map[j + 1].spec_typ()));
    }
    assert forall|i: int| 0 <= i < rest.len() implies (#[trigger] rest[i]).wf() by {
        assert(map[i + 1].wf());
    }
    assert forall|addr: int| #[trigger]
        strongest_claim(rest, addr) == if map[0].spec_contains(addr) {
            -1
        } else {
            strongest_claim(map, addr)
        } by {
        lemma_strongest_claim(rest, addr);
        lemma_strongest_claim(map, addr);
        if strongest_claim(rest, addr) != -1 {
            let i = choose|i: int|
                0 <= i < rest.len() && claim(#[trigger] rest[i], addr) == strongest_claim(
                    rest,
                    addr,
                );
            assert(rest[i] == map[i + 1]);
            assert(map[0].spec_end() <= map[i + 1].spec_base());
            lemma_claim_of_member(map, i + 1, addr);
        } else if !map[0].spec_contains(addr) {
            assert forall|i: int| 0 <= i < map.len() implies !(#[trigger] map[i]).spec_contains(
                addr,
            ) by {
                if i > 0 {
                    assert(claim(rest[i - 1], addr) <= strongest_claim(rest, addr));
                }
            }
            lemma_claim_uncovered(map, addr);
        }
    }
}

/// Two memory maps that lay the same claims start with the same region.
proof fn lemma_same_first(a: Seq<MemoryRegion>, b: Seq<MemoryRegion>)
    requires
        is_memory_map(a),
        is_memory_map(b),
        a.len() > 0,
        b.len() > 0,
        forall|addr: int| #[trigger] strongest_claim(a, addr) == strongest_claim(b, addr),
        a[0].spec_end() <= b[0].spec_end(),
    ensures
        a[0] == b[0],
{
    assert(a[0].wf() && b[0].wf());
    let base = a[0].spec_base() as int;
    lemma_claim_of_member(a, 0, base);
    if base < b[0].spec_base() {
        lemma_claim_in_gap(b, 0, base);
        assert(strongest_claim(a, base) == strongest_claim(b, base));
    }
    let other = b[0].spec_base() as int;
    lemma_claim_of_member(b, 0, other);
    if other < base {
        lemma_claim_in_gap(a, 0, other);
        assert(strongest_claim(a, other) == strongest_claim(b, other));
    }
    assert(base == other);
    assert(strongest_claim(a, base) == strongest_claim(b, base));
    assert(a[0].spec_typ() == b[0].spec_typ());
    let end = a[0].spec_end();
    if end < b[0].spec_end() {
        lemma_claim_of_member(b, 0, end);
        assert(strongest_claim(a, end) == strongest_claim(b, end));
        if a.len() > 1 && a[1].spec_base() == end {
            assert(a[1].wf());
            lemma_claim_of_member(a, 1, end);
            assert(!(a[0].spec_end() == a[1].spec_base() && a[0].spec_typ() == a[1].spec_typ()));
        } else {
            if a.len() > 1 {
                assert(a[0].spec_end() <= a[1].spec_base());
            }
            lemma_claim_in_gap(a, 1, end);
        }
    }
    MemoryRegion::lemma_same_span_same_region(a[0], b[0]);
}

/// A memory map is known by its claims: two memory maps that lay the same
/// claim on every byte are the same sequence of regions.
pub proof fn lemma_memory_map_unique(a: Seq<MemoryRegion>, b: Seq<MemoryRegion>)
    requires
        is_memory_map(a),
        is_memory_map(b),
        forall|addr: int| #[trigger] strongest_claim(a, addr) == strongest_claim(b, addr),
    ensures
        a == b,
    decreases a.len(),
{
    if a.len() == 0 || b.len() == 0 {
        if a.len() > 0 {
            assert(a[0].wf());
            lemma_claim_of_member(a, 0, a[0].spec_base() as int);
            assert(strongest_claim(a, a[0].spec_base() as int) == strongest_claim(
                b,
                a[0].spec_base() as int,
            ));
        }
        if b.len() > 0 {
            assert(b[0].wf());
            lemma_claim_of_member(b, 0, b[0].spec_base() as int);
            assert(strongest_claim(a, b[0].spec_base() as int) == strongest_claim(
                b,
                b[0].spec_base() as int,
            ));
        }
        assert(a =~= b);
    } else {
        if a[0].spec_end() <= b[0].spec_end() {
            lemma_same_first(a, b);
        } else {
            lemma_same_first(b, a);
        }
        lemma_map_without_first(a);
        lemma_map_without_first(b);
        assert forall|addr: int| #[trigger]
            strongest_claim(a.drop_first(), addr) == strongest_claim(b.drop_first(), addr) by {
            assert(strongest_claim(a, addr) == strongest_claim(b, addr));
        }
        lemma_memory_map_unique(a.drop_first(), b.drop_first());
        assert(a =~= seq![a[0]] + a.drop_first());
        assert(b =~= seq![b[0]] + b.drop_first());
    }
}

/// Reports that are a memory map already are their own memory map.
pub proof fn lemma_memory_map_is_its_own(map: Seq<MemoryRegion>, reports: Seq<MemoryRegion>)
    requires
        is_memory_map(reports),
        reconciles(map, reports),
    ensures
        map == reports,
{
    lemma_memory_map_unique(map, reports);
}

/// A region appended to a memory map that ends at or before its base gives a
/// memory map again, unless it touches the last region and agrees with it in
/// kind.
proof fn lemma_append_keeps_map(before: Seq<MemoryRegion>, region: MemoryRegion)
    requires
        is_memory_map(before),
        region.wf(),
        before.len() > 0 ==> before.last().spec_end() <= region.spec_base(),
        before.len() > 0 ==> !(before.last().spec_end() == region.spec_base()
            && before.last().spec_typ() == region.spec_typ()),
    ensures
        is_memory_map(before.push(region)),
{
    let after = before.push(region);
    let n = before.len() as int;
    assert forall|i: int, j: int| 0 <= i < j < after.len() implies (#[trigger] after[i]).spec_end()
        <= (#[trigger] after[j]).spec_base() by {
        if j == n {
            if i < n - 1 {
                assert(before[i].spec_end() <= before[n - 1].spec_base());
                assert(before[n - 1].wf());
            }
        } else {
            assert(before[i].spec_end() <= before[j].spec_base());
        }
    }
    assert forall|i: int, j: int| 0 <= i && j == i + 1 && j < after.len() implies !((
    #[trigger] after[i]).spec_end() == (#[trigger] after[j]).spec_base() && after[i].spec_typ()
        == after[j].spec_typ()) by {
        if j < n {
            assert(!(before[i].spec_end() == before[j].spec_base() && before[i].spec_typ()
                == before[j].spec_typ()));
        }
    }
}

/// Where the last region of a memory map is replaced by one that has its base
/// and its kind and ends later, the result is a memory map again.
proof fn lemma_extend_keeps_map(before: Seq<MemoryRegion>, joined: MemoryRegion)
    requires
        is_memory_map(before),
        before.len() > 0,
        joined.wf(),
        joined.spec_base() == before.last().spec_base(),
        joined.spec_typ() == before.last().spec_typ(),
    ensures
        is_memory_map(before.update(before.len() - 1, joined)),
{
    let n = before.len() as int;
    let after = before.update(n - 1, joined);
    assert forall|i: int, j: int| 0 <= i < j < after.len() implies (#[trigger] after[i]).spec_end()
        <= (#[trigger] after[j]).spec_base() by {
        assert(before[i].spec_end() <= before[j].spec_base());
    }
    assert forall|i: int, j: int| 0 <= i && j == i + 1 && j < after.len() implies !((
    #[trigger] after[i]).spec_end() == (#[trigger] after[j]).spec_base() && after[i].spec_typ()
        == after[j].spec_typ()) by {
        assert(!(before[i].spec_end() == before[j].spec_base() && before[i].spec_typ()
            == before[j].spec_typ()));
    }
}

/// Where the last of some regions is replaced by its union with a region of
/// the same kind that starts where it ends, the claims on every byte are
/// those of the regions together with the new one.
proof fn lemma_extend_claims(
    before: Seq<MemoryRegion>,
    region: MemoryRegion,
    joined: MemoryRegion,
    addr: int,
)
    requires
        before.len() > 0,
        before.last().wf(),
        region.wf(),
        before.last().spec_end() == region.spec_base(),
        before.last().spec_typ() == region.spec_typ(),
        joined.spans(before.last().spec_base() as int, region.spec_end(), region.spec_typ()),
    ensures
        strongest_claim(before.update(before.len() - 1, joined), addr) == vstd::math::max(
            strongest_claim(before, addr),
            claim(region, addr),
        ),
{
    let after = before.update(before.len() - 1, joined);
    assert(after.drop_last() =~= before.drop_last());
    assert(after.last() == joined);
    assert(claim(joined, addr) == vstd::math::max(claim(before.last(), addr), claim(region, addr)));
}

/// Appends `region` to a memory map that ends at or before its base, joining
/// it with the last region where the two touch and agree in kind.
fn push_coalesced(map: &mut Vec<MemoryRegion>, region: MemoryRegion)
    requires
        is_memory_map(old(map)@),
        region.wf(),
        old(map)@.len() > 0 ==> old(map)@.last().spec_end() <= region.spec_base(),
    ensures
        is_memory_map(final(map)@),
        final(map)@.len() > 0,
        final(map)@.last().spec_end() == region.spec_end(),
        forall|addr: int|
            #[trigger] strongest_claim(final(map)@, addr) == vstd::math::max(
                strongest_claim(old(map)@, addr),
                claim(region, addr),
            ),
{
    let n = map.len();
    if n > 0 {
        let last = map[n - 1];
        assert(last.wf());
        if last.end() == region.base() && last.typ() == region.typ() {
            let joined = MemoryRegion::from_bounds(last.base(), region.end(), region.typ());
            map.set(n - 1, joined);
            proof {
                let before = old(map)@;
                assert(map@ == before.update(n - 1, joined));
                lemma_extend_keeps_map(before, joined);
                assert forall|addr: int| #[trigger]
                    strongest_claim(map@, addr) == vstd::math::max(
                        strongest_claim(before, addr),
                        claim(region, addr),
                    ) by {
                    lemma_extend_claims(before, region, joined, addr);
                }
            }
            return ;
        }
    }
    map.push(region);
    proof {
        let before = old(map)@;
        assert(map@ == before.push(region));
        lemma_append_keeps_map(before, region);
        assert forall|addr: int| #[trigger]
            strongest_claim(map@, addr) == vstd::math::max(
                strongest_claim(before, addr),
                claim(region, addr),
            ) by {
            lemma_claim_push(before, region, addr);
        }
    }
}

/// The strongest claim on the byte at `addr` once `region` has been laid over
/// `map`: that of the map or that of the region, whichever is stronger.
pub open spec fn overlaid(map: Seq<MemoryRegion>, region: MemoryRegion, addr: int) -> int {
    vstd::math::max(strongest_claim(map, addr), claim(region, addr))
}

/// Below `done` the sweep has given every byte its final claim, and it has
/// placed nothing at or above `done` yet.
spec fn settled(out: Seq<MemoryRegion>, map: Seq<MemoryRegion>, region: MemoryRegion, done: int) -> bool {
    &&& forall|addr: int|
        addr < done ==> #[trigger] strongest_claim(out, addr) == overlaid(map, region, addr)
    &&& forall|addr: int| addr >= done ==> #[trigger] strongest_claim(out, addr) == -1
}

/// From `done` up to the next region of the map that the sweep will visit, the
/// map claims no byte, but for bytes of the regions that the pending part of
/// the overlaid region has outranked.
spec fn outranked_ahead(
    map: Seq<MemoryRegion>,
    region: MemoryRegion,
    pending: Option<MemoryRegion>,
    done: int,
    next: int,
) -> bool {
    forall|addr: int|
        done <= addr && (next < map.len() ==> addr < map[next].spec_base())
            ==> #[trigger] strongest_claim(map, addr) == -1 || (pending matches Some(p)
            && p.spec_base() <= addr < region.spec_end() && strongest_claim(map, addr)
            < region.spec_typ().rank())
}

/// Lays `region` over a memory map.
///
/// The sweep walks the map in address order and carries along the part of
/// `region` that has not found its place yet. Where that part and a region of
/// the map overlap, the kind of higher rank keeps the bytes they share, and the
/// other one is split: what is left of it below goes into the result at once,
/// what is left above stays in the sweep.
fn overlay(map: &Vec<MemoryRegion>, region: MemoryRegion) -> (out: Vec<MemoryRegion>)
    requires
        is_memory_map(map@),
        region.wf(),
    ensures
        is_memory_map(out@),
        forall|addr: int| #[trigger] strongest_claim(out@, addr) == overlaid(map@, region, addr),
{
    let mut out: Vec<MemoryRegion> = Vec::new();
    let mut pending: Option<MemoryRegion> = Some(region);
    let ghost mut done: int = 0;
    let mut i: usize = 0;
    proof {
        assert forall|addr: int| addr < 0 implies strongest_claim(map@, addr) == -1 by {
            lemma_claim_in_gap(map@, 0, addr);
        }
        assert forall|addr: int|
            0 <= addr && (0 < map@.len() ==> addr < map@[0].spec_base()) implies strongest_claim(
            map@,
            addr,
        ) == -1 by {
            lemma_claim_in_gap(map@, 0, addr);
        }
    }
    while i < map.len()
        invariant
            0 <= i <= map@.len(),
            is_memory_map(map@),
            region.wf(),
            is_memory_map(out@),
            0 <= done,
            out@.len() > 0 ==> out@.last().spec_end() <= done,
            i < map@.len() ==> done <= map@[i as int].spec_base(),
            settled(out@, map@, region, done),
            pending matches Some(p) ==> p.wf() && p.spec_end() == region.spec_end()
                && p.spec_typ() == region.spec_typ() && done <= p.spec_base()
                && region.spec_base() <= p.spec_base() && (p.spec_base() == region.spec_base()
                || p.spec_base() == done),
            pending is None ==> region.spec_end() <= done,
            outranked_ahead(map@, region, pending, done, i as int),
        decreases map@.len() - i,
    {
        let piece = map[i];
        let ghost before = out@;
        let ghost was_done = done;
        proof {
            assert(piece.wf());
            assert forall|addr: int| piece.spec_contains(addr) implies strongest_claim(map@, addr)
                == piece.spec_typ().rank() by {
                lemma_claim_of_member(map@, i as int, addr);
            }
            assert forall|addr: int|
                piece.spec_end() <= addr && (i + 1 < map@.len() ==> addr < map@[i
                    + 1].spec_base()) implies strongest_claim(map@, addr) == -1 by {
                lemma_claim_in_gap(map@, i + 1, addr);
            }
            if i + 1 < map@.len() {
                assert(map@[i as int].spec_end() <= map@[i + 1].spec_base());
            }
        }
        match pending {
            None => {
                push_coalesced(&mut out, piece);
                proof {
                    done = piece.spec_end();
                }
            },
            Some(p) => {
                if piece.end() <= p.base() {
                    push_coalesced(&mut out, piece);
                    proof {
                        done = piece.spec_end();
                    }
                } else if piece.base() >= p.end() {
                    push_coalesced(&mut out, p);
                    push_coalesced(&mut out, piece);
                    pending = None;
                    proof {
                        done = piece.spec_end();
                    }
                } else if piece.typ().priority() >= p.typ().priority() {
                    let rest = p.split(&piece);
                    if let Some(below) = rest.below {
                        push_coalesced(&mut out, below);
                    }
                    push_coalesced(&mut out, piece);
                    pending = rest.above;
                    proof {
                        done = piece.spec_end();
                    }
                } else {
                    let rest = piece.split(&p);
                    if let Some(below) = rest.below {
                        push_coalesced(&mut out, below);
                        proof {
                            done = p.spec_base() as int;
                            assert(below.spec_end() == p.spec_base());
                            assert(below.spec_base() == piece.spec_base());
                            assert(p.spec_base() == region.spec_base());
                            assert forall|addr: int| addr < done implies #[trigger] strongest_claim(
                                out@,
                                addr,
                            ) == overlaid(map@, region, addr) by {
                                if addr < was_done {
                                    assert(strongest_claim(before, addr) == overlaid(map@, region, addr));
                                } else if addr < piece.spec_base() {
                                    assert(strongest_claim(before, addr) == -1);
                                    assert(strongest_claim(map@, addr) == -1);
                                } else {
                                    assert(strongest_claim(before, addr) == -1);
                                    assert(piece.spec_contains(addr));
                                    assert(strongest_claim(map@, addr) == piece.spec_typ().rank());
                                }
                            }
                        }
                    }
                    let ghost mid = out@;
                    if let Some(above) = rest.above {
                        push_coalesced(&mut out, p);
                        push_coalesced(&mut out, above);
                        pending = None;
                        proof {
                            let reached = done;
                            done = piece.spec_end();
                            assert(above.spec_base() == p.spec_end());
                            assert(above.spec_end() == piece.spec_end());
                            assert forall|addr: int| addr < done implies #[trigger] strongest_claim(
                                out@,
                                addr,
                            ) == overlaid(map@, region, addr) by {
                                if addr < reached {
                                    assert(strongest_claim(mid, addr) == overlaid(map@, region, addr));
                                } else if addr < p.spec_base() {
                                    assert(strongest_claim(mid, addr) == -1);
                                    assert(strongest_claim(map@, addr) == -1);
                                } else if addr < p.spec_end() {
                                    assert(strongest_claim(mid, addr) == -1);
                                    assert(claim(p, addr) == region.spec_typ().rank());
                                    if addr >= piece.spec_base() {
                                        assert(piece.spec_contains(addr));
                                    }
                                    assert(strongest_claim(map@, addr) < region.spec_typ().rank());
                                } else {
                                    assert(strongest_claim(mid, addr) == -1);
                                    assert(piece.spec_contains(addr));
                                    assert(strongest_claim(map@, addr) == piece.spec_typ().rank());
                                }
                            }
                        }
                    }
                    proof {
                        assert forall|addr: int|
                            done <= addr && (i + 1 < map@.len() ==> addr < map@[i
                                + 1].spec_base()) implies #[trigger] strongest_claim(map@, addr)
                            == -1 || (pending matches Some(q) && q.spec_base() <= addr
                            < region.spec_end() && strongest_claim(map@, addr)
                            < region.spec_typ().rank()) by {
                            if addr < piece.spec_base() {
                                assert(was_done <= addr);
                            } else if addr < piece.spec_end() {
                                assert(piece.spec_contains(addr));
                            }
                        }
                    }
                }
            },
        }
        i = i + 1;
    }
    if let Some(p) = pending {
        push_coalesced(&mut out, p);
    }
    out
}

/// The order in which the sweep takes up the reports: by ascending base, and
/// among reports with the same base the kind of higher rank first.
pub open spec fn sweeps_before(a: MemoryRegion, b: MemoryRegion) -> bool {
    a.spec_base() < b.spec_base() || (a.spec_base() == b.spec_base() && a.spec_typ().rank()
        >= b.spec_typ().rank())
}

/// Every region comes before all later ones in the order of the sweep.
pub open spec fn in_sweep_order(regions: Seq<MemoryRegion>) -> bool {
    forall|i: int, j: int|
        0 <= i < j < regions.len() ==> sweeps_before(#[trigger] regions[i], #[trigger] regions[j])
}

/// Regions that are the same up to their order lay the same claims.
pub proof fn lemma_claims_of_permutation(a: Seq<MemoryRegion>, b: Seq<MemoryRegion>, addr: int)
    requires
        a.to_multiset() == b.to_multiset(),
    ensures
        strongest_claim(a, addr) == strongest_claim(b, addr),
{
    lemma_strongest_claim(a, addr);
    lemma_strongest_claim(b, addr);
    a.to_multiset_ensures();
    b.to_multiset_ensures();
    assert forall|i: int| 0 <= i < a.len() implies claim(#[trigger] a[i], addr) <= strongest_claim(
        b,
        addr,
    ) by {
        assert(a.contains(a[i]));
        assert(a.to_multiset().count(a[i]) > 0);
        assert(b.to_multiset().count(a[i]) > 0);
        assert(b.contains(a[i]));
        let j = choose|j: int| 0 <= j < b.len() && b[j] == a[i];
        assert(claim(b[j], addr) <= strongest_claim(b, addr));
    }
    assert forall|i: int| 0 <= i < b.len() implies claim(#[trigger] b[i], addr) <= strongest_claim(
        a,
        addr,
    ) by {
        assert(b.contains(b[i]));
        assert(b.to_multiset().count(b[i]) > 0);
        assert(a.to_multiset().count(b[i]) > 0);
        assert(a.contains(b[i]));
        let j = choose|j: int| 0 <= j < a.len() && a[j] == b[i];
        assert(claim(a[j], addr) <= strongest_claim(a, addr));
    }
}

/// Whether the sweep takes up `a` before `b`, or may take up either first.
fn takes_up_first(a: &MemoryRegion, b: &MemoryRegion) -> (first: bool)
    ensures
        first == sweeps_before(*a, *b),
{
    a.base() < b.base() || (a.base() == b.base() && a.typ().priority() >= b.typ().priority())
}

/// The reports in the order of the sweep.
fn sorted_for_sweep(regions: &[MemoryRegion]) -> (sorted: Vec<MemoryRegion>)
    ensures
        in_sweep_order(sorted@),
        sorted@.to_multiset() == regions@.to_multiset(),
{
    let mut sorted: Vec<MemoryRegion> = Vec::new();
    let mut i: usize = 0;
    proof {
        assert(regions@.take(0) =~= Seq::<MemoryRegion>::empty());
    }
    while i < regions.len()
        invariant
            0 <= i <= regions@.len(),
            in_sweep_order(sorted@),
            sorted@.to_multiset() == regions@.take(i as int).to_multiset(),
        decreases regions@.len() - i,
    {
        let region = regions[i];
        let mut at: usize = 0;
        while at < sorted.len() && takes_up_first(&sorted[at], &region)
            invariant
                0 <= at <= sorted@.len(),
                forall|k: int| 0 <= k < at ==> sweeps_before(#[trigger] sorted@[k], region),
            decreases sorted@.len() - at,
        {
            at = at + 1;
        }
        let ghost before = sorted@;
        sorted.insert(at, region);
        proof {
            let after = sorted@;
            assert(after == before.insert(at as int, region));
            assert forall|j: int, k: int| 0 <= j < k < after.len() implies sweeps_before(
                #[trigger] after[j],
                #[trigger] after[k],
            ) by {
                if k < at {
                    assert(sweeps_before(before[j], before[k]));
                } else if k == at {
                    assert(sweeps_before(before[j], region));
                } else if j == at {
                    assert(!sweeps_before(before[at as int], region));
                    if k - 1 > at {
                        assert(sweeps_before(before[at as int], before[k - 1]));
                    }
                } else if j < at {
                    assert(sweeps_before(before[j], before[k - 1]));
                } else {
                    assert(sweeps_before(before[j - 1], before[k - 1]));
                }
            }
            assert(after.remove(at as int) =~= before);
            to_multiset_remove(after, at as int);
            after.to_multiset_ensures();
            assert(after.contains(region)) by {
                assert(after[at as int] == region);
            }
            assert(after.to_multiset() =~= before.to_multiset().insert(region));
            assert(regions@.take(i + 1) =~= regions@.take(i as int).push(region));
            to_multiset_build(regions@.take(i as int), region);
        }
        i = i + 1;
    }
    proof {
        assert(regions@.take(regions@.len() as int) =~= regions@);
    }
    sorted
}

/// Reconciles overlapping region reports into the memory map.
///
/// The reports are taken up by ascending base, the stronger kind first where
/// two share a base, and each is laid over the map built so far. In the
/// result every byte that a report contains has the kind of the strongest
/// report that contains it, no other byte is covered, the regions come in
/// ascending order without sharing a byte, and neighbours of one kind that
/// touch are joined. An empty collection gives an empty map.
pub fn non_overlapping_regions_from(regions: &[MemoryRegion]) -> (map: Vec<MemoryRegion>)
    ensures
        reconciles(map@, regions@),
        forall|addr: int| #[trigger] kind_at(map@, addr) == kind_at(regions@, addr),
        regions@.len() == 0 ==> map@.len() == 0,
{
    let sorted = sorted_for_sweep(regions);
    let mut map: Vec<MemoryRegion> = Vec::new();
    let mut i: usize = 0;
    proof {
        sorted@.to_multiset_ensures();
        regions@.to_multiset_ensures();
    }
    while i < sorted.len()
        invariant
            0 <= i <= sorted@.len(),
            is_memory_map(map@),
            forall|addr: int| #[trigger]
                strongest_claim(map@, addr) == strongest_claim(sorted@.take(i as int), addr),
            i == 0 ==> map@.len() == 0,
        decreases sorted@.len() - i,
    {
        let region = sorted[i];
        proof {
            use_type_invariant(&region);
        }
        let ghost before = map@;
        map = overlay(&map, region);
        proof {
            assert(sorted@.take(i + 1) =~= sorted@.take(i as int).push(region));
            assert forall|addr: int| #[trigger]
                strongest_claim(map@, addr) == strongest_claim(sorted@.take(i + 1), addr) by {
                lemma_claim_push(sorted@.take(i as int), region, addr);
                assert(strongest_claim(map@, addr) == overlaid(before, region, addr));
            }
        }
        i = i + 1;
    }
    proof {
        assert(sorted@.take(sorted@.len() as int) =~= sorted@);
        assert forall|addr: int| #[trigger]
            strongest_claim(map@, addr) == strongest_claim(regions@, addr) by {
            lemma_claims_of_permutation(sorted@, regions@, addr);
        }
    }
    map
}

} // verus!
