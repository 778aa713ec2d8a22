//! From what the platform reports about memory to the memory map.
//!
//! Four sources describe physical memory: the platform's usable memory, the
//! memory it reserves, the kernel image, and the initramfs where one was
//! loaded. Their reports are collected in this order, the weakest claim
//! first, and reconciled.

use crate::memory_region::{MemoryRegion, MemoryRegionType, RegionError};
use crate::reconcile::{non_overlapping_regions_from, reconciles};
use vstd::prelude::*;

verus! {

/// A range of memory as the platform reports it: nothing is known of it yet.
#[derive(Clone, Copy, Debug, PartialEq, Eq, Structural)]
pub struct RawRegion {
    /// The first address.
    pub base: usize,
    /// The number of bytes.
    pub size: usize,
}

/// Why the reports give no memory map.
#[derive(Clone, Copy, Debug, PartialEq, Eq, Structural)]
pub enum MemoryMapError {
    /// A report does not describe a region.
    Region(RegionError),
    /// No byte of memory is left for use.
    NoUsableMemory,
}

/// The base, the end and the kind of a region.
pub open spec fn span_of(region: MemoryRegion) -> (int, int, MemoryRegionType) {
    (region.spec_base() as int, region.spec_end(), region.spec_typ())
}

/// The base, the end and the kind of each region.
pub open spec fn spans_of(regions: Seq<MemoryRegion>) -> Seq<(int, int, MemoryRegionType)> {
    Seq::new(regions.len(), |i: int| span_of(regions[i]))
}

/// The regions of kind `typ` that the raw reports describe, in their order,
/// or the error of the first report that describes none. A report without
/// bytes is left out where `skip_empty` says so, and is an error else; a
/// report whose end does not fit in an address is always one.
pub open spec fn raw_spans(raw: Seq<RawRegion>, typ: MemoryRegionType, skip_empty: bool) -> Result<
    Seq<(int, int, MemoryRegionType)>,
    RegionError,
>
    decreases raw.len(),
{
    if raw.len() == 0 {
        Ok(Seq::empty())
    } else {
        match raw_spans(raw.drop_last(), typ, skip_empty) {
            Err(e) => Err(e),
            Ok(spans) => {
                let last = raw.last();
                if last.size == 0 {
                    if skip_empty {
                        Ok(spans)
                    } else {
                        Err(RegionError::ZeroLength)
                    }
                } else if last.base + last.size > usize::MAX {
                    Err(RegionError::Overflow)
                } else {
                    Ok(spans.push((last.base as int, last.base + last.size, typ)))
                }
            },
        }
    }
}

/// The region reports of the four sources, the weakest claim first: usable
/// memory, of which empty reports are left out, reserved memory, the kernel
/// image, and the initramfs, if there is one, as a module.
pub open spec fn report_spans(
    usable: Seq<RawRegion>,
    reserved: Seq<RawRegion>,
    kernel: RawRegion,
    initramfs: Option<MemoryRegion>,
) -> Result<Seq<(int, int, MemoryRegionType)>, RegionError> {
    match raw_spans(usable, MemoryRegionType::Usable, true) {
        Err(e) => Err(e),
        Ok(u) => match raw_spans(reserved, MemoryRegionType::Reserved, false) {
            Err(e) => Err(e),
            Ok(r) => match raw_spans(seq![kernel], MemoryRegionType::Kernel, false) {
                Err(e) => Err(e),
                Ok(k) => Ok(
                    u + r + k + match initramfs {
                        Some(m) => seq![(m.spec_base() as int, m.spec_end(), MemoryRegionType::Module)],
                        None => Seq::empty(),
                    },
                ),
            },
        },
    }
}

/// The memory that holds the initramfs, from its first address up to, not
/// including, `end`; none where it would hold no byte.
pub fn initramfs_region(start: usize, end: usize) -> (region: Option<MemoryRegion>)
    ensures
        region is Some == (start < end),
        region matches Some(r) ==> r.wf() && r.spans(
            start as int,
            end as int,
            MemoryRegionType::Module,
        ),
{
    if start < end {
        Some(MemoryRegion::from_bounds(start, end, MemoryRegionType::Module))
    } else {
        None
    }
}

/// Appends to `out` the regions of kind `typ` that the raw reports describe.
fn push_raw(
    out: &mut Vec<MemoryRegion>,
    raw: &[RawRegion],
    typ: MemoryRegionType,
    skip_empty: bool,
) -> (r: Result<(), RegionError>)
    ensures
        match raw_spans(raw@, typ, skip_empty) {
            Ok(spans) => r is Ok && spans_of(final(out)@) == spans_of(old(out)@) + spans,
            Err(e) => r == Err::<(), RegionError>(e),
        },
{
    let ghost start = out@;
    let mut i: usize = 0;
    proof {
        assert(raw@.take(0) =~= Seq::<RawRegion>::empty());
        assert(spans_of(start) + Seq::<(int, int, MemoryRegionType)>::empty() =~= spans_of(start));
    }
    while i < raw.len()
        invariant
            0 <= i <= raw@.len(),
            raw_spans(raw@.take(i as int), typ, skip_empty) matches Ok(spans) && spans_of(out@)
                == spans_of(start) + spans,
        decreases raw@.len() - i,
    {
        let report = raw[i];
        let ghost upto = raw@.take(i + 1);
        let ghost before = out@;
        proof {
            assert(upto.drop_last() =~= raw@.take(i as int));
            assert(upto.last() == report);
        }
        if report.size == 0 && skip_empty {
        } else {
            match MemoryRegion::new(report.base, report.size, typ) {
                Ok(region) => {
                    out.push(region);
                    proof {
                        let spans = raw_spans(raw@.take(i as int), typ, skip_empty)->Ok_0;
                        assert(spans_of(out@) =~= spans_of(before).push(span_of(region)));
                        assert(spans_of(out@) =~= spans_of(start) + spans.push(span_of(region)));
                    }
                },
                Err(e) => {
                    proof {
                        lemma_raw_error_stays(raw@, typ, skip_empty, i + 1);
                    }
                    return Err(e);
                },
            }
        }
        i = i + 1;
    }
    proof {
        assert(raw@.take(raw@.len() as int) =~= raw@);
    }
    Ok(())
}

/// Where the first reports hold one that describes no region, so does the
/// whole, and the error is that of the first such report.
proof fn lemma_raw_error_stays(raw: Seq<RawRegion>, typ: MemoryRegionType, skip_empty: bool, k: int)
    requires
        0 <= k <= raw.len(),
        raw_spans(raw.take(k), typ, skip_empty) is Err,
    ensures
        raw_spans(raw, typ, skip_empty) == raw_spans(raw.take(k), typ, skip_empty),
    decreases raw.len() - k,
{
    if k < raw.len() {
        assert(raw.take(k + 1).drop_last() =~= raw.take(k));
        lemma_raw_error_stays(raw, typ, skip_empty, k + 1);
    } else {
        assert(raw.take(k) =~= raw);
    }
}

/// Collects the region reports of the four sources, the weakest claim first.
///
/// Usable memory comes first, reports without bytes left out; then reserved
/// memory, the kernel image, and the initramfs as a module. The first report
/// that describes no region gives its error.
pub fn collect_reports(
    usable: &[RawRegion],
    reserved: &[RawRegion],
    kernel: RawRegion,
    initramfs: Option<MemoryRegion>,
) -> (r: Result<Vec<MemoryRegion>, RegionError>)
    ensures
        match report_spans(usable@, reserved@, kernel, initramfs) {
            Ok(spans) => r matches Ok(reports) && spans_of(reports@) == spans,
            Err(e) => r == Err::<Vec<MemoryRegion>, RegionError>(e),
        },
{
    let mut reports: Vec<MemoryRegion> = Vec::new();
    proof {
        assert(spans_of(reports@) =~= Seq::<(int, int, MemoryRegionType)>::empty());
    }
    match push_raw(&mut reports, usable, MemoryRegionType::Usable, true) {
        Err(e) => {
            return Err(e);
        },
        Ok(()) => {},
    }
    match push_raw(&mut reports, reserved, MemoryRegionType::Reserved, false) {
        Err(e) => {
            return Err(e);
        },
        Ok(()) => {},
    }
    let ghost before = reports@;
    proof {
        let one = seq![kernel];
        assert(one.drop_last() =~= Seq::<RawRegion>::empty());
        assert(one.last() == kernel);
        assert(raw_spans(one.drop_last(), MemoryRegionType::Kernel, false) == Ok::<
            Seq<(int, int, MemoryRegionType)>,
            RegionError,
        >(Seq::empty()));
    }
    match MemoryRegion::new(kernel.base, kernel.size, MemoryRegionType::Kernel) {
        Err(e) => {
            return Err(e);
        },
        Ok(region) => {
            reports.push(region);
            proof {
                assert(spans_of(reports@) =~= spans_of(before).push(span_of(region)));
                assert(Seq::<(int, int, MemoryRegionType)>::empty().push(span_of(region))
                    =~= seq![span_of(region)]);
            }
        },
    }
    let ghost before = reports@;
    match initramfs {
        Some(m) => {
            proof {
                use_type_invariant(&m);
            }
            let module = MemoryRegion::from_bounds(m.base(), m.end(), MemoryRegionType::Module);
            reports.push(module);
            proof {
                assert(spans_of(reports@) =~= spans_of(before) + seq![span_of(module)]);
            }
        },
        None => {
            proof {
                assert(spans_of(reports@) =~= spans_of(before) + Seq::<
                    (int, int, MemoryRegionType),
                >::empty());
            }
        },
    }
    Ok(reports)
}

/// Some region of the map is usable memory.
pub open spec fn has_usable(map: Seq<MemoryRegion>) -> bool {
    exists|i: int| 0 <= i < map.len() && (#[trigger] map[i]).spec_typ() == MemoryRegionType::Usable
}

/// Whether the map holds usable memory.
pub fn has_usable_memory(map: &[MemoryRegion]) -> (b: bool)
    ensures
        b == has_usable(map@),
{
    let mut i: usize = 0;
    while i < map.len()
        invariant
            0 <= i <= map@.len(),
            forall|k: int| 0 <= k < i ==> (#[trigger] map@[k]).spec_typ() != MemoryRegionType::Usable,
        decreases map@.len() - i,
    {
        if map[i].typ() == MemoryRegionType::Usable {
            return true;
        }
        i = i + 1;
    }
    false
}

/// Makes the memory map from what the four sources report.
///
/// The reports are collected, the weakest claim first, and reconciled. There
/// is no memory map where a report describes no region, and none where the
/// map would leave no byte of memory for use.
pub fn memory_map_from_sources(
    usable: &[RawRegion],
    reserved: &[RawRegion],
    kernel: RawRegion,
    initramfs: Option<MemoryRegion>,
) -> (r: Result<Vec<MemoryRegion>, MemoryMapError>)
    ensures
        report_spans(usable@, reserved@, kernel, initramfs) matches Err(e) ==> r == Err::<
            Vec<MemoryRegion>,
            MemoryMapError,
        >(MemoryMapError::Region(e)),
        report_spans(usable@, reserved@, kernel, initramfs) matches Ok(spans) ==> exists|
            reports: Seq<MemoryRegion>,
            map: Seq<MemoryRegion>,
        |
            #![trigger reconciles(map, reports)]
            spans_of(reports) == spans && reconciles(map, reports) && if has_usable(map) {
                r matches Ok(m) && m@ == map
            } else {
                r == Err::<Vec<MemoryRegion>, MemoryMapError>(MemoryMapError::NoUsableMemory)
            },
{
    match collect_reports(usable, reserved, kernel, initramfs) {
        Err(e) => Err(MemoryMapError::Region(e)),
        Ok(reports) => {
            let map = non_overlapping_regions_from(reports.as_slice());
            proof {
                assert(reconciles(map@, reports@));
            }
            if has_usable_memory(map.as_slice()) {
                Ok(map)
            } else {
                Err(MemoryMapError::NoUsableMemory)
            }
        },
    }
}

} // verus!
