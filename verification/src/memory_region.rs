//! Physical memory regions: one address range and what it is used for.

use vstd::prelude::*;

verus! {

/// What a range of physical memory is used for.
///
/// The variants are listed from the weakest claim to the strongest: where two
/// regions cover the same byte, the kind that ranks higher keeps it.
#[derive(Clone, Copy, Debug, PartialEq, Eq, Structural)]
pub enum MemoryRegionType {
    /// Free memory that the frame allocator may hand out.
    Usable,
    /// Memory that the platform reserves for itself.
    Reserved,
    /// The loaded kernel image.
    Kernel,
    /// A module that the bootloader loaded, such as the initramfs.
    Module,
    /// A framebuffer.
    Framebuffer,
}

impl MemoryRegionType {
    /// The strength of a kind's claim on a byte, from 0 for `Usable` upwards.
    pub open spec fn rank(self) -> int {
        match self {
            MemoryRegionType::Usable => 0,
            MemoryRegionType::Reserved => 1,
            MemoryRegionType::Kernel => 2,
            MemoryRegionType::Module => 3,
            MemoryRegionType::Framebuffer => 4,
        }
    }

    /// The strength of this kind's claim on a byte.
    pub fn priority(self) -> (p: u8)
        ensures
            p == self.rank(),
    {
        match self {
            MemoryRegionType::Usable => 0,
            MemoryRegionType::Reserved => 1,
            MemoryRegionType::Kernel => 2,
            MemoryRegionType::Module => 3,
            MemoryRegionType::Framebuffer => 4,
        }
    }
}

/// Why a region could not be built.
#[derive(Clone, Copy, Debug, PartialEq, Eq, Structural)]
pub enum RegionError {
    /// The region would hold no byte.
    ZeroLength,
    /// The end of the region does not fit in an address.
    Overflow,
}

/// A range of physical memory and its kind.
///
/// Every region holds at least one byte, and its end fits in an address.
#[derive(Clone, Copy, Debug, PartialEq, Eq, Structural)]
pub struct MemoryRegion {
    base: usize,
    len: usize,
    typ: MemoryRegionType,
}

/// What is left of a region after a range has been carved out of it: the part
/// below the range and the part above it, where there is one.
#[derive(Clone, Copy, Debug, PartialEq, Eq, Structural)]
pub struct Residue {
    /// The bytes of the region that lie below the carved range.
    pub below: Option<MemoryRegion>,
    /// The bytes of the region that lie above the carved range.
    pub above: Option<MemoryRegion>,
}

impl MemoryRegion {
    /// The first address of the region.
    pub closed spec fn spec_base(&self) -> usize {
        self.base
    }

    /// The number of bytes in the region.
    pub closed spec fn spec_len(&self) -> usize {
        self.len
    }

    /// The kind of the region.
    pub closed spec fn spec_typ(&self) -> MemoryRegionType {
        self.typ
    }

    /// The first address past the region.
    pub open spec fn spec_end(&self) -> int {
        self.spec_base() + self.spec_len()
    }

    /// A region holds at least one byte and ends within the address space.
    #[verifier::type_invariant]
    pub open spec fn wf(&self) -> bool {
        self.spec_len() > 0 && self.spec_end() <= usize::MAX
    }

    /// The region runs from `base` up to, not including, `end`, and has kind `typ`.
    pub open spec fn spans(&self, base: int, end: int, typ: MemoryRegionType) -> bool {
        self.spec_base() == base && self.spec_end() == end && self.spec_typ() == typ
    }

    /// The byte at `addr` belongs to the region.
    pub open spec fn spec_contains(&self, addr: int) -> bool {
        self.spec_base() <= addr < self.spec_end()
    }

    /// The two regions share at least one byte.
    pub open spec fn spec_overlaps(&self, other: &MemoryRegion) -> bool {
        vstd::math::max(self.spec_base() as int, other.spec_base() as int) < vstd::math::min(
            self.spec_end(),
            other.spec_end(),
        )
    }

    /// What `split` leaves of the region: below the carved range the bytes from
    /// the region's base up to the range, above it the bytes from the end of the
    /// range up to the region's end, each only where such bytes exist.
    pub open spec fn is_residue(&self, carve: &MemoryRegion, residue: Residue) -> bool {
        &&& residue.below is Some <==> self.spec_base() < carve.spec_base()
        &&& residue.below matches Some(b) ==> b.wf() && b.spans(
            self.spec_base() as int,
            vstd::math::min(self.spec_end(), carve.spec_base() as int),
            self.spec_typ(),
        )
        &&& residue.above is Some <==> carve.spec_end() < self.spec_end()
        &&& residue.above matches Some(a) ==> a.wf() && a.spans(
            vstd::math::max(self.spec_base() as int, carve.spec_end()),
            self.spec_end(),
            self.spec_typ(),
        )
    }

    /// The region of `len` bytes from `base` on, of kind `typ`.
    ///
    /// A region without bytes is refused, and so is one whose end does not fit
    /// in an address.
    pub fn new(base: usize, len: usize, typ: MemoryRegionType) -> (r: Result<
        MemoryRegion,
        RegionError,
    >)
        ensures
            len == 0 ==> r == Err::<MemoryRegion, RegionError>(RegionError::ZeroLength),
            len > 0 && base + len > usize::MAX ==> r == Err::<MemoryRegion, RegionError>(
                RegionError::Overflow,
            ),
            len > 0 && base + len <= usize::MAX ==> r is Ok && r->Ok_0.wf() && r->Ok_0.spans(
                base as int,
                base + len,
                typ,
            ),
    {
        if len == 0 {
            Err(RegionError::ZeroLength)
        } else if len > usize::MAX - base {
            Err(RegionError::Overflow)
        } else {
            Ok(MemoryRegion { base, len, typ })
        }
    }

    /// The region from `base` up to, not including, `end`.
    pub(crate) fn from_bounds(base: usize, end: usize, typ: MemoryRegionType) -> (r: MemoryRegion)
        requires
            base < end,
        ensures
            r.wf(),
            r.spans(base as int, end as int, typ),
    {
        MemoryRegion { base, len: end - base, typ }
    }

    /// The first address of the region.
    #[verifier::when_used_as_spec(spec_base)]
    pub fn base(&self) -> (b: usize)
        ensures
            b == self.spec_base(),
    {
        self.base
    }

    /// The number of bytes in the region.
    #[verifier::when_used_as_spec(spec_len)]
    pub fn len(&self) -> (n: usize)
        ensures
            n == self.spec_len(),
            n > 0,
    {
        proof {
            use_type_invariant(self);
        }
        self.len
    }

    /// The first address past the region.
    pub fn end(&self) -> (e: usize)
        ensures
            e == self.spec_end(),
            e > self.spec_base(),
    {
        proof {
            use_type_invariant(self);
        }
        self.base + self.len
    }

    /// The kind of the region.
    #[verifier::when_used_as_spec(spec_typ)]
    pub fn typ(&self) -> (t: MemoryRegionType)
        ensures
            t == self.spec_typ(),
    {
        self.typ
    }

    /// Whether the byte at `addr` belongs to the region.
    pub fn contains(&self, addr: usize) -> (b: bool)
        ensures
            b == self.spec_contains(addr as int),
    {
        proof {
            use_type_invariant(self);
        }
        self.base <= addr && addr - self.base < self.len
    }

    /// Whether the two regions share at least one byte.
    pub fn overlaps(&self, other: &MemoryRegion) -> (b: bool)
        ensures
            b == self.spec_overlaps(other),
            b == (exists|addr: int| self.spec_contains(addr) && other.spec_contains(addr)),
    {
        let lo = if self.base >= other.base {
            self.base
        } else {
            other.base
        };
        let self_end = self.end();
        let other_end = other.end();
        let hi = if self_end <= other_end {
            self_end
        } else {
            other_end
        };
        proof {
            if lo < hi {
                assert(self.spec_contains(lo as int) && other.spec_contains(lo as int));
            }
        }
        lo < hi
    }

    /// Carves the range of `carve` out of the region and returns what is left
    /// of it, in the region's own kind.
    ///
    /// A region that `carve` does not touch is returned whole, below or above
    /// the range; one that `carve` covers leaves nothing.
    pub fn split(&self, carve: &MemoryRegion) -> (residue: Residue)
        ensures
            self.is_residue(carve, residue),
    {
        let self_end = self.end();
        let carve_end = carve.end();
        let below = if self.base < carve.base {
            let end = if self_end <= carve.base {
                self_end
            } else {
                carve.base
            };
            Some(MemoryRegion::from_bounds(self.base, end, self.typ))
        } else {
            None
        };
        let above = if carve_end < self_end {
            let base = if self.base >= carve_end {
                self.base
            } else {
                carve_end
            };
            Some(MemoryRegion::from_bounds(base, self_end, self.typ))
        } else {
            None
        };
        Residue { below, above }
    }

    /// A region is no more than its base, its length and its kind: two regions
    /// that agree on the three are the same region.
    pub proof fn lemma_same_span_same_region(a: MemoryRegion, b: MemoryRegion)
        requires
            a.spec_base() == b.spec_base(),
            a.spec_end() == b.spec_end(),
            a.spec_typ() == b.spec_typ(),
        ensures
            a == b,
    {
    }

    /// What `split` leaves holds exactly the bytes of the region that lie
    /// outside the carved range, and the part below comes before the part above.
    pub proof fn lemma_residue_covers(whole: MemoryRegion, carve: MemoryRegion, residue: Residue)
        requires
            whole.wf(),
            carve.wf(),
            whole.is_residue(&carve, residue),
        ensures
            forall|addr: int|
                (whole.spec_contains(addr) && !carve.spec_contains(addr)) <==> ((residue.below
                    matches Some(b) && b.spec_contains(addr)) || (residue.above matches Some(a)
                    && a.spec_contains(addr))),
            residue.below matches Some(b) ==> (residue.above matches Some(a) ==> b.spec_end()
                < a.spec_base()),
    {
    }
}

} // verus!
