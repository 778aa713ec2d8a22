//! Boot facts: what the bootloader told the kernel, kept in write-once slots.

use crate::memory_region::MemoryRegion;
use crate::reconcile::{is_memory_map, non_overlapping_regions_from, reconciles};
use vstd::prelude::*;

verus! {

/// ACPI information from the bootloader.
///
/// Bootloaders differ: some hand over the physical address of the RSDP,
/// others that of the RSDT or XSDT that they found through it.
#[derive(Clone, Copy, Debug, PartialEq, Eq, Structural)]
pub enum BootloaderAcpiArg {
    /// The bootloader does not provide one, a manual search is needed.
    NotProvided,
    /// Physical address of the RSDP.
    Rsdp(usize),
    /// Address of RSDT provided in RSDP v1.
    Rsdt(usize),
    /// Address of XSDT provided in RSDP v2+.
    Xsdt(usize),
}

/// The framebuffer arguments.
#[derive(Clone, Copy, Debug, PartialEq, Eq, Structural)]
pub struct BootloaderFramebufferArg {
    /// The address of the buffer.
    pub address: usize,
    /// The width of the buffer.
    pub width: usize,
    /// The height of the buffer.
    pub height: usize,
    /// Bits per pixel of the buffer.
    pub bpp: usize,
}

/// The boot facts by name, in the order in which they are declared and in
/// which the pass over the callbacks fills them.
#[derive(Clone, Copy, Debug, PartialEq, Eq, Structural)]
pub enum BootFact {
    /// The name of the bootloader.
    BootloaderName,
    /// The kernel command line.
    KernelCmdline,
    /// The memory that holds the initramfs.
    Initramfs,
    /// The ACPI argument.
    AcpiArg,
    /// The framebuffer argument.
    FramebufferArg,
    /// The memory map.
    MemoryRegions,
}

/// Why an operation on the boot facts was refused.
#[derive(Clone, Copy, Debug, PartialEq, Eq, Structural)]
pub enum BootError {
    /// The slot holds a value already.
    AlreadyInitialized,
    /// A callback for the fact is registered already.
    AlreadyRegistered,
    /// The pass over the callbacks has started already.
    PassStarted,
    /// A fact has no callback yet.
    NotRegistered,
}

/// A slot for one boot fact: empty at first, filled at most once, and never
/// changed after that.
pub struct BootFactSlot<T> {
    value: Option<T>,
}

impl<T> View for BootFactSlot<T> {
    type V = Option<T>;

    closed spec fn view(&self) -> Option<T> {
        self.value
    }
}

/// What a slot holds after `offer` was made to it: the offer where the slot
/// was empty, and what it held before where it was not.
pub open spec fn filled<T>(held: Option<T>, offer: Option<T>) -> Option<T> {
    if held is Some {
        held
    } else {
        offer
    }
}

impl<T> BootFactSlot<T> {
    /// An empty slot.
    pub fn new() -> (slot: Self)
        ensures
            slot@ is None,
    {
        BootFactSlot { value: None }
    }

    /// Fills the slot with `value`, unless it holds a value already: then the
    /// slot stays as it is and the attempt is refused.
    pub fn initialize(&mut self, value: T) -> (r: Result<(), BootError>)
        ensures
            final(self)@ == filled(old(self)@, Some(value)),
            r == if old(self)@ is None {
                Ok::<(), BootError>(())
            } else {
                Err::<(), BootError>(BootError::AlreadyInitialized)
            },
    {
        if self.value.is_some() {
            Err(BootError::AlreadyInitialized)
        } else {
            self.value = Some(value);
            Ok(())
        }
    }

    /// Whether the slot holds a value.
    pub fn is_initialized(&self) -> (b: bool)
        ensures
            b == (self@ is Some),
    {
        self.value.is_some()
    }

    /// The value of a filled slot.
    pub fn get(&self) -> (value: &T)
        requires
            self@ is Some,
        ensures
            Some(*value) == self@,
    {
        self.value.as_ref().unwrap()
    }

    /// The value of the slot, if it holds one.
    pub fn try_get(&self) -> (value: Option<&T>)
        ensures
            value is Some == self@ is Some,
            value matches Some(v) ==> Some(*v) == self@,
    {
        self.value.as_ref()
    }
}


impl<T> BootFactSlot<T> {
    /// Makes `offer` to the slot: an empty slot takes it, a filled one stays
    /// as it is.
    fn offer(&mut self, offer: Option<T>)
        ensures
            final(self)@ == filled(old(self)@, offer),
        no_unwind
    {
        if let None = self.value {
            self.value = offer;
        }
    }
}

/// Once a slot is filled, no later offer changes it.
pub proof fn lemma_filled_once<T>(held: Option<T>, first: T, later: Option<T>)
    ensures
        filled(filled(held, Some(first)), later) == filled(held, Some(first)),
        filled(held, Some(first)) is Some,
        held is Some ==> filled(held, later) == held,
{
}

/// The boot facts of one kernel: a slot for each of them.
///
/// The slots are empty until the pass over the boot init callbacks fills
/// them, and a filled slot keeps its value. A memory map, once it is there,
/// is in ascending order, without shared bytes, and joined where it can be.
pub struct BootFacts {
    bootloader_name: BootFactSlot<String>,
    kernel_cmdline: BootFactSlot<String>,
    initramfs: BootFactSlot<MemoryRegion>,
    acpi_arg: BootFactSlot<BootloaderAcpiArg>,
    framebuffer_arg: BootFactSlot<BootloaderFramebufferArg>,
    memory_regions: BootFactSlot<Vec<MemoryRegion>>,
}

/// What the slots of the boot facts hold.
pub struct BootFactsView {
    /// The name of the bootloader.
    pub bootloader_name: Option<String>,
    /// The kernel command line.
    pub kernel_cmdline: Option<String>,
    /// The memory that holds the initramfs.
    pub initramfs: Option<MemoryRegion>,
    /// The ACPI argument.
    pub acpi_arg: Option<BootloaderAcpiArg>,
    /// The framebuffer argument.
    pub framebuffer_arg: Option<BootloaderFramebufferArg>,
    /// The memory map.
    pub memory_regions: Option<Vec<MemoryRegion>>,
}

impl BootFactsView {
    /// Whether the slot of `fact` is filled.
    pub open spec fn populated(self, fact: BootFact) -> bool {
        match fact {
            BootFact::BootloaderName => self.bootloader_name is Some,
            BootFact::KernelCmdline => self.kernel_cmdline is Some,
            BootFact::Initramfs => self.initramfs is Some,
            BootFact::AcpiArg => self.acpi_arg is Some,
            BootFact::FramebufferArg => self.framebuffer_arg is Some,
            BootFact::MemoryRegions => self.memory_regions is Some,
        }
    }
}

impl View for BootFacts {
    type V = BootFactsView;

    closed spec fn view(&self) -> BootFactsView {
        BootFactsView {
            bootloader_name: self.bootloader_name@,
            kernel_cmdline: self.kernel_cmdline@,
            initramfs: self.initramfs@,
            acpi_arg: self.acpi_arg@,
            framebuffer_arg: self.framebuffer_arg@,
            memory_regions: self.memory_regions@,
        }
    }
}

impl BootFacts {
    /// The memory map, where there is one, is a memory map.
    #[verifier::type_invariant]
    pub closed spec fn wf(&self) -> bool {
        self.memory_regions@ matches Some(map) ==> is_memory_map(map@)
    }

    /// Boot facts of which none is known yet.
    pub fn new() -> (facts: Self)
        ensures
            forall|fact: BootFact| !facts@.populated(fact),
    {
        BootFacts {
            bootloader_name: BootFactSlot::new(),
            kernel_cmdline: BootFactSlot::new(),
            initramfs: BootFactSlot::new(),
            acpi_arg: BootFactSlot::new(),
            framebuffer_arg: BootFactSlot::new(),
            memory_regions: BootFactSlot::new(),
        }
    }

    /// Whether the slot of `fact` is filled, so that its getter may be called.
    pub fn is_populated(&self, fact: BootFact) -> (b: bool)
        ensures
            b == self@.populated(fact),
    {
        match fact {
            BootFact::BootloaderName => self.bootloader_name.is_initialized(),
            BootFact::KernelCmdline => self.kernel_cmdline.is_initialized(),
            BootFact::Initramfs => self.initramfs.is_initialized(),
            BootFact::AcpiArg => self.acpi_arg.is_initialized(),
            BootFact::FramebufferArg => self.framebuffer_arg.is_initialized(),
            BootFact::MemoryRegions => self.memory_regions.is_initialized(),
        }
    }

    /// The name of the bootloader.
    pub fn bootloader_name(&self) -> (name: &String)
        requires
            self@.bootloader_name is Some,
        ensures
            Some(*name) == self@.bootloader_name,
    {
        self.bootloader_name.get()
    }

    /// The kernel command line.
    pub fn kernel_cmdline(&self) -> (cmdline: &String)
        requires
            self@.kernel_cmdline is Some,
        ensures
            Some(*cmdline) == self@.kernel_cmdline,
    {
        self.kernel_cmdline.get()
    }

    /// The memory that holds the initramfs.
    pub fn initramfs(&self) -> (span: &MemoryRegion)
        requires
            self@.initramfs is Some,
        ensures
            Some(*span) == self@.initramfs,
    {
        self.initramfs.get()
    }

    /// The ACPI argument.
    pub fn acpi_arg(&self) -> (arg: &BootloaderAcpiArg)
        requires
            self@.acpi_arg is Some,
        ensures
            Some(*arg) == self@.acpi_arg,
    {
        self.acpi_arg.get()
    }

    /// The framebuffer argument.
    pub fn framebuffer_arg(&self) -> (arg: &BootloaderFramebufferArg)
        requires
            self@.framebuffer_arg is Some,
        ensures
            Some(*arg) == self@.framebuffer_arg,
    {
        self.framebuffer_arg.get()
    }

    /// The memory map.
    pub fn memory_regions(&self) -> (map: &Vec<MemoryRegion>)
        requires
            self@.memory_regions is Some,
        ensures
            Some(*map) == self@.memory_regions,
            is_memory_map(map@),
    {
        proof {
            use_type_invariant(self);
        }
        self.memory_regions.get()
    }
}

/// What the slot of the memory map holds after `reports` were offered to it:
/// what it held before where it was filled, and else the memory map of the
/// reports, where there are any.
pub open spec fn memory_map_taken(
    held: Option<Vec<MemoryRegion>>,
    reports: Option<Vec<MemoryRegion>>,
    now: Option<Vec<MemoryRegion>>,
) -> bool {
    if held is Some {
        now == held
    } else {
        match reports {
            None => now is None,
            Some(r) => now matches Some(map) && reconciles(map@, r@),
        }
    }
}

impl BootFacts {
    /// Offers a name of the bootloader to its slot.
    pub(crate) fn offer_bootloader_name(&mut self, offer: Option<String>)
        ensures
            final(self)@ == (BootFactsView {
                bootloader_name: filled(old(self)@.bootloader_name, offer),
                ..old(self)@
            }),
    {
        proof {
            use_type_invariant(&*self);
        }
        self.bootloader_name.offer(offer);
    }

    /// Offers a kernel command line to its slot.
    pub(crate) fn offer_kernel_cmdline(&mut self, offer: Option<String>)
        ensures
            final(self)@ == (BootFactsView {
                kernel_cmdline: filled(old(self)@.kernel_cmdline, offer),
                ..old(self)@
            }),
    {
        proof {
            use_type_invariant(&*self);
        }
        self.kernel_cmdline.offer(offer);
    }

    /// Offers the memory of the initramfs to its slot.
    pub(crate) fn offer_initramfs(&mut self, offer: Option<MemoryRegion>)
        ensures
            final(self)@ == (BootFactsView {
                initramfs: filled(old(self)@.initramfs, offer),
                ..old(self)@
            }),
    {
        proof {
            use_type_invariant(&*self);
        }
        self.initramfs.offer(offer);
    }

    /// Offers an ACPI argument to its slot.
    pub(crate) fn offer_acpi_arg(&mut self, offer: Option<BootloaderAcpiArg>)
        ensures
            final(self)@ == (BootFactsView {
                acpi_arg: filled(old(self)@.acpi_arg, offer),
                ..old(self)@
            }),
    {
        proof {
            use_type_invariant(&*self);
        }
        self.acpi_arg.offer(offer);
    }

    /// Offers a framebuffer argument to its slot.
    pub(crate) fn offer_framebuffer_arg(&mut self, offer: Option<BootloaderFramebufferArg>)
        ensures
            final(self)@ == (BootFactsView {
                framebuffer_arg: filled(old(self)@.framebuffer_arg, offer),
                ..old(self)@
            }),
    {
        proof {
            use_type_invariant(&*self);
        }
        self.framebuffer_arg.offer(offer);
    }

    /// Offers region reports to the slot of the memory map, which takes their
    /// memory map.
    pub(crate) fn offer_memory_regions(&mut self, reports: Option<Vec<MemoryRegion>>)
        ensures
            memory_map_taken(old(self)@.memory_regions, reports, final(self)@.memory_regions),
            final(self)@ == (BootFactsView {
                memory_regions: final(self)@.memory_regions,
                ..old(self)@
            }),
    {
        proof {
            use_type_invariant(&*self);
        }
        if !self.memory_regions.is_initialized() {
            if let Some(r) = reports {
                let map = non_overlapping_regions_from(r.as_slice());
                self.memory_regions.offer(Some(map));
            }
        }
    }
}

} // verus!
