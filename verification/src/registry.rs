//! The registry of boot init callbacks.
//!
//! The code that knows a boot protocol registers one callback for each boot
//! fact, while the heap may not be up yet. Later a single pass calls them all,
//! in the order in which the facts are declared, and fills the slots with
//! what they offer.

use crate::boot::{
    filled, memory_map_taken, BootError, BootFact, BootFacts, BootFactsView, BootloaderAcpiArg,
    BootloaderFramebufferArg,
};
use crate::coordinator::{noted, verdict, InitCoordinator, InitError, InitStage, InitState, InitStep};
use crate::memory_region::MemoryRegion;
use vstd::prelude::*;

verus! {

/// The callbacks by fact. A callback sees the facts that were filled before
/// its turn and offers a value for its own fact, or nothing where the
/// platform has none.
pub struct BootInitCallBacks<N, C, I, A, F, M> {
    /// Offers the name of the bootloader.
    pub bootloader_name: Option<N>,
    /// Offers the kernel command line.
    pub kernel_cmdline: Option<C>,
    /// Offers the memory that holds the initramfs.
    pub initramfs: Option<I>,
    /// Offers the ACPI argument.
    pub acpi_arg: Option<A>,
    /// Offers the framebuffer argument.
    pub framebuffer_arg: Option<F>,
    /// Offers the region reports from which the memory map is made.
    pub memory_regions: Option<M>,
}

/// The callback may be called on any boot facts.
pub open spec fn callable<T, K: Fn(&BootFacts) -> Option<T>>(callback: K) -> bool {
    forall|facts: BootFacts| call_requires(callback, (&facts,))
}

/// What an attempt to register a callback comes to: it is refused once the
/// pass has started, and where the fact has a callback already.
pub open spec fn registration(started: bool, taken: bool) -> Result<(), BootError> {
    if started {
        Err(BootError::PassStarted)
    } else if taken {
        Err(BootError::AlreadyRegistered)
    } else {
        Ok(())
    }
}

/// What one pass over the callbacks did: what each callback offered, and the
/// boot facts before the pass and after each callback's turn.
pub struct PassTrace {
    /// What the callback for the name of the bootloader offered.
    pub bootloader_name: Option<String>,
    /// What the callback for the kernel command line offered.
    pub kernel_cmdline: Option<String>,
    /// What the callback for the initramfs offered.
    pub initramfs: Option<MemoryRegion>,
    /// What the callback for the ACPI argument offered.
    pub acpi_arg: Option<BootloaderAcpiArg>,
    /// What the callback for the framebuffer argument offered.
    pub framebuffer_arg: Option<BootloaderFramebufferArg>,
    /// The region reports that the callback for the memory map offered.
    pub memory_regions: Option<Vec<MemoryRegion>>,
    /// The boot facts before the pass, and after the turn of each callback.
    pub seen: Seq<BootFacts>,
}

impl<N, C, I, A, F, M> BootInitCallBacks<N, C, I, A, F, M> where
    N: Fn(&BootFacts) -> Option<String>,
    C: Fn(&BootFacts) -> Option<String>,
    I: Fn(&BootFacts) -> Option<MemoryRegion>,
    A: Fn(&BootFacts) -> Option<BootloaderAcpiArg>,
    F: Fn(&BootFacts) -> Option<BootloaderFramebufferArg>,
    M: Fn(&BootFacts) -> Option<Vec<MemoryRegion>>,
 {
    /// Whether `fact` has a callback.
    pub open spec fn registered(self, fact: BootFact) -> bool {
        match fact {
            BootFact::BootloaderName => self.bootloader_name is Some,
            BootFact::KernelCmdline => self.kernel_cmdline is Some,
            BootFact::Initramfs => self.initramfs is Some,
            BootFact::AcpiArg => self.acpi_arg is Some,
            BootFact::FramebufferArg => self.framebuffer_arg is Some,
            BootFact::MemoryRegions => self.memory_regions is Some,
        }
    }

    /// Whether any fact has a callback.
    pub open spec fn any_registered(self) -> bool {
        exists|fact: BootFact| self.registered(fact)
    }

    /// Whether every fact has a callback.
    pub open spec fn complete(self) -> bool {
        forall|fact: BootFact| self.registered(fact)
    }

    /// Every callback may be called on any boot facts.
    pub open spec fn all_callable(self) -> bool {
        &&& self.bootloader_name matches Some(cb) ==> callable(cb)
        &&& self.kernel_cmdline matches Some(cb) ==> callable(cb)
        &&& self.initramfs matches Some(cb) ==> callable(cb)
        &&& self.acpi_arg matches Some(cb) ==> callable(cb)
        &&& self.framebuffer_arg matches Some(cb) ==> callable(cb)
        &&& self.memory_regions matches Some(cb) ==> callable(cb)
    }

    /// `trace` is a pass over these callbacks that led from the boot facts
    /// `before` to `after`: the callbacks were called once each, in the order
    /// in which the facts are declared, each on the facts as the callbacks
    /// before it had left them, and each offer went to its own slot, which
    /// took it where it was empty.
    pub open spec fn pass_of(self, before: BootFacts, trace: PassTrace, after: BootFacts) -> bool {
        &&& trace.seen.len() == 7
        &&& trace.seen[0] == before
        &&& trace.seen[6] == after
        &&& self.bootloader_name matches Some(cb) && call_ensures(
            cb,
            (&trace.seen[0],),
            trace.bootloader_name,
        )
        &&& trace.seen[1]@ == (BootFactsView {
            bootloader_name: filled(trace.seen[0]@.bootloader_name, trace.bootloader_name),
            ..trace.seen[0]@
        })
        &&& self.kernel_cmdline matches Some(cb) && call_ensures(
            cb,
            (&trace.seen[1],),
            trace.kernel_cmdline,
        )
        &&& trace.seen[2]@ == (BootFactsView {
            kernel_cmdline: filled(trace.seen[1]@.kernel_cmdline, trace.kernel_cmdline),
            ..trace.seen[1]@
        })
        &&& self.initramfs matches Some(cb) && call_ensures(
            cb,
            (&trace.seen[2],),
            trace.initramfs,
        )
        &&& trace.seen[3]@ == (BootFactsView {
            initramfs: filled(trace.seen[2]@.initramfs, trace.initramfs),
            ..trace.seen[2]@
        })
        &&& self.acpi_arg matches Some(cb) && call_ensures(cb, (&trace.seen[3],), trace.acpi_arg)
        &&& trace.seen[4]@ == (BootFactsView {
            acpi_arg: filled(trace.seen[3]@.acpi_arg, trace.acpi_arg),
            ..trace.seen[3]@
        })
        &&& self.framebuffer_arg matches Some(cb) && call_ensures(
            cb,
            (&trace.seen[4],),
            trace.framebuffer_arg,
        )
        &&& trace.seen[5]@ == (BootFactsView {
            framebuffer_arg: filled(trace.seen[4]@.framebuffer_arg, trace.framebuffer_arg),
            ..trace.seen[4]@
        })
        &&& self.memory_regions matches Some(cb) && call_ensures(
            cb,
            (&trace.seen[5],),
            trace.memory_regions,
        )
        &&& trace.seen[6]@ == (BootFactsView {
            memory_regions: trace.seen[6]@.memory_regions,
            ..trace.seen[5]@
        })
        &&& memory_map_taken(
            trace.seen[5]@.memory_regions,
            trace.memory_regions,
            trace.seen[6]@.memory_regions,
        )
    }
}

/// A pass fills each slot from the offer of its own callback and from nothing
/// else, and it leaves every fact that was known before as it was.
pub proof fn lemma_pass_fills_each_slot_once<N, C, I, A, F, M>(
    table: BootInitCallBacks<N, C, I, A, F, M>,
    before: BootFacts,
    trace: PassTrace,
    after: BootFacts,
) where
    N: Fn(&BootFacts) -> Option<String>,
    C: Fn(&BootFacts) -> Option<String>,
    I: Fn(&BootFacts) -> Option<MemoryRegion>,
    A: Fn(&BootFacts) -> Option<BootloaderAcpiArg>,
    F: Fn(&BootFacts) -> Option<BootloaderFramebufferArg>,
    M: Fn(&BootFacts) -> Option<Vec<MemoryRegion>>,

    requires
        table.pass_of(before, trace, after),
    ensures
        after@.bootloader_name == filled(before@.bootloader_name, trace.bootloader_name),
        after@.kernel_cmdline == filled(before@.kernel_cmdline, trace.kernel_cmdline),
        after@.initramfs == filled(before@.initramfs, trace.initramfs),
        after@.acpi_arg == filled(before@.acpi_arg, trace.acpi_arg),
        after@.framebuffer_arg == filled(before@.framebuffer_arg, trace.framebuffer_arg),
        memory_map_taken(before@.memory_regions, trace.memory_regions, after@.memory_regions),
        before@.bootloader_name is Some ==> after@.bootloader_name == before@.bootloader_name,
        before@.kernel_cmdline is Some ==> after@.kernel_cmdline == before@.kernel_cmdline,
        before@.initramfs is Some ==> after@.initramfs == before@.initramfs,
        before@.acpi_arg is Some ==> after@.acpi_arg == before@.acpi_arg,
        before@.framebuffer_arg is Some ==> after@.framebuffer_arg == before@.framebuffer_arg,
        before@.memory_regions is Some ==> after@.memory_regions == before@.memory_regions,
        forall|fact: BootFact| before@.populated(fact) ==> after@.populated(fact),
{
}

/// The registry: the callbacks registered so far, and whether the pass over
/// them has started.
pub struct BootInitRegistry<N, C, I, A, F, M> {
    table: BootInitCallBacks<N, C, I, A, F, M>,
    started: bool,
}

impl<N, C, I, A, F, M> BootInitRegistry<N, C, I, A, F, M> where
    N: Fn(&BootFacts) -> Option<String>,
    C: Fn(&BootFacts) -> Option<String>,
    I: Fn(&BootFacts) -> Option<MemoryRegion>,
    A: Fn(&BootFacts) -> Option<BootloaderAcpiArg>,
    F: Fn(&BootFacts) -> Option<BootloaderFramebufferArg>,
    M: Fn(&BootFacts) -> Option<Vec<MemoryRegion>>,
 {
    /// The callbacks registered so far.
    pub closed spec fn table(&self) -> BootInitCallBacks<N, C, I, A, F, M> {
        self.table
    }

    /// Whether the pass over the callbacks has started.
    pub closed spec fn started(&self) -> bool {
        self.started
    }

    /// Every registered callback may be called on any boot facts.
    pub open spec fn wf(&self) -> bool {
        self.table().all_callable()
    }

    /// A registry without callbacks, whose pass has not started.
    pub fn new() -> (registry: Self)
        ensures
            registry.wf(),
            !registry.started(),
            !registry.table().any_registered(),
    {
        BootInitRegistry {
            table: BootInitCallBacks {
                bootloader_name: None,
                kernel_cmdline: None,
                initramfs: None,
                acpi_arg: None,
                framebuffer_arg: None,
                memory_regions: None,
            },
            started: false,
        }
    }

    /// Whether `fact` has a callback.
    pub fn is_registered(&self, fact: BootFact) -> (b: bool)
        ensures
            b == self.table().registered(fact),
    {
        match fact {
            BootFact::BootloaderName => self.table.bootloader_name.is_some(),
            BootFact::KernelCmdline => self.table.kernel_cmdline.is_some(),
            BootFact::Initramfs => self.table.initramfs.is_some(),
            BootFact::AcpiArg => self.table.acpi_arg.is_some(),
            BootFact::FramebufferArg => self.table.framebuffer_arg.is_some(),
            BootFact::MemoryRegions => self.table.memory_regions.is_some(),
        }
    }

    /// Whether every fact has a callback.
    pub fn is_complete(&self) -> (b: bool)
        ensures
            b == self.table().complete(),
    {
        let b = self.table.bootloader_name.is_some() && self.table.kernel_cmdline.is_some()
            && self.table.initramfs.is_some() && self.table.acpi_arg.is_some()
            && self.table.framebuffer_arg.is_some() && self.table.memory_regions.is_some();
        proof {
            let t = self.table();
            if b {
                assert forall|fact: BootFact| t.registered(fact) by {}
            } else {
                assert(!t.registered(BootFact::BootloaderName) || !t.registered(
                    BootFact::KernelCmdline,
                ) || !t.registered(BootFact::Initramfs) || !t.registered(BootFact::AcpiArg)
                    || !t.registered(BootFact::FramebufferArg) || !t.registered(
                    BootFact::MemoryRegions,
                ));
            }
        }
        b
    }

    /// Whether the pass over the callbacks has started.
    pub fn has_started(&self) -> (b: bool)
        ensures
            b == self.started(),
    {
        self.started
    }

    /// Registers the callback for the name of the bootloader.
    pub fn register_bootloader_name(&mut self, callback: N) -> (r: Result<(), BootError>)
        requires
            old(self).wf(),
            callable(callback),
        ensures
            final(self).wf(),
            final(self).started() == old(self).started(),
            r == registration(old(self).started(), old(self).table().bootloader_name is Some),
            final(self).table() == if r is Ok {
                BootInitCallBacks { bootloader_name: Some(callback), ..old(self).table() }
            } else {
                old(self).table()
            },
    {
        if self.started {
            Err(BootError::PassStarted)
        } else if self.table.bootloader_name.is_some() {
            Err(BootError::AlreadyRegistered)
        } else {
            self.table.bootloader_name = Some(callback);
            Ok(())
        }
    }

    /// Registers the callback for the kernel command line.
    pub fn register_kernel_cmdline(&mut self, callback: C) -> (r: Result<(), BootError>)
        requires
            old(self).wf(),
            callable(callback),
        ensures
            final(self).wf(),
            final(self).started() == old(self).started(),
            r == registration(old(self).started(), old(self).table().kernel_cmdline is Some),
            final(self).table() == if r is Ok {
                BootInitCallBacks { kernel_cmdline: Some(callback), ..old(self).table() }
            } else {
                old(self).table()
            },
    {
        if self.started {
            Err(BootError::PassStarted)
        } else if self.table.kernel_cmdline.is_some() {
            Err(BootError::AlreadyRegistered)
        } else {
            self.table.kernel_cmdline = Some(callback);
            Ok(())
        }
    }

    /// Registers the callback for the initramfs.
    pub fn register_initramfs(&mut self, callback: I) -> (r: Result<(), BootError>)
        requires
            old(self).wf(),
            callable(callback),
        ensures
            final(self).wf(),
            final(self).started() == old(self).started(),
            r == registration(old(self).started(), old(self).table().initramfs is Some),
            final(self).table() == if r is Ok {
                BootInitCallBacks { initramfs: Some(callback), ..old(self).table() }
            } else {
                old(self).table()
            },
    {
        if self.started {
            Err(BootError::PassStarted)
        } else if self.table.initramfs.is_some() {
            Err(BootError::AlreadyRegistered)
        } else {
            self.table.initramfs = Some(callback);
            Ok(())
        }
    }

    /// Registers the callback for the ACPI argument.
    pub fn register_acpi_arg(&mut self, callback: A) -> (r: Result<(), BootError>)
        requires
            old(self).wf(),
            callable(callback),
        ensures
            final(self).wf(),
            final(self).started() == old(self).started(),
            r == registration(old(self).started(), old(self).table().acpi_arg is Some),
            final(self).table() == if r is Ok {
                BootInitCallBacks { acpi_arg: Some(callback), ..old(self).table() }
            } else {
                old(self).table()
            },
    {
        if self.started {
            Err(BootError::PassStarted)
        } else if self.table.acpi_arg.is_some() {
            Err(BootError::AlreadyRegistered)
        } else {
            self.table.acpi_arg = Some(callback);
            Ok(())
        }
    }

    /// Registers the callback for the framebuffer argument.
    pub fn register_framebuffer_arg(&mut self, callback: F) -> (r: Result<(), BootError>)
        requires
            old(self).wf(),
            callable(callback),
        ensures
            final(self).wf(),
            final(self).started() == old(self).started(),
            r == registration(old(self).started(), old(self).table().framebuffer_arg is Some),
            final(self).table() == if r is Ok {
                BootInitCallBacks { framebuffer_arg: Some(callback), ..old(self).table() }
            } else {
                old(self).table()
            },
    {
        if self.started {
            Err(BootError::PassStarted)
        } else if self.table.framebuffer_arg.is_some() {
            Err(BootError::AlreadyRegistered)
        } else {
            self.table.framebuffer_arg = Some(callback);
            Ok(())
        }
    }

    /// Registers the callback for the memory map.
    pub fn register_memory_regions(&mut self, callback: M) -> (r: Result<(), BootError>)
        requires
            old(self).wf(),
            callable(callback),
        ensures
            final(self).wf(),
            final(self).started() == old(self).started(),
            r == registration(old(self).started(), old(self).table().memory_regions is Some),
            final(self).table() == if r is Ok {
                BootInitCallBacks { memory_regions: Some(callback), ..old(self).table() }
            } else {
                old(self).table()
            },
    {
        if self.started {
            Err(BootError::PassStarted)
        } else if self.table.memory_regions.is_some() {
            Err(BootError::AlreadyRegistered)
        } else {
            self.table.memory_regions = Some(callback);
            Ok(())
        }
    }

    /// Registers the callbacks for all the boot facts at once.
    ///
    /// The attempt is refused as a whole once the pass has started, and where
    /// any of the facts has a callback already.
    pub fn register_boot_init_callbacks(
        &mut self,
        bootloader_name: N,
        kernel_cmdline: C,
        initramfs: I,
        acpi_arg: A,
        framebuffer_arg: F,
        memory_regions: M,
    ) -> (r: Result<(), BootError>)
        requires
            old(self).wf(),
            callable(bootloader_name),
            callable(kernel_cmdline),
            callable(initramfs),
            callable(acpi_arg),
            callable(framebuffer_arg),
            callable(memory_regions),
        ensures
            final(self).wf(),
            final(self).started() == old(self).started(),
            r == registration(old(self).started(), old(self).table().any_registered()),
            final(self).table() == if r is Ok {
                BootInitCallBacks {
                    bootloader_name: Some(bootloader_name),
                    kernel_cmdline: Some(kernel_cmdline),
                    initramfs: Some(initramfs),
                    acpi_arg: Some(acpi_arg),
                    framebuffer_arg: Some(framebuffer_arg),
                    memory_regions: Some(memory_regions),
                }
            } else {
                old(self).table()
            },
            r is Ok ==> final(self).table().complete(),
    {
        if self.started {
            return Err(BootError::PassStarted);
        }
        let any = self.table.bootloader_name.is_some() || self.table.kernel_cmdline.is_some()
            || self.table.initramfs.is_some() || self.table.acpi_arg.is_some()
            || self.table.framebuffer_arg.is_some() || self.table.memory_regions.is_some();
        proof {
            let t = self.table();
            if any {
                assert(t.registered(BootFact::BootloaderName) || t.registered(
                    BootFact::KernelCmdline,
                ) || t.registered(BootFact::Initramfs) || t.registered(BootFact::AcpiArg)
                    || t.registered(BootFact::FramebufferArg) || t.registered(
                    BootFact::MemoryRegions,
                ));
            } else {
                assert forall|fact: BootFact| !t.registered(fact) by {}
            }
        }
        if any {
            return Err(BootError::AlreadyRegistered);
        }
        self.table = BootInitCallBacks {
            bootloader_name: Some(bootloader_name),
            kernel_cmdline: Some(kernel_cmdline),
            initramfs: Some(initramfs),
            acpi_arg: Some(acpi_arg),
            framebuffer_arg: Some(framebuffer_arg),
            memory_regions: Some(memory_regions),
        };
        proof {
            let t = self.table();
            assert forall|fact: BootFact| t.registered(fact) by {}
        }
        Ok(())
    }

    /// Calls every callback once, in the order in which the facts are
    /// declared, and fills the slots of `facts` with what they offer.
    ///
    /// The pass is refused where it has started before, and where a fact has
    /// no callback: then no callback is called and `facts` stay as they are.
    pub fn call_all_boot_init_callbacks(&mut self, facts: &mut BootFacts) -> (r: Result<
        (),
        BootError,
    >)
        requires
            old(self).wf(),
        ensures
            final(self).wf(),
            final(self).table() == old(self).table(),
            r == if old(self).started() {
                Err::<(), BootError>(BootError::PassStarted)
            } else if !old(self).table().complete() {
                Err::<(), BootError>(BootError::NotRegistered)
            } else {
                Ok::<(), BootError>(())
            },
            final(self).started() == (old(self).started() || r is Ok),
            r is Err ==> *final(facts) == *old(facts),
            r is Ok ==> exists|trace: PassTrace|
                old(self).table().pass_of(*old(facts), trace, *final(facts)),
    {
        if self.started {
            return Err(BootError::PassStarted);
        }
        if !self.is_complete() {
            return Err(BootError::NotRegistered);
        }
        let ghost table = self.table();
        proof {
            assert(table.registered(BootFact::BootloaderName));
            assert(table.registered(BootFact::KernelCmdline));
            assert(table.registered(BootFact::Initramfs));
            assert(table.registered(BootFact::AcpiArg));
            assert(table.registered(BootFact::FramebufferArg));
            assert(table.registered(BootFact::MemoryRegions));
        }
        let ghost seen0 = *facts;
        let name = match &self.table.bootloader_name {
            Some(callback) => callback(&*facts),
            None => None,
        };
        let ghost offer0 = name;
        facts.offer_bootloader_name(name);
        let ghost seen1 = *facts;
        let cmdline = match &self.table.kernel_cmdline {
            Some(callback) => callback(&*facts),
            None => None,
        };
        let ghost offer1 = cmdline;
        facts.offer_kernel_cmdline(cmdline);
        let ghost seen2 = *facts;
        let initramfs = match &self.table.initramfs {
            Some(callback) => callback(&*facts),
            None => None,
        };
        let ghost offer2 = initramfs;
        facts.offer_initramfs(initramfs);
        let ghost seen3 = *facts;
        let acpi = match &self.table.acpi_arg {
            Some(callback) => callback(&*facts),
            None => None,
        };
        let ghost offer3 = acpi;
        facts.offer_acpi_arg(acpi);
        let ghost seen4 = *facts;
        let framebuffer = match &self.table.framebuffer_arg {
            Some(callback) => callback(&*facts),
            None => None,
        };
        let ghost offer4 = framebuffer;
        facts.offer_framebuffer_arg(framebuffer);
        let ghost seen5 = *facts;
        let reports = match &self.table.memory_regions {
            Some(callback) => callback(&*facts),
            None => None,
        };
        let ghost offer5 = reports;
        facts.offer_memory_regions(reports);
        let ghost seen6 = *facts;
        self.started = true;
        proof {
            let trace = PassTrace {
                bootloader_name: offer0,
                kernel_cmdline: offer1,
                initramfs: offer2,
                acpi_arg: offer3,
                framebuffer_arg: offer4,
                memory_regions: offer5,
                seen: seq![seen0, seen1, seen2, seen3, seen4, seen5, seen6],
            };
            assert(table.pass_of(seen0, trace, seen6));
        }
        Ok(())
    }

    /// Takes the last two steps of early initialisation, for which the heap
    /// has to be up: it checks that every boot fact has its callback and that
    /// the pass has not started, and then calls the callbacks.
    ///
    /// The coordinator has to be at the stage where the heap is ready, on the
    /// bootstrap processor, and not halted: else it refuses the first step
    /// and nothing changes. Where a callback is missing, or the pass has
    /// started before, the first step fails, the boot is halted and the facts
    /// stay as they are. Else the facts are filled and the coordinator is
    /// at its last stage.
    pub fn populate_boot_facts(
        &mut self,
        coordinator: &mut InitCoordinator,
        hart: usize,
        facts: &mut BootFacts,
    ) -> (r: Result<(), InitError>)
        requires
            old(self).wf(),
        ensures
            final(self).wf(),
            final(self).table() == old(self).table(),
            match verdict(
                old(coordinator)@,
                hart,
                InitStep::RegisterFacts,
                old(self).table().complete() && !old(self).started(),
            ) {
                Err(e) => r == Err::<(), InitError>(e) && final(coordinator)@ == noted(
                    old(coordinator)@,
                    hart,
                    InitStep::RegisterFacts,
                    old(self).table().complete() && !old(self).started(),
                ) && *final(facts) == *old(facts) && final(self).started() == old(self).started(),
                Ok(_) => r == Ok::<(), InitError>(()) && final(coordinator)@ == (InitState {
                    stage: InitStage::FactsPopulated,
                    ..old(coordinator)@
                }) && final(self).started() && exists|trace: PassTrace|
                    old(self).table().pass_of(*old(facts), trace, *final(facts)),
            },
    {
        let registered = self.is_complete() && !self.has_started();
        match coordinator.complete(hart, InitStep::RegisterFacts, registered) {
            Err(e) => {
                return Err(e);
            },
            Ok(_) => {},
        }
        let pass = self.call_all_boot_init_callbacks(facts);
        match coordinator.complete(hart, InitStep::PopulateFacts, pass.is_ok()) {
            Ok(_) => Ok(()),
            Err(e) => Err(e),
        }
    }
}

} // verus!
