use aster_early_init::boot::{
    BootError, BootFact, BootFactSlot, BootFacts, BootloaderAcpiArg, BootloaderFramebufferArg,
};
use aster_early_init::coordinator::{InitCoordinator, InitError, InitStage, InitStep};
use aster_early_init::memory_region::{MemoryRegion, MemoryRegionType};
use aster_early_init::registry::BootInitRegistry;

type Registry = BootInitRegistry<
    fn(&BootFacts) -> Option<String>,
    fn(&BootFacts) -> Option<String>,
    fn(&BootFacts) -> Option<MemoryRegion>,
    fn(&BootFacts) -> Option<BootloaderAcpiArg>,
    fn(&BootFacts) -> Option<BootloaderFramebufferArg>,
    fn(&BootFacts) -> Option<Vec<MemoryRegion>>,
>;

const FACTS: [BootFact; 6] = [
    BootFact::BootloaderName,
    BootFact::KernelCmdline,
    BootFact::Initramfs,
    BootFact::AcpiArg,
    BootFact::FramebufferArg,
    BootFact::MemoryRegions,
];

fn region(base: usize, len: usize, typ: MemoryRegionType) -> MemoryRegion {
    MemoryRegion::new(base, len, typ).unwrap()
}

fn name(_: &BootFacts) -> Option<String> {
    Some(String::from("Unknown"))
}

fn other_name(_: &BootFacts) -> Option<String> {
    Some(String::from("Other"))
}

fn cmdline(_: &BootFacts) -> Option<String> {
    Some(String::from("console=ttyS0 init=/sbin/init"))
}

fn initramfs(_: &BootFacts) -> Option<MemoryRegion> {
    Some(region(0x8400_0000, 0x20_0000, MemoryRegionType::Module))
}

fn no_initramfs(_: &BootFacts) -> Option<MemoryRegion> {
    None
}

fn acpi(_: &BootFacts) -> Option<BootloaderAcpiArg> {
    Some(BootloaderAcpiArg::NotProvided)
}

fn framebuffer(_: &BootFacts) -> Option<BootloaderFramebufferArg> {
    None
}

fn memory(facts: &BootFacts) -> Option<Vec<MemoryRegion>> {
    let mut reports = vec![
        region(0x8000_0000, 0x800_0000, MemoryRegionType::Usable),
        region(0x8000_0000, 0x4_0000, MemoryRegionType::Reserved),
        region(0x8020_0000, 0x80_0000, MemoryRegionType::Kernel),
    ];
    if facts.is_populated(BootFact::Initramfs) {
        reports.push(*facts.initramfs());
    }
    Some(reports)
}

fn registered() -> Registry {
    let mut registry = Registry::new();
    assert_eq!(
        registry.register_boot_init_callbacks(name, cmdline, initramfs, acpi, framebuffer, memory),
        Ok(())
    );
    registry
}

#[test]
fn slot_is_filled_once() {
    let mut slot: BootFactSlot<u32> = BootFactSlot::new();
    assert!(!slot.is_initialized());
    assert_eq!(slot.try_get(), None);
    assert_eq!(slot.initialize(7), Ok(()));
    assert!(slot.is_initialized());
    assert_eq!(*slot.get(), 7);
    assert_eq!(slot.initialize(8), Err(BootError::AlreadyInitialized));
    assert_eq!(*slot.get(), 7);
    assert_eq!(slot.try_get(), Some(&7));
}

#[test]
fn slot_reads_the_same_value_every_time() {
    let mut slot: BootFactSlot<String> = BootFactSlot::new();
    assert_eq!(slot.initialize(String::from("Unknown")), Ok(()));
    let first = slot.get().clone();
    for _ in 0..10 {
        assert_eq!(*slot.get(), first);
        assert_eq!(slot.try_get(), Some(&first));
    }
}

#[test]
fn new_facts_hold_nothing() {
    let facts = BootFacts::new();
    for fact in FACTS {
        assert!(!facts.is_populated(fact));
    }
}

#[test]
fn new_registry_holds_nothing() {
    let registry = Registry::new();
    for fact in FACTS {
        assert!(!registry.is_registered(fact));
    }
    assert!(!registry.is_complete());
    assert!(!registry.has_started());
}

#[test]
fn pass_fills_the_facts() {
    let mut registry = registered();
    assert!(registry.is_complete());
    let mut facts = BootFacts::new();
    assert_eq!(registry.call_all_boot_init_callbacks(&mut facts), Ok(()));
    assert!(registry.has_started());
    assert_eq!(facts.bootloader_name(), "Unknown");
    assert_eq!(facts.kernel_cmdline(), "console=ttyS0 init=/sbin/init");
    assert_eq!(*facts.initramfs(), region(0x8400_0000, 0x20_0000, MemoryRegionType::Module));
    assert_eq!(*facts.acpi_arg(), BootloaderAcpiArg::NotProvided);
    assert!(!facts.is_populated(BootFact::FramebufferArg));
    assert_eq!(
        *facts.memory_regions(),
        vec![
            region(0x8000_0000, 0x4_0000, MemoryRegionType::Reserved),
            region(0x8004_0000, 0x1c_0000, MemoryRegionType::Usable),
            region(0x8020_0000, 0x80_0000, MemoryRegionType::Kernel),
            region(0x80a0_0000, 0x360_0000, MemoryRegionType::Usable),
            region(0x8400_0000, 0x20_0000, MemoryRegionType::Module),
            region(0x8420_0000, 0x3e0_0000, MemoryRegionType::Usable),
        ]
    );
}

#[test]
fn getters_are_idempotent() {
    let mut registry = registered();
    let mut facts = BootFacts::new();
    assert_eq!(registry.call_all_boot_init_callbacks(&mut facts), Ok(()));
    let name = facts.bootloader_name().clone();
    let cmdline = facts.kernel_cmdline().clone();
    let initramfs = *facts.initramfs();
    let acpi = *facts.acpi_arg();
    let map = facts.memory_regions().clone();
    for _ in 0..5 {
        assert_eq!(*facts.bootloader_name(), name);
        assert_eq!(*facts.kernel_cmdline(), cmdline);
        assert_eq!(*facts.initramfs(), initramfs);
        assert_eq!(*facts.acpi_arg(), acpi);
        assert_eq!(*facts.memory_regions(), map);
    }
}

#[test]
fn memory_callback_sees_earlier_facts() {
    let mut registry = Registry::new();
    assert_eq!(
        registry.register_boot_init_callbacks(
            name,
            cmdline,
            no_initramfs,
            acpi,
            framebuffer,
            memory
        ),
        Ok(())
    );
    let mut facts = BootFacts::new();
    assert_eq!(registry.call_all_boot_init_callbacks(&mut facts), Ok(()));
    assert!(!facts.is_populated(BootFact::Initramfs));
    assert_eq!(
        *facts.memory_regions(),
        vec![
            region(0x8000_0000, 0x4_0000, MemoryRegionType::Reserved),
            region(0x8004_0000, 0x1c_0000, MemoryRegionType::Usable),
            region(0x8020_0000, 0x80_0000, MemoryRegionType::Kernel),
            region(0x80a0_0000, 0x760_0000, MemoryRegionType::Usable),
        ]
    );
}

#[test]
fn pass_before_registration_is_rejected() {
    let mut registry = Registry::new();
    let mut facts = BootFacts::new();
    assert_eq!(
        registry.call_all_boot_init_callbacks(&mut facts),
        Err(BootError::NotRegistered)
    );
    assert!(!registry.has_started());
    for fact in FACTS {
        assert!(!facts.is_populated(fact));
    }
}

#[test]
fn pass_with_a_missing_callback_is_rejected() {
    let mut registry = Registry::new();
    assert_eq!(registry.register_bootloader_name(name), Ok(()));
    assert_eq!(registry.register_kernel_cmdline(cmdline), Ok(()));
    assert_eq!(registry.register_initramfs(initramfs), Ok(()));
    assert_eq!(registry.register_acpi_arg(acpi), Ok(()));
    assert_eq!(registry.register_memory_regions(memory), Ok(()));
    assert!(registry.is_registered(BootFact::BootloaderName));
    assert!(!registry.is_registered(BootFact::FramebufferArg));
    assert!(!registry.is_complete());
    let mut facts = BootFacts::new();
    assert_eq!(
        registry.call_all_boot_init_callbacks(&mut facts),
        Err(BootError::NotRegistered)
    );
    for fact in FACTS {
        assert!(!facts.is_populated(fact));
    }
    assert_eq!(registry.register_framebuffer_arg(framebuffer), Ok(()));
    assert!(registry.is_complete());
    assert_eq!(registry.call_all_boot_init_callbacks(&mut facts), Ok(()));
    assert_eq!(facts.bootloader_name(), "Unknown");
}

#[test]
fn second_registration_is_rejected() {
    let mut registry = Registry::new();
    assert_eq!(registry.register_bootloader_name(name), Ok(()));
    assert_eq!(
        registry.register_bootloader_name(other_name),
        Err(BootError::AlreadyRegistered)
    );
    assert_eq!(
        registry.register_boot_init_callbacks(
            other_name,
            cmdline,
            initramfs,
            acpi,
            framebuffer,
            memory
        ),
        Err(BootError::AlreadyRegistered)
    );
    assert!(!registry.is_registered(BootFact::KernelCmdline));
    assert_eq!(registry.register_kernel_cmdline(cmdline), Ok(()));
    assert_eq!(registry.register_initramfs(initramfs), Ok(()));
    assert_eq!(registry.register_acpi_arg(acpi), Ok(()));
    assert_eq!(registry.register_framebuffer_arg(framebuffer), Ok(()));
    assert_eq!(registry.register_memory_regions(memory), Ok(()));
    let mut facts = BootFacts::new();
    assert_eq!(registry.call_all_boot_init_callbacks(&mut facts), Ok(()));
    assert_eq!(facts.bootloader_name(), "Unknown");
}

#[test]
fn registration_after_the_pass_is_rejected() {
    let mut registry = registered();
    let mut facts = BootFacts::new();
    assert_eq!(registry.call_all_boot_init_callbacks(&mut facts), Ok(()));
    assert_eq!(registry.register_bootloader_name(other_name), Err(BootError::PassStarted));
    assert_eq!(registry.register_kernel_cmdline(cmdline), Err(BootError::PassStarted));
    assert_eq!(registry.register_initramfs(initramfs), Err(BootError::PassStarted));
    assert_eq!(registry.register_acpi_arg(acpi), Err(BootError::PassStarted));
    assert_eq!(registry.register_framebuffer_arg(framebuffer), Err(BootError::PassStarted));
    assert_eq!(registry.register_memory_regions(memory), Err(BootError::PassStarted));
    assert_eq!(
        registry.register_boot_init_callbacks(
            other_name,
            cmdline,
            initramfs,
            acpi,
            framebuffer,
            memory
        ),
        Err(BootError::PassStarted)
    );
}

#[test]
fn second_pass_is_rejected() {
    let mut registry = registered();
    let mut facts = BootFacts::new();
    assert_eq!(registry.call_all_boot_init_callbacks(&mut facts), Ok(()));
    assert_eq!(
        registry.call_all_boot_init_callbacks(&mut facts),
        Err(BootError::PassStarted)
    );
    assert_eq!(facts.bootloader_name(), "Unknown");
}

#[test]
fn filled_facts_keep_their_value() {
    let mut first = registered();
    let mut facts = BootFacts::new();
    assert_eq!(first.call_all_boot_init_callbacks(&mut facts), Ok(()));
    let map = facts.memory_regions().clone();
    let mut second = Registry::new();
    assert_eq!(
        second.register_boot_init_callbacks(
            other_name,
            cmdline,
            no_initramfs,
            acpi,
            |_| Some(BootloaderFramebufferArg { address: 0xb8000, width: 80, height: 25, bpp: 16 }),
            |_| Some(vec![region(0, 0x1000, MemoryRegionType::Usable)])
        ),
        Ok(())
    );
    assert_eq!(second.call_all_boot_init_callbacks(&mut facts), Ok(()));
    assert_eq!(facts.bootloader_name(), "Unknown");
    assert_eq!(*facts.initramfs(), region(0x8400_0000, 0x20_0000, MemoryRegionType::Module));
    assert_eq!(*facts.memory_regions(), map);
    assert_eq!(
        *facts.framebuffer_arg(),
        BootloaderFramebufferArg { address: 0xb8000, width: 80, height: 25, bpp: 16 }
    );
}

#[test]
fn acpi_argument_forms() {
    assert_ne!(BootloaderAcpiArg::Rsdp(0x1000), BootloaderAcpiArg::Rsdt(0x1000));
    assert_ne!(BootloaderAcpiArg::Xsdt(0x1000), BootloaderAcpiArg::Xsdt(0x2000));
    assert_eq!(BootloaderAcpiArg::Rsdp(0x1000), BootloaderAcpiArg::Rsdp(0x1000));
    let arg = BootloaderAcpiArg::Xsdt(0xe0000);
    let copy = arg;
    assert_eq!(arg, copy);
}

#[test]
fn fact_steps_need_the_heap() {
    let mut registry = registered();
    let mut coordinator = InitCoordinator::new(0);
    let mut facts = BootFacts::new();
    assert_eq!(
        registry.populate_boot_facts(&mut coordinator, 0, &mut facts),
        Err(InitError::OutOfOrder)
    );
    assert!(!registry.has_started());
    assert!(!coordinator.is_halted());
    assert!(!facts.is_populated(BootFact::BootloaderName));
}

fn at_heap_ready() -> InitCoordinator {
    let mut coordinator = InitCoordinator::new(0);
    for step in [
        InitStep::ArchEarlyInit,
        InitStep::EnableCpuFeatures,
        InitStep::InitSerial,
        InitStep::SetPerCpuBase,
        InitStep::InitHeap,
    ] {
        assert!(coordinator.complete(0, step, true).is_ok());
    }
    coordinator
}

#[test]
fn fact_steps_fill_the_facts() {
    let mut registry = registered();
    let mut coordinator = at_heap_ready();
    let mut facts = BootFacts::new();
    assert_eq!(
        registry.populate_boot_facts(&mut coordinator, 1, &mut facts),
        Err(InitError::NotBootstrapProcessor)
    );
    assert_eq!(registry.populate_boot_facts(&mut coordinator, 0, &mut facts), Ok(()));
    assert_eq!(coordinator.stage(), InitStage::FactsPopulated);
    assert!(coordinator.is_ready());
    assert_eq!(facts.bootloader_name(), "Unknown");
    assert_eq!(
        registry.populate_boot_facts(&mut coordinator, 0, &mut facts),
        Err(InitError::OutOfOrder)
    );
}

#[test]
fn fact_steps_halt_without_callbacks() {
    let mut registry = Registry::new();
    assert_eq!(registry.register_bootloader_name(name), Ok(()));
    let mut coordinator = at_heap_ready();
    let mut facts = BootFacts::new();
    assert_eq!(
        registry.populate_boot_facts(&mut coordinator, 0, &mut facts),
        Err(InitError::StepFailed)
    );
    assert!(coordinator.is_halted());
    assert_eq!(coordinator.stage(), InitStage::HeapReady);
    assert!(!registry.has_started());
    assert!(!facts.is_populated(BootFact::BootloaderName));
}
