use aster_early_init::memory_region::{MemoryRegion, MemoryRegionType, RegionError};
use aster_early_init::sources::{
    collect_reports, has_usable_memory, initramfs_region, memory_map_from_sources, MemoryMapError,
    RawRegion,
};

fn region(base: usize, len: usize, typ: MemoryRegionType) -> MemoryRegion {
    MemoryRegion::new(base, len, typ).unwrap()
}

const KERNEL: RawRegion = RawRegion { base: 0x8020_0000, size: 0x80_0000 };

#[test]
fn initramfs_needs_a_byte() {
    assert_eq!(
        initramfs_region(0x8400_0000, 0x8420_0000),
        Some(region(0x8400_0000, 0x20_0000, MemoryRegionType::Module))
    );
    assert_eq!(initramfs_region(0x8400_0000, 0x8400_0000), None);
    assert_eq!(initramfs_region(0x8400_0000, 0x8000_0000), None);
    assert_eq!(
        initramfs_region(0, usize::MAX),
        Some(region(0, usize::MAX, MemoryRegionType::Module))
    );
}

#[test]
fn reports_come_in_source_order() {
    let usable = [
        RawRegion { base: 0x8000_0000, size: 0x800_0000 },
        RawRegion { base: 0x9000_0000, size: 0 },
        RawRegion { base: 0xa000_0000, size: 0x1000 },
    ];
    let reserved = [RawRegion { base: 0x8000_0000, size: 0x4_0000 }];
    let initramfs = region(0x8400_0000, 0x20_0000, MemoryRegionType::Usable);
    assert_eq!(
        collect_reports(&usable, &reserved, KERNEL, Some(initramfs)),
        Ok(vec![
            region(0x8000_0000, 0x800_0000, MemoryRegionType::Usable),
            region(0xa000_0000, 0x1000, MemoryRegionType::Usable),
            region(0x8000_0000, 0x4_0000, MemoryRegionType::Reserved),
            region(0x8020_0000, 0x80_0000, MemoryRegionType::Kernel),
            region(0x8400_0000, 0x20_0000, MemoryRegionType::Module),
        ])
    );
    assert_eq!(
        collect_reports(&[], &[], KERNEL, None),
        Ok(vec![region(0x8020_0000, 0x80_0000, MemoryRegionType::Kernel)])
    );
}

#[test]
fn first_bad_report_gives_its_error() {
    let good = RawRegion { base: 0x1000, size: 0x1000 };
    let empty = RawRegion { base: 0x1000, size: 0 };
    let wide = RawRegion { base: usize::MAX, size: 2 };
    assert_eq!(collect_reports(&[empty, wide], &[], KERNEL, None), Err(RegionError::Overflow));
    assert_eq!(collect_reports(&[good], &[empty, wide], KERNEL, None), Err(RegionError::ZeroLength));
    assert_eq!(collect_reports(&[good], &[wide, empty], KERNEL, None), Err(RegionError::Overflow));
    assert_eq!(collect_reports(&[wide], &[empty], KERNEL, None), Err(RegionError::Overflow));
    assert_eq!(collect_reports(&[good], &[good], empty, None), Err(RegionError::ZeroLength));
    assert_eq!(collect_reports(&[good], &[good], wide, None), Err(RegionError::Overflow));
}

#[test]
fn usable_memory_is_found() {
    assert!(!has_usable_memory(&[]));
    assert!(!has_usable_memory(&[region(0, 1, MemoryRegionType::Reserved)]));
    assert!(has_usable_memory(&[
        region(0, 1, MemoryRegionType::Reserved),
        region(1, 1, MemoryRegionType::Usable)
    ]));
}

#[test]
fn memory_map_from_the_four_sources() {
    let usable = [RawRegion { base: 0x8000_0000, size: 0x800_0000 }];
    let reserved = [RawRegion { base: 0x8000_0000, size: 0x4_0000 }];
    let initramfs = initramfs_region(0x8400_0000, 0x8420_0000);
    assert_eq!(
        memory_map_from_sources(&usable, &reserved, KERNEL, initramfs),
        Ok(vec![
            region(0x8000_0000, 0x4_0000, MemoryRegionType::Reserved),
            region(0x8004_0000, 0x1c_0000, MemoryRegionType::Usable),
            region(0x8020_0000, 0x80_0000, MemoryRegionType::Kernel),
            region(0x80a0_0000, 0x360_0000, MemoryRegionType::Usable),
            region(0x8400_0000, 0x20_0000, MemoryRegionType::Module),
            region(0x8420_0000, 0x3e0_0000, MemoryRegionType::Usable),
        ])
    );
}

#[test]
fn memory_map_needs_usable_memory() {
    assert_eq!(
        memory_map_from_sources(&[], &[], KERNEL, None),
        Err(MemoryMapError::NoUsableMemory)
    );
    let under_kernel = [RawRegion { base: 0x8020_0000, size: 0x1000 }];
    assert_eq!(
        memory_map_from_sources(&under_kernel, &[], KERNEL, None),
        Err(MemoryMapError::NoUsableMemory)
    );
    let empty = [RawRegion { base: 0x8000_0000, size: 0 }];
    assert_eq!(
        memory_map_from_sources(&empty, &[], KERNEL, None),
        Err(MemoryMapError::NoUsableMemory)
    );
}

#[test]
fn memory_map_refuses_bad_reports() {
    let usable = [RawRegion { base: 0x8000_0000, size: 0x800_0000 }];
    assert_eq!(
        memory_map_from_sources(&usable, &[RawRegion { base: 1, size: usize::MAX }], KERNEL, None),
        Err(MemoryMapError::Region(RegionError::Overflow))
    );
    assert_eq!(
        memory_map_from_sources(&usable, &[RawRegion { base: 1, size: 0 }], KERNEL, None),
        Err(MemoryMapError::Region(RegionError::ZeroLength))
    );
}
