use aster_early_init::memory_region::{MemoryRegion, MemoryRegionType, RegionError, Residue};
use aster_early_init::reconcile::non_overlapping_regions_from;

fn region(base: usize, len: usize, typ: MemoryRegionType) -> MemoryRegion {
    MemoryRegion::new(base, len, typ).unwrap()
}

fn total_len(map: &[MemoryRegion]) -> usize {
    let mut sum = 0;
    for r in map {
        sum += r.len();
    }
    sum
}

fn assert_is_memory_map(map: &[MemoryRegion]) {
    for r in map {
        assert!(r.len() > 0);
        assert_eq!(r.end(), r.base() + r.len());
    }
    for i in 0..map.len() {
        for j in (i + 1)..map.len() {
            assert!(map[i].end() <= map[j].base());
            assert!(!map[i].overlaps(&map[j]));
        }
    }
    for i in 1..map.len() {
        assert!(!(map[i - 1].end() == map[i].base() && map[i - 1].typ() == map[i].typ()));
    }
}

#[test]
fn zero_length_region_is_rejected() {
    assert_eq!(
        MemoryRegion::new(0x1000, 0, MemoryRegionType::Usable),
        Err(RegionError::ZeroLength)
    );
    assert_eq!(
        MemoryRegion::new(usize::MAX, 0, MemoryRegionType::Kernel),
        Err(RegionError::ZeroLength)
    );
}

#[test]
fn overflowing_region_is_rejected() {
    assert_eq!(
        MemoryRegion::new(usize::MAX, 1, MemoryRegionType::Usable),
        Err(RegionError::Overflow)
    );
    assert_eq!(
        MemoryRegion::new(1, usize::MAX, MemoryRegionType::Reserved),
        Err(RegionError::Overflow)
    );
    assert!(MemoryRegion::new(0, usize::MAX, MemoryRegionType::Usable).is_ok());
    assert!(MemoryRegion::new(usize::MAX - 1, 1, MemoryRegionType::Usable).is_ok());
}

#[test]
fn region_reports_its_triple() {
    let r = region(0x8000_0000, 0x1000, MemoryRegionType::Module);
    assert_eq!(r.base(), 0x8000_0000);
    assert_eq!(r.len(), 0x1000);
    assert_eq!(r.end(), 0x8000_1000);
    assert_eq!(r.typ(), MemoryRegionType::Module);
    assert_eq!(r, region(0x8000_0000, 0x1000, MemoryRegionType::Module));
    assert_ne!(r, region(0x8000_0000, 0x1000, MemoryRegionType::Kernel));
}

#[test]
fn kinds_rank_from_usable_to_framebuffer() {
    assert_eq!(MemoryRegionType::Usable.priority(), 0);
    assert_eq!(MemoryRegionType::Reserved.priority(), 1);
    assert_eq!(MemoryRegionType::Kernel.priority(), 2);
    assert_eq!(MemoryRegionType::Module.priority(), 3);
    assert_eq!(MemoryRegionType::Framebuffer.priority(), 4);
}

#[test]
fn containment_is_half_open() {
    let r = region(0x1000, 0x1000, MemoryRegionType::Usable);
    assert!(!r.contains(0xfff));
    assert!(r.contains(0x1000));
    assert!(r.contains(0x1fff));
    assert!(!r.contains(0x2000));
    let top = region(usize::MAX - 1, 1, MemoryRegionType::Usable);
    assert!(top.contains(usize::MAX - 1));
    assert!(!top.contains(usize::MAX));
}

#[test]
fn overlap_needs_a_shared_byte() {
    let a = region(0x1000, 0x1000, MemoryRegionType::Usable);
    assert!(a.overlaps(&a));
    assert!(a.overlaps(&region(0x1fff, 1, MemoryRegionType::Reserved)));
    assert!(a.overlaps(&region(0, 0x1001, MemoryRegionType::Reserved)));
    assert!(a.overlaps(&region(0x1400, 0x10, MemoryRegionType::Reserved)));
    assert!(a.overlaps(&region(0, 0x10000, MemoryRegionType::Reserved)));
    assert!(!a.overlaps(&region(0x2000, 0x1000, MemoryRegionType::Usable)));
    assert!(!a.overlaps(&region(0, 0x1000, MemoryRegionType::Usable)));
}

#[test]
fn split_in_the_middle_leaves_two_parts() {
    let whole = region(0, 0x10000, MemoryRegionType::Usable);
    let carve = region(0x4000, 0x1000, MemoryRegionType::Reserved);
    assert_eq!(
        whole.split(&carve),
        Residue {
            below: Some(region(0, 0x4000, MemoryRegionType::Usable)),
            above: Some(region(0x5000, 0xb000, MemoryRegionType::Usable)),
        }
    );
}

#[test]
fn split_at_an_end_leaves_one_part() {
    let whole = region(0x1000, 0x3000, MemoryRegionType::Kernel);
    assert_eq!(
        whole.split(&region(0, 0x2000, MemoryRegionType::Module)),
        Residue { below: None, above: Some(region(0x2000, 0x2000, MemoryRegionType::Kernel)) }
    );
    assert_eq!(
        whole.split(&region(0x3000, 0x5000, MemoryRegionType::Module)),
        Residue { below: Some(region(0x1000, 0x2000, MemoryRegionType::Kernel)), above: None }
    );
    assert_eq!(
        whole.split(&region(0x1000, 0x1000, MemoryRegionType::Module)),
        Residue { below: None, above: Some(region(0x2000, 0x2000, MemoryRegionType::Kernel)) }
    );
}

#[test]
fn split_by_a_cover_leaves_nothing() {
    let whole = region(0x1000, 0x1000, MemoryRegionType::Usable);
    assert_eq!(whole.split(&whole), Residue { below: None, above: None });
    assert_eq!(
        whole.split(&region(0, 0x10000, MemoryRegionType::Reserved)),
        Residue { below: None, above: None }
    );
}

#[test]
fn split_by_a_stranger_leaves_the_whole() {
    let whole = region(0x1000, 0x1000, MemoryRegionType::Usable);
    assert_eq!(
        whole.split(&region(0x2000, 0x1000, MemoryRegionType::Reserved)),
        Residue { below: Some(whole), above: None }
    );
    assert_eq!(
        whole.split(&region(0, 0x1000, MemoryRegionType::Reserved)),
        Residue { below: None, above: Some(whole) }
    );
}

#[test]
fn priority_resolution() {
    let map = non_overlapping_regions_from(&[
        region(0, 0x10000, MemoryRegionType::Usable),
        region(0x4000, 0x1000, MemoryRegionType::Reserved),
    ]);
    assert_eq!(
        map,
        vec![
            region(0, 0x4000, MemoryRegionType::Usable),
            region(0x4000, 0x1000, MemoryRegionType::Reserved),
            region(0x5000, 0xb000, MemoryRegionType::Usable),
        ]
    );
}

#[test]
fn kernel_region_always_wins() {
    let usable = region(0x100000, 0x100000, MemoryRegionType::Usable);
    let kernel = region(0x150000, 0x10000, MemoryRegionType::Kernel);
    for input in [vec![usable, kernel], vec![kernel, usable]] {
        let map = non_overlapping_regions_from(&input);
        assert_eq!(map.len(), 3);
        assert_eq!(map[1].typ(), MemoryRegionType::Kernel);
        assert_eq!(map[1], kernel);
        assert_eq!(map[0], region(0x100000, 0x50000, MemoryRegionType::Usable));
        assert_eq!(map[2], region(0x160000, 0xa0000, MemoryRegionType::Usable));
        assert_eq!(total_len(&map), usable.len());
    }
}

#[test]
fn coalescing() {
    let map = non_overlapping_regions_from(&[
        region(0, 0x1000, MemoryRegionType::Usable),
        region(0x1000, 0x1000, MemoryRegionType::Usable),
    ]);
    assert_eq!(map, vec![region(0, 0x2000, MemoryRegionType::Usable)]);
}

#[test]
fn neighbours_of_different_kind_stay_apart() {
    let input = [
        region(0, 0x1000, MemoryRegionType::Usable),
        region(0x1000, 0x1000, MemoryRegionType::Reserved),
    ];
    assert_eq!(non_overlapping_regions_from(&input), input.to_vec());
}

#[test]
fn empty_input_gives_empty_map() {
    assert_eq!(non_overlapping_regions_from(&[]), vec![]);
}

#[test]
fn identical_ranges_go_to_the_higher_rank() {
    let low = region(0x2000, 0x1000, MemoryRegionType::Usable);
    let high = region(0x2000, 0x1000, MemoryRegionType::Reserved);
    assert_eq!(non_overlapping_regions_from(&[low, high]), vec![high]);
    assert_eq!(non_overlapping_regions_from(&[high, low]), vec![high]);
}

#[test]
fn overlapping_reports_of_one_kind_are_joined() {
    let map = non_overlapping_regions_from(&[
        region(0x3000, 0x3000, MemoryRegionType::Reserved),
        region(0x1000, 0x3000, MemoryRegionType::Reserved),
        region(0x2000, 0x1000, MemoryRegionType::Reserved),
    ]);
    assert_eq!(map, vec![region(0x1000, 0x5000, MemoryRegionType::Reserved)]);
}

#[test]
fn all_four_sources_are_ranked() {
    let input = [
        region(0x8000_0000, 0x1000_0000, MemoryRegionType::Usable),
        region(0x8000_0000, 0x4_0000, MemoryRegionType::Reserved),
        region(0x8020_0000, 0x80_0000, MemoryRegionType::Kernel),
        region(0x8090_0000, 0x20_0000, MemoryRegionType::Module),
        region(0x8003_0000, 0x30_0000, MemoryRegionType::Module),
    ];
    let expected = vec![
        region(0x8000_0000, 0x3_0000, MemoryRegionType::Reserved),
        region(0x8003_0000, 0x30_0000, MemoryRegionType::Module),
        region(0x8033_0000, 0x5d_0000, MemoryRegionType::Kernel),
        region(0x8090_0000, 0x20_0000, MemoryRegionType::Module),
        region(0x80b0_0000, 0xf50_0000, MemoryRegionType::Usable),
    ];
    let map = non_overlapping_regions_from(&input);
    assert_eq!(map, expected);
    assert_is_memory_map(&map);
    assert_eq!(total_len(&map), 0x1000_0000);
    let mut reversed = input.to_vec();
    reversed.reverse();
    assert_eq!(non_overlapping_regions_from(&reversed), expected);
}

#[test]
fn weaker_report_is_cut_on_both_sides() {
    let map = non_overlapping_regions_from(&[
        region(0x1000, 0x1000, MemoryRegionType::Kernel),
        region(0x3000, 0x1000, MemoryRegionType::Kernel),
        region(0, 0x5000, MemoryRegionType::Usable),
    ]);
    assert_eq!(
        map,
        vec![
            region(0, 0x1000, MemoryRegionType::Usable),
            region(0x1000, 0x1000, MemoryRegionType::Kernel),
            region(0x2000, 0x1000, MemoryRegionType::Usable),
            region(0x3000, 0x1000, MemoryRegionType::Kernel),
            region(0x4000, 0x1000, MemoryRegionType::Usable),
        ]
    );
}

#[test]
fn framebuffer_outranks_every_source() {
    let map = non_overlapping_regions_from(&[
        region(0x1000, 0x3000, MemoryRegionType::Module),
        region(0x2000, 0x1000, MemoryRegionType::Framebuffer),
    ]);
    assert_eq!(
        map,
        vec![
            region(0x1000, 0x1000, MemoryRegionType::Module),
            region(0x2000, 0x1000, MemoryRegionType::Framebuffer),
            region(0x3000, 0x1000, MemoryRegionType::Module),
        ]
    );
}

#[test]
fn regions_at_the_top_of_the_address_space() {
    let map = non_overlapping_regions_from(&[
        region(0, usize::MAX, MemoryRegionType::Usable),
        region(usize::MAX - 0x1000, 0x1000, MemoryRegionType::Reserved),
    ]);
    assert_eq!(
        map,
        vec![
            region(0, usize::MAX - 0x1000, MemoryRegionType::Usable),
            region(usize::MAX - 0x1000, 0x1000, MemoryRegionType::Reserved),
        ]
    );
}

#[test]
fn output_never_overlaps_and_is_its_own_map() {
    let kinds = [
        MemoryRegionType::Usable,
        MemoryRegionType::Reserved,
        MemoryRegionType::Kernel,
        MemoryRegionType::Module,
        MemoryRegionType::Framebuffer,
    ];
    let mut seed: usize = 12345;
    for _ in 0..200 {
        let mut input = Vec::new();
        let n = seed % 7;
        for _ in 0..n {
            seed = seed.wrapping_mul(6364136223846793005).wrapping_add(1442695040888963407);
            let base = (seed >> 33) % 64;
            let len = (seed >> 40) % 16 + 1;
            let typ = kinds[(seed >> 50) % 5];
            input.push(region(base, len, typ));
        }
        let map = non_overlapping_regions_from(&input);
        assert_is_memory_map(&map);
        for addr in 0..96 {
            let mut best: Option<MemoryRegionType> = None;
            for r in &input {
                if r.contains(addr) {
                    best = match best {
                        Some(b) if b.priority() >= r.typ().priority() => Some(b),
                        _ => Some(r.typ()),
                    };
                }
            }
            let mut got = None;
            for r in &map {
                if r.contains(addr) {
                    assert_eq!(got, None);
                    got = Some(r.typ());
                }
            }
            assert_eq!(got, best);
        }
        assert_eq!(non_overlapping_regions_from(&map), map);
        seed = seed.wrapping_mul(6364136223846793005).wrapping_add(1442695040888963407);
    }
}
