use os::config::PAGE_SIZE;
use os::loader::ProgramImage;
use os::mm::{
    ceil_vpn, floor_vpn, is_aligned, split_by_page, MapArea, MapError, MapPermission, MemorySet,
};

const RW: MapPermission = MapPermission { r: true, w: true, x: false, u: true };
const RX: MapPermission = MapPermission { r: true, w: false, x: true, u: true };

#[test]
fn page_numbers_round_down_and_up() {
    assert_eq!(floor_vpn(0), 0);
    assert_eq!(floor_vpn(PAGE_SIZE - 1), 0);
    assert_eq!(floor_vpn(PAGE_SIZE), 1);
    assert_eq!(floor_vpn(3 * PAGE_SIZE + 17), 3);
    assert_eq!(ceil_vpn(0), 0);
    assert_eq!(ceil_vpn(1), 1);
    assert_eq!(ceil_vpn(PAGE_SIZE), 1);
    assert_eq!(ceil_vpn(PAGE_SIZE + 1), 2);
    assert_eq!(ceil_vpn(usize::MAX), usize::MAX / PAGE_SIZE + 1);
    assert!(is_aligned(0));
    assert!(is_aligned(7 * PAGE_SIZE));
    assert!(!is_aligned(7 * PAGE_SIZE + 1));
}

#[test]
fn permission_word_decodes_bit_by_bit() {
    assert_eq!(MapPermission::from_port(0), None);
    assert_eq!(MapPermission::from_port(8), None);
    assert_eq!(MapPermission::from_port(9), None);
    assert_eq!(MapPermission::from_port(usize::MAX), None);
    assert_eq!(
        MapPermission::from_port(1),
        Some(MapPermission { r: true, w: false, x: false, u: true })
    );
    assert_eq!(
        MapPermission::from_port(2),
        Some(MapPermission { r: false, w: true, x: false, u: true })
    );
    assert_eq!(
        MapPermission::from_port(4),
        Some(MapPermission { r: false, w: false, x: true, u: true })
    );
    assert_eq!(
        MapPermission::from_port(7),
        Some(MapPermission { r: true, w: true, x: true, u: true })
    );
    assert_eq!(
        MapPermission::from_bits(3),
        MapPermission { r: true, w: true, x: false, u: true }
    );
    assert_eq!(
        MapPermission::from_bits(8 + 4),
        MapPermission { r: false, w: false, x: true, u: true }
    );
}

#[test]
fn area_intersection_by_bounds() {
    let area = MapArea { start_vpn: 4, end_vpn: 8, perm: RW };
    assert!(area.intersects(0, 5));
    assert!(area.intersects(7, 9));
    assert!(area.intersects(5, 6));
    assert!(area.intersects(0, 100));
    assert!(!area.intersects(0, 4));
    assert!(!area.intersects(8, 12));
    assert!(!area.intersects(6, 6));
    let empty = MapArea { start_vpn: 5, end_vpn: 5, perm: RW };
    assert!(!empty.intersects(0, 100));
}

#[test]
fn bare_address_space_maps_nothing() {
    let ms = MemorySet::new_bare();
    assert_eq!(ms.area_count(), 0);
    assert!(!ms.is_mapped(0));
    assert!(!ms.is_mapped(12345));
    assert!(ms.is_range_free(0, usize::MAX));
}

#[test]
fn map_then_unmap_restores_the_pages() {
    let mut ms = MemorySet::new_bare();
    let start = 0x1000_0000;
    let len = 3 * PAGE_SIZE;
    assert_eq!(ms.map_range(start, start + len, 3), Ok(()));
    assert_eq!(ms.area_count(), 1);
    assert_eq!(
        ms.area(0),
        MapArea { start_vpn: 0x10000, end_vpn: 0x10003, perm: RW }
    );
    assert!(ms.is_mapped(0x10000));
    assert!(ms.is_mapped(0x10002));
    assert!(!ms.is_mapped(0x10003));
    assert!(!ms.is_mapped(0xffff));
    assert_eq!(ms.unmap_range(start, start + len), Ok(()));
    assert_eq!(ms.area_count(), 0);
    assert!(!ms.is_mapped(0x10000));
    assert!(!ms.is_mapped(0x10001));
    assert!(!ms.is_mapped(0x10002));
}

#[test]
fn map_rounds_the_end_up_to_a_page() {
    let mut ms = MemorySet::new_bare();
    assert_eq!(ms.map_range(0x2000, 0x2000 + 1, 1), Ok(()));
    assert_eq!(ms.area(0).start_vpn, 2);
    assert_eq!(ms.area(0).end_vpn, 3);
    assert_eq!(ms.map_range(0x4000, 0x4000 + PAGE_SIZE + 1, 1), Ok(()));
    assert_eq!(ms.area(1).start_vpn, 4);
    assert_eq!(ms.area(1).end_vpn, 6);
}

#[test]
fn map_refusals_in_order_of_the_checks() {
    let mut ms = MemorySet::new_bare();
    assert_eq!(ms.map_range(0x1001, 0x2000, 0), Err(MapError::Misaligned));
    assert_eq!(ms.map_range(0x1000, 0x2000, 0), Err(MapError::BadPermission));
    assert_eq!(ms.map_range(0x1000, 0x2000, 8), Err(MapError::BadPermission));
    assert_eq!(ms.map_range(0x2000, 0x1000, 1), Err(MapError::BadRange));
    assert_eq!(ms.area_count(), 0);
    assert_eq!(ms.map_range(0x1000, 0x3000, 1), Ok(()));
    assert_eq!(ms.map_range(0x2000, 0x4000, 1), Err(MapError::AlreadyMapped));
    assert_eq!(ms.map_range(0x0000, 0x1001, 1), Err(MapError::AlreadyMapped));
    assert_eq!(ms.map_range(0x0000, 0x8000, 1), Err(MapError::AlreadyMapped));
    assert_eq!(ms.area_count(), 1);
    assert!(!ms.is_mapped(0));
    assert!(!ms.is_mapped(3));
    assert_eq!(ms.map_range(0x3000, 0x4000, 1), Ok(()));
    assert_eq!(ms.map_range(0x0000, 0x1000, 1), Ok(()));
    assert_eq!(ms.area_count(), 3);
}

#[test]
fn map_over_mapped_page_changes_nothing() {
    let mut ms = MemorySet::new_bare();
    assert_eq!(ms.map_range(0x5000, 0x6000, 3), Ok(()));
    let before = ms.area(0);
    assert_eq!(ms.map_range(0x3000, 0x6000, 7), Err(MapError::AlreadyMapped));
    assert_eq!(ms.area_count(), 1);
    assert_eq!(ms.area(0), before);
    assert!(!ms.is_mapped(3));
    assert!(!ms.is_mapped(4));
    assert!(ms.is_mapped(5));
}

#[test]
fn unmap_needs_every_page_mapped() {
    let mut ms = MemorySet::new_bare();
    assert_eq!(ms.map_range(0x5000, 0x7000, 3), Ok(()));
    assert_eq!(ms.unmap_range(0x5000, 0x8000), Err(MapError::NotMapped));
    assert_eq!(ms.unmap_range(0x4000, 0x7000), Err(MapError::NotMapped));
    assert_eq!(ms.unmap_range(0x9000, 0xa000), Err(MapError::NotMapped));
    assert_eq!(ms.area_count(), 1);
    assert!(ms.is_mapped(5));
    assert!(ms.is_mapped(6));
}

#[test]
fn unmap_of_part_of_an_area_is_refused() {
    let mut ms = MemorySet::new_bare();
    assert_eq!(ms.map_range(0x5000, 0x9000, 3), Ok(()));
    assert_eq!(ms.unmap_range(0x5000, 0x6000), Err(MapError::NotMapped));
    assert_eq!(ms.unmap_range(0x6000, 0x9000), Err(MapError::NotMapped));
    assert_eq!(ms.area_count(), 1);
    assert!(ms.is_mapped(5));
    assert_eq!(ms.unmap_range(0x5000, 0x9000), Ok(()));
    assert!(!ms.is_mapped(5));
}

#[test]
fn unmap_refusals() {
    let mut ms = MemorySet::new_bare();
    assert_eq!(ms.map_range(0x5000, 0x6000, 3), Ok(()));
    assert_eq!(ms.unmap_range(0x5001, 0x6000), Err(MapError::Misaligned));
    assert_eq!(ms.unmap_range(0x6000, 0x5000), Err(MapError::BadRange));
    assert_eq!(ms.remove_area(0x5000, 0x5fff), 0);
    assert_eq!(ms.remove_area(0x5000, 0x5fff), -1);
}

#[test]
fn empty_range_maps_an_empty_area() {
    let mut ms = MemorySet::new_bare();
    assert_eq!(ms.map_range(0x5000, 0x5000, 1), Ok(()));
    assert_eq!(ms.area_count(), 1);
    assert!(!ms.is_mapped(5));
    assert_eq!(ms.map_range(0x5000, 0x6000, 1), Ok(()));
    assert_eq!(ms.unmap_range(0x5000, 0x5000), Ok(()));
    assert_eq!(ms.area_count(), 1);
    assert!(ms.is_mapped(5));
}

#[test]
fn insert_and_try_insert_area() {
    let mut ms = MemorySet::new_bare();
    ms.insert_framed_area(0x1000, 0x2800, RX);
    assert_eq!(ms.area(0), MapArea { start_vpn: 1, end_vpn: 3, perm: RX });
    assert!(!ms.try_insert_area(MapArea { start_vpn: 2, end_vpn: 4, perm: RW }));
    assert!(!ms.try_insert_area(MapArea { start_vpn: 9, end_vpn: 8, perm: RW }));
    assert!(ms.try_insert_area(MapArea { start_vpn: 3, end_vpn: 4, perm: RW }));
    assert_eq!(ms.area_count(), 2);
}

#[test]
fn duplicate_is_a_private_copy() {
    let mut ms = MemorySet::with_heap_at(0x8000);
    ms.insert_framed_area(0x1000, 0x2000, RX);
    let mut copy = ms.duplicate();
    assert_eq!(copy.area_count(), 1);
    assert_eq!(copy.area(0), ms.area(0));
    assert_eq!(copy.heap_bottom(), 0x8000);
    assert_eq!(copy.map_range(0x3000, 0x4000, 1), Ok(()));
    assert_eq!(copy.area_count(), 2);
    assert_eq!(ms.area_count(), 1);
    assert!(!ms.is_mapped(3));
    ms.recycle();
    assert_eq!(ms.area_count(), 0);
    assert!(copy.is_mapped(1));
}

#[test]
fn heap_grows_and_shrinks() {
    let mut ms = MemorySet::with_heap_at(0x8000);
    assert_eq!(ms.program_brk(), 0x8000);
    assert!(!ms.is_mapped(8));
    assert_eq!(ms.change_brk(0), Some(0x8000));
    assert_eq!(ms.change_brk(1), Some(0x8000));
    assert_eq!(ms.program_brk(), 0x8001);
    assert!(ms.is_mapped(8));
    assert!(!ms.is_mapped(9));
    assert_eq!(ms.change_brk(0x1000), Some(0x8001));
    assert!(ms.is_mapped(9));
    assert_eq!(ms.change_brk(-0x1001), Some(0x9001));
    assert_eq!(ms.program_brk(), 0x8000);
    assert!(!ms.is_mapped(8));
    assert_eq!(ms.change_brk(-1), None);
    assert_eq!(ms.program_brk(), 0x8000);
}

#[test]
fn heap_does_not_grow_over_an_area() {
    let mut ms = MemorySet::with_heap_at(0x8000);
    assert_eq!(ms.map_range(0xa000, 0xb000, 3), Ok(()));
    assert_eq!(ms.change_brk(0x2000), Some(0x8000));
    assert_eq!(ms.change_brk(1), None);
    assert_eq!(ms.program_brk(), 0xa000);
    assert_eq!(ms.map_range(0x9000, 0x9001, 3), Err(MapError::AlreadyMapped));
    assert_eq!(ms.unmap_range(0x8000, 0xa000), Err(MapError::NotMapped));
    assert_eq!(ms.change_brk(i32::MIN), None);
}

#[test]
fn heap_does_not_grow_beyond_the_address_space() {
    let top = usize::MAX - (PAGE_SIZE - 1);
    let mut ms = MemorySet::with_heap_at(top);
    assert_eq!(ms.change_brk(PAGE_SIZE as i32), None);
    assert_eq!(ms.change_brk((PAGE_SIZE - 1) as i32), Some(top));
    assert_eq!(ms.program_brk(), usize::MAX);
}

#[test]
fn image_layout_is_checked() {
    let good = vec![
        MapArea { start_vpn: 0x10, end_vpn: 0x12, perm: RX },
        MapArea { start_vpn: 0x12, end_vpn: 0x15, perm: RW },
    ];
    let image = ProgramImage::new(&good, 0x15000, 0x10000, 0x15000).unwrap();
    assert_eq!(image.entry(), 0x10000);
    assert_eq!(image.user_sp(), 0x15000);
    let ms = image.memory_set();
    assert_eq!(ms.area_count(), 2);
    assert_eq!(ms.heap_bottom(), 0x15000);
    assert_eq!(ms.program_brk(), 0x15000);
    assert!(ProgramImage::new(&good, 0x15001, 0x10000, 0x15000).is_none());
    let overlapping = vec![
        MapArea { start_vpn: 0x10, end_vpn: 0x13, perm: RX },
        MapArea { start_vpn: 0x12, end_vpn: 0x15, perm: RW },
    ];
    assert!(ProgramImage::new(&overlapping, 0x15000, 0x10000, 0x15000).is_none());
    let reversed = vec![MapArea { start_vpn: 0x13, end_vpn: 0x12, perm: RX }];
    assert!(ProgramImage::new(&reversed, 0x15000, 0x10000, 0x15000).is_none());
    assert!(ProgramImage::new(&Vec::new(), 0, 0, 0).is_some());
}

#[test]
fn buffer_is_cut_at_page_boundaries() {
    assert_eq!(split_by_page(0x1000, 0), vec![]);
    assert_eq!(split_by_page(0x1234, 0), vec![]);
    assert_eq!(split_by_page(0x1000, 16), vec![(0x1000, 16)]);
    assert_eq!(split_by_page(0x1000, 4096), vec![(0x1000, 4096)]);
    assert_eq!(split_by_page(0x1000, 4097), vec![(0x1000, 4096), (0x2000, 1)]);
    assert_eq!(split_by_page(0x1ff8, 16), vec![(0x1ff8, 8), (0x2000, 8)]);
    assert_eq!(split_by_page(0x1fff, 1), vec![(0x1fff, 1)]);
    assert_eq!(split_by_page(0x1fff, 2), vec![(0x1fff, 1), (0x2000, 1)]);
    assert_eq!(
        split_by_page(0x1800, 3 * 4096),
        vec![(0x1800, 0x800), (0x2000, 4096), (0x3000, 4096), (0x4000, 0x800)]
    );
    assert_eq!(split_by_page(0, 1), vec![(0, 1)]);
    assert_eq!(
        split_by_page(usize::MAX - 4097, 4097),
        vec![(usize::MAX - 4097, 2), (usize::MAX - 4095, 4095)]
    );
}
