use vhost_user_blk::memory::GuestRam;
use vm_memory::{GuestAddress, GuestMemoryMmap};

fn two_regions() -> GuestRam {
    let ranges = [(GuestAddress(0x1000), 0x1000), (GuestAddress(0x4000), 0x2000)];
    GuestRam::new(GuestMemoryMmap::from_ranges(&ranges).unwrap())
}

#[test]
fn region_is_found_by_any_of_its_addresses() {
    let mem = two_regions();
    assert_eq!(mem.region(0x0fff), None);
    assert_eq!(mem.region(0x1000), Some((0x1000, 0x1000)));
    assert_eq!(mem.region(0x1fff), Some((0x1000, 0x1000)));
    assert_eq!(mem.region(0x2000), None);
    assert_eq!(mem.region(0x5fff), Some((0x4000, 0x2000)));
    assert_eq!(mem.region(u64::MAX), None);
}

#[test]
fn bytes_are_mapped_up_to_the_end_of_their_region() {
    let mem = two_regions();
    assert!(mem.is_mapped(0x1000, 0x1000));
    assert!(!mem.is_mapped(0x1000, 0x1001));
    assert!(mem.is_mapped(0x1fff, 1));
    assert!(!mem.is_mapped(0x1fff, 2));
    assert!(!mem.is_mapped(0x2000, 0));
    assert!(mem.is_mapped(0x4000, 0x2000));
    assert!(!mem.is_mapped(0x4000, u64::MAX));
}

#[test]
fn bytes_are_mapped_across_adjacent_regions() {
    let ranges = [
        (GuestAddress(0x1000), 0x1000),
        (GuestAddress(0x2000), 0x1000),
        (GuestAddress(0x3000), 0x1000),
        (GuestAddress(0x5000), 0x1000),
    ];
    let mem = GuestRam::new(GuestMemoryMmap::from_ranges(&ranges).unwrap());
    assert!(mem.is_mapped(0x1fff, 2));
    assert!(mem.is_mapped(0x1000, 0x3000));
    assert!(!mem.is_mapped(0x1000, 0x3001));
    assert!(!mem.is_mapped(0x3fff, 0x1002));
    assert_eq!(mem.reach(0x1000, 0xffe, 0x1004), Some(0x1ffe));
}

#[test]
fn reach_gives_the_address_past_the_base() {
    let mem = two_regions();
    assert_eq!(mem.reach(0x1000, 0x10, 4), Some(0x1010));
    assert_eq!(mem.reach(0x1000, 0xffc, 4), Some(0x1ffc));
    assert_eq!(mem.reach(0x1000, 0xffd, 4), None);
    assert_eq!(mem.reach(u64::MAX, 1, 0), None);
    assert_eq!(mem.reach(0, 0x4000, 1), Some(0x4000));
}
