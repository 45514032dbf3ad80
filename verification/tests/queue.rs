use vhost_user_blk::memory::GuestRam;
use vhost_user_blk::number::ByteOrder;
use vhost_user_blk::queue::{
    AvailIter, Descriptor, DescriptorChain, Queue, VIRTQ_DESC_F_NEXT, VIRTQ_DESC_F_WRITE,
};
use vm_memory::{Bytes, GuestAddress, GuestMemoryMmap};

const DESC: u64 = 0x1000;
const AVAIL: u64 = 0x2000;
const USED: u64 = 0x3000;

fn memory() -> (GuestMemoryMmap, GuestRam) {
    let map = GuestMemoryMmap::from_ranges(&[(GuestAddress(0), 0x1_0000)]).unwrap();
    (map.clone(), GuestRam::with_order(map, ByteOrder::Little))
}

fn put(map: &GuestMemoryMmap, addr: u64, bytes: &[u8]) {
    map.write_slice(bytes, GuestAddress(addr)).unwrap();
}

fn get(map: &GuestMemoryMmap, addr: u64, len: usize) -> Vec<u8> {
    let mut bytes = vec![0u8; len];
    map.read_slice(&mut bytes, GuestAddress(addr)).unwrap();
    bytes
}

fn put_desc(map: &GuestMemoryMmap, index: u64, addr: u64, len: u32, flags: u16, next: u16) {
    let at = DESC + 16 * index;
    put(map, at, &addr.to_le_bytes());
    put(map, at + 8, &len.to_le_bytes());
    put(map, at + 12, &flags.to_le_bytes());
    put(map, at + 14, &next.to_le_bytes());
}

fn offer(map: &GuestMemoryMmap, heads: &[u16]) {
    for (i, head) in heads.iter().enumerate() {
        put(map, AVAIL + 4 + 2 * i as u64, &head.to_le_bytes());
    }
    put(map, AVAIL + 2, &(heads.len() as u16).to_le_bytes());
}

fn ready_queue() -> Queue {
    let mut queue = Queue::new(16);
    queue.size = 8;
    queue.ready = true;
    queue.desc_table = DESC;
    queue.avail_ring = AVAIL;
    queue.used_ring = USED;
    queue
}

#[test]
fn it_works() {
    assert_eq!(2 + 2, 4);
}

#[test]
fn descriptor_is_decoded() {
    let bytes = vec![1, 2, 3, 4, 5, 6, 7, 8, 9, 10, 11, 12, 3, 0, 7, 1];
    let desc = Descriptor::decode(ByteOrder::Little, &bytes);
    assert_eq!(desc.addr, 0x0807_0605_0403_0201);
    assert_eq!(desc.len, 0x0c0b_0a09);
    assert_eq!(desc.flags, VIRTQ_DESC_F_NEXT | VIRTQ_DESC_F_WRITE);
    assert_eq!(desc.next, 0x107);
    let desc = Descriptor::decode(ByteOrder::Big, &bytes);
    assert_eq!(desc.addr, 0x0102_0304_0506_0708);
    assert_eq!(desc.len, 0x090a_0b0c);
    assert_eq!(desc.flags, 0x300);
    assert_eq!(desc.next, 0x701);
}

#[test]
fn new_queue_is_not_usable() {
    let (_, mem) = memory();
    let queue = Queue::new(16);
    assert_eq!(queue.get_max_size(), 16);
    assert_eq!(queue.actual_size(), 0);
    assert!(!queue.is_valid(&mem));
    assert!(ready_queue().is_valid(&mem));
    assert_eq!(Queue::default().get_max_size(), 0);
}

#[test]
fn actual_size_is_at_most_what_is_offered() {
    let mut queue = Queue::new(16);
    queue.size = 8;
    assert_eq!(queue.actual_size(), 8);
    queue.size = 32;
    assert_eq!(queue.actual_size(), 16);
}

#[test]
fn queue_must_be_ready_and_sized() {
    let (_, mem) = memory();
    let mut queue = ready_queue();
    queue.ready = false;
    assert!(!queue.is_valid(&mem));
    for (size, valid) in [(0, false), (1, true), (6, false), (16, true), (32, false)] {
        let mut queue = ready_queue();
        queue.size = size;
        assert_eq!(queue.is_valid(&mem), valid, "size {}", size);
    }
}

#[test]
fn rings_must_be_aligned_and_inside_memory() {
    let (_, mem) = memory();
    let mut queue = ready_queue();
    queue.desc_table = DESC + 8;
    assert!(!queue.is_valid(&mem));
    queue.desc_table = 0xff80;
    assert!(!queue.is_valid(&mem));
    queue.desc_table = 0xff70;
    assert!(queue.is_valid(&mem));

    let mut queue = ready_queue();
    queue.avail_ring = AVAIL + 1;
    assert!(!queue.is_valid(&mem));
    queue.avail_ring = 0x1_0000 - 22;
    assert!(!queue.is_valid(&mem));
    queue.avail_ring = 0x1_0000 - 24;
    assert!(queue.is_valid(&mem));

    let mut queue = ready_queue();
    queue.used_ring = USED + 2;
    assert!(!queue.is_valid(&mem));
    queue.used_ring = u64::MAX - 3;
    assert!(!queue.is_valid(&mem));
    queue.used_ring = 0x1_0000 - 72;
    assert!(queue.is_valid(&mem));
}

#[test]
fn iterator_hands_out_the_offered_heads() {
    let (map, mut mem) = memory();
    put_desc(&map, 0, 0x5000, 0x100, VIRTQ_DESC_F_NEXT, 1);
    put_desc(&map, 1, 0x6000, 0x200, VIRTQ_DESC_F_WRITE, 0);
    put_desc(&map, 5, 0x7000, 0x10, 0, 0);
    offer(&map, &[0, 5]);

    let mut queue = ready_queue();
    {
        let mut iter = queue.iter(&mut mem);
        let head = iter.next(&mut mem).unwrap();
        assert_eq!(head.index, 0);
        assert_eq!(head.addr, 0x5000);
        assert_eq!(head.len, 0x100);
        assert_eq!(head.ttl, 8);
        assert!(head.has_next());
        assert!(!head.is_write_only());

        let second = head.next_descriptor(&mut mem).unwrap();
        assert_eq!(second.index, 1);
        assert_eq!(second.addr, 0x6000);
        assert_eq!(second.ttl, 7);
        assert!(!second.has_next());
        assert!(second.is_write_only());
        assert!(second.next_descriptor(&mut mem).is_none());

        let head = iter.next(&mut mem).unwrap();
        assert_eq!(head.index, 5);
        assert!(iter.next(&mut mem).is_none());
    }
    assert_eq!(queue.next_avail, 2);
    assert!(queue.iter(&mut mem).next(&mut mem).is_none());
}

#[test]
fn going_back_hands_out_a_head_again() {
    let (map, mut mem) = memory();
    put_desc(&map, 3, 0x5000, 0x100, 0, 0);
    offer(&map, &[3]);
    let mut queue = ready_queue();
    assert_eq!(queue.iter(&mut mem).next(&mut mem).unwrap().index, 3);
    assert_eq!(queue.next_avail, 1);
    queue.go_to_previous_position();
    assert_eq!(queue.next_avail, 0);
    assert_eq!(queue.iter(&mut mem).next(&mut mem).unwrap().index, 3);
    queue.next_avail = 0;
    queue.go_to_previous_position();
    assert_eq!(queue.next_avail, u16::MAX);
}

#[test]
fn closed_chain_comes_to_an_end() {
    let (map, mut mem) = memory();
    for index in 0..8u64 {
        put_desc(&map, index, 0x5000, 1, VIRTQ_DESC_F_NEXT, ((index + 1) % 8) as u16);
    }
    offer(&map, &[0]);
    let mut queue = ready_queue();
    let mut chain = queue.iter(&mut mem).next(&mut mem);
    let mut visited = 0;
    while let Some(desc) = chain {
        visited += 1;
        chain = desc.next_descriptor(&mut mem);
    }
    assert_eq!(visited, 8);
}

#[test]
fn invalid_heads_are_not_handed_out() {
    let (map, mut mem) = memory();
    put_desc(&map, 0, 0xffff, 2, 0, 0);
    put_desc(&map, 1, 0x5000, 1, VIRTQ_DESC_F_NEXT, 8);
    offer(&map, &[0, 1, 8]);
    let mut queue = ready_queue();
    {
        let mut iter = queue.iter(&mut mem);
        assert!(iter.next(&mut mem).is_none());
        assert!(iter.next(&mut mem).is_none());
        assert!(iter.next(&mut mem).is_none());
    }
    assert_eq!(queue.next_avail, 0);
}

#[test]
fn chain_is_checked_against_the_table() {
    let (map, mut mem) = memory();
    put_desc(&map, 2, 0x5000, 0x20, 0, 0);
    let chain = DescriptorChain::checked_new(&mut mem, DESC, 8, 2).unwrap();
    assert_eq!(chain.addr, 0x5000);
    assert_eq!(chain.len, 0x20);
    assert!(chain.is_valid(&mem));
    assert!(DescriptorChain::checked_new(&mut mem, DESC, 8, 8).is_none());
    put_desc(&map, 2, 0xfff0, 0x10, 0, 0);
    assert!(DescriptorChain::checked_new(&mut mem, DESC, 8, 2).is_none());
}

#[test]
fn iterator_without_a_queue_is_empty() {
    let (_, mut mem) = memory();
    let mut position = 7u16;
    {
        let mut iter = AvailIter::new(&mut position);
        assert!(iter.next(&mut mem).is_none());
    }
    assert_eq!(position, 7);
}

#[test]
fn last_index_reads_back() {
    let (map, mut mem) = memory();
    let mut queue = ready_queue();
    queue.set_last_index(&mut mem, 0x1234);
    assert_eq!(get(&map, AVAIL + 2, 2), vec![0x34, 0x12]);
    assert_eq!(queue.get_last_index(&mut mem), 0x1234);
}

#[test]
fn used_elements_are_put_into_the_ring() {
    let (map, mut mem) = memory();
    let mut queue = ready_queue();
    queue.next_used = 9;
    queue.add_used(&mut mem, 5, 0x1122);
    assert_eq!(get(&map, USED + 4 + 8, 8), vec![5, 0, 0, 0, 0x22, 0x11, 0, 0]);
    assert_eq!(get(&map, USED + 2, 2), vec![10, 0]);
    assert_eq!(queue.next_used, 10);

    queue.next_used = u16::MAX;
    queue.add_used(&mut mem, 7, 1);
    assert_eq!(get(&map, USED + 4 + 56, 8), vec![7, 0, 0, 0, 1, 0, 0, 0]);
    assert_eq!(get(&map, USED + 2, 2), vec![0, 0]);
    assert_eq!(queue.next_used, 0);
}

#[test]
fn used_index_stays_in_a_ring_of_two_regions() {
    let ranges = [(GuestAddress(0x1000), 0x2010), (GuestAddress(0x3010), 0x1000)];
    let map = GuestMemoryMmap::from_ranges(&ranges).unwrap();
    let mut mem = GuestRam::with_order(map.clone(), ByteOrder::Little);
    let mut queue = ready_queue();
    queue.next_used = 2;
    queue.add_used(&mut mem, 5, 6);
    assert_eq!(get(&map, 0x3014, 8), vec![5, 0, 0, 0, 6, 0, 0, 0]);
    assert_eq!(get(&map, USED + 2, 2), vec![3, 0]);
}

#[test]
fn used_elements_have_the_byte_order_of_the_memory() {
    let map = GuestMemoryMmap::from_ranges(&[(GuestAddress(0), 0x1_0000)]).unwrap();
    let mut mem = GuestRam::with_order(map.clone(), ByteOrder::Big);
    let mut queue = ready_queue();
    queue.add_used(&mut mem, 5, 0x1122);
    assert_eq!(get(&map, USED + 4, 8), vec![0, 0, 0, 5, 0, 0, 0x11, 0x22]);
    assert_eq!(get(&map, USED + 2, 2), vec![0, 1]);

    let mut mem = GuestRam::new(map.clone());
    queue.set_last_index(&mut mem, 0x1234);
    assert_eq!(get(&map, AVAIL + 2, 2), 0x1234u16.to_ne_bytes().to_vec());
    assert_eq!(queue.get_last_index(&mut mem), 0x1234);
}

#[test]
fn used_head_outside_the_table_is_ignored() {
    let (map, mut mem) = memory();
    let mut queue = ready_queue();
    queue.add_used(&mut mem, 8, 1);
    assert_eq!(queue.next_used, 0);
    assert_eq!(get(&map, USED, 16), vec![0u8; 16]);
}

#[test]
fn cloned_queue_is_the_same() {
    let queue = ready_queue();
    let copy = queue.clone();
    assert_eq!(copy.size, queue.size);
    assert_eq!(copy.desc_table, queue.desc_table);
    assert_eq!(copy.avail_ring, queue.avail_ring);
    assert_eq!(copy.used_ring, queue.used_ring);
    assert_eq!(copy.get_max_size(), 16);
    assert!(copy.ready);
}
