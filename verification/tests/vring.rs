use vhost_user_blk::backend::{StorageBackend, VirtioBlkConfig};
use vhost_user_blk::backend_raw::{build_config, check_range, sector_start};
use vhost_user_blk::error::{BackendError, Error};
use vhost_user_blk::memory::GuestRam;
use vhost_user_blk::number::ByteOrder;
use vhost_user_blk::vring;
use vhost_user_blk::vring::{
    ExecuteError, Request, RequestType, Vring, VringFault, VringFd, VringMmapRegion, MAX_USED,
};
use virtio_bindings::bindings::{virtio_blk, virtio_ring};
use vm_memory::{Bytes, GuestAddress, GuestMemoryMmap};

const BASE: u64 = 0x1_0000;
const DESC: u64 = 0x1_1000;
const AVAIL: u64 = 0x1_2000;
const USED: u64 = 0x1_3000;
const SIZE: u16 = 8;

/// A disk in memory. `fails` names the operation that fails.
struct MemDisk {
    image: Vec<u8>,
    position: usize,
    config: VirtioBlkConfig,
    image_id: Vec<u8>,
    fails: &'static str,
    flushed: usize,
}

impl MemDisk {
    fn new(sectors: usize) -> MemDisk {
        MemDisk {
            image: (0..sectors * 512).map(|i| (i / 512) as u8 + 1).collect(),
            position: 0,
            config: build_config(512 * sectors as u64),
            image_id: vec![0; 20],
            fails: "",
            flushed: 0,
        }
    }

    fn outcome(&self, name: &str) -> Result<(), BackendError> {
        if self.fails == name {
            Err(BackendError::Io(5))
        } else {
            Ok(())
        }
    }
}

impl StorageBackend for MemDisk {
    fn get_config(&self) -> &VirtioBlkConfig {
        &self.config
    }

    fn get_sectors(&self) -> u64 {
        self.config.capacity
    }

    fn get_image_id(&self) -> &Vec<u8> {
        &self.image_id
    }

    fn is_sync(&self) -> bool {
        true
    }

    fn get_last_cookie(&self) -> u32 {
        0
    }

    fn get_completion(&mut self, _wait: bool) -> Result<Option<u32>, BackendError> {
        Ok(None)
    }

    fn check_sector_offset(&self, sector: u64, len: u64) -> Result<(), BackendError> {
        check_range(self.config.capacity, sector, len)
    }

    fn seek_sector(&mut self, sector: u64) -> Result<u64, BackendError> {
        self.outcome("seek")?;
        let start = sector_start(self.config.capacity, sector)?;
        self.position = start as usize;
        Ok(start)
    }

    fn read_exact(&mut self, buf: &mut Vec<u8>) -> Result<(), BackendError> {
        self.outcome("read")?;
        let end = self.position + buf.len();
        buf.copy_from_slice(&self.image[self.position..end]);
        Ok(())
    }

    fn write_all(&mut self, buf: &Vec<u8>) -> Result<(), BackendError> {
        self.outcome("write")?;
        let end = self.position + buf.len();
        self.image[self.position..end].copy_from_slice(buf);
        Ok(())
    }

    fn flush(&mut self) -> Result<(), BackendError> {
        self.outcome("flush")?;
        self.flushed += 1;
        Ok(())
    }
}

fn memory() -> (GuestMemoryMmap, GuestRam) {
    let map = GuestMemoryMmap::from_ranges(&[(GuestAddress(BASE), 0x1_0000)]).unwrap();
    (map.clone(), GuestRam::with_order(map, ByteOrder::Little))
}

fn put(map: &GuestMemoryMmap, addr: u64, bytes: &[u8]) {
    map.write_slice(bytes, GuestAddress(addr)).unwrap();
}

fn get(map: &GuestMemoryMmap, addr: u64, len: usize) -> Vec<u8> {
    let mut bytes = vec![0u8; len];
    map.read_slice(&mut bytes, GuestAddress(addr)).unwrap();
    bytes
}

fn put_desc(map: &GuestMemoryMmap, index: u16, addr: u64, len: u32, flags: u16, next: u16) {
    let at = DESC + 16 * index as u64;
    put(map, at, &addr.to_le_bytes());
    put(map, at + 8, &len.to_le_bytes());
    put(map, at + 12, &flags.to_le_bytes());
    put(map, at + 14, &next.to_le_bytes());
}

/// Puts the header of a request at `offset` into the mapping.
fn put_header(map: &GuestMemoryMmap, offset: u64, type_: u32, sector: u64) {
    put(map, BASE + offset, &type_.to_le_bytes());
    put(map, BASE + offset + 8, &sector.to_le_bytes());
}

/// A request in descriptors 0, 1 and 2, with its header at 0x5000, its data at
/// 0x6000 and its status at 0x7000.
fn put_request(map: &GuestMemoryMmap, type_: u32, sector: u64, len: u32) {
    put_header(map, 0x5000, type_, sector);
    put_desc(map, 0, 0x5000, 16, 1, 1);
    put_desc(map, 1, 0x6000, len, 1, 2);
    put_desc(map, 2, 0x7000, 1, 2, 0);
    put(map, BASE + 0x7000, &[0xee; 4]);
}

fn offer(map: &GuestMemoryMmap, heads: &[u16]) {
    for (i, head) in heads.iter().enumerate() {
        put(map, AVAIL + 4 + 2 * i as u64, &head.to_le_bytes());
    }
    put(map, AVAIL + 2, &(heads.len() as u16).to_le_bytes());
}

fn set_up(disk: MemDisk, mem: &mut GuestRam) -> Vring<MemDisk> {
    let mut ring = Vring::new(disk);
    ring.set_size(SIZE);
    let region = VringMmapRegion::new(BASE, 0x1_0000);
    ring.set_mem_table(mem, region, DESC, region, USED, region, AVAIL).unwrap();
    ring
}

/// Works on one request, and gives the status and the length it came back with.
fn one_request(disk: MemDisk, type_: u32, sector: u64, len: u32) -> (u32, u32, Vec<u8>) {
    let (map, mut mem) = memory();
    put_request(&map, type_, sector, len);
    put(&map, BASE + 0x6000, &[0x77; 4]);
    offer(&map, &[0]);
    let mut ring = set_up(disk, &mut mem);
    assert_eq!(ring.process_queue(&mut mem), Ok(true));
    assert_eq!(get(&map, USED + 2, 2), vec![1, 0]);
    assert_eq!(get(&map, USED + 4, 4), vec![0; 4]);
    let status = get(&map, BASE + 0x7000, 4);
    let used_len = get(&map, USED + 8, 4);
    (
        u32::from_le_bytes([status[0], status[1], status[2], status[3]]),
        u32::from_le_bytes([used_len[0], used_len[1], used_len[2], used_len[3]]),
        get(&map, BASE + 0x6000, 4),
    )
}

#[test]
fn constants_are_those_of_virtio() {
    assert_eq!(vring::VIRTIO_BLK_T_IN, virtio_blk::VIRTIO_BLK_T_IN);
    assert_eq!(vring::VIRTIO_BLK_T_OUT, virtio_blk::VIRTIO_BLK_T_OUT);
    assert_eq!(vring::VIRTIO_BLK_T_FLUSH, virtio_blk::VIRTIO_BLK_T_FLUSH);
    assert_eq!(vring::VIRTIO_BLK_T_GET_ID, virtio_blk::VIRTIO_BLK_T_GET_ID);
    assert_eq!(vring::VIRTIO_BLK_S_OK, virtio_blk::VIRTIO_BLK_S_OK);
    assert_eq!(vring::VIRTIO_BLK_S_IOERR, virtio_blk::VIRTIO_BLK_S_IOERR);
    assert_eq!(vring::VIRTIO_BLK_S_UNSUPP, virtio_blk::VIRTIO_BLK_S_UNSUPP);
    assert_eq!(vring::VRING_DESC_F_NEXT, virtio_ring::VRING_DESC_F_NEXT);
}

#[test]
fn failures_have_their_status() {
    let io = BackendError::Io(5);
    assert_eq!(ExecuteError::BadRequest(Error::InvalidParam).status(), 1);
    assert_eq!(ExecuteError::Flush(io).status(), 1);
    assert_eq!(ExecuteError::Read(io).status(), 1);
    assert_eq!(ExecuteError::Seek(io).status(), 1);
    assert_eq!(ExecuteError::Write(io).status(), 1);
    assert_eq!(ExecuteError::Unsupported(11).status(), 2);
}

#[test]
fn request_types_have_their_numbers() {
    assert_eq!(RequestType::from_number(0), RequestType::In);
    assert_eq!(RequestType::from_number(1), RequestType::Out);
    assert_eq!(RequestType::from_number(4), RequestType::Flush);
    assert_eq!(RequestType::from_number(8), RequestType::GetDeviceID);
    assert_eq!(RequestType::from_number(2), RequestType::Unsupported(2));
    assert_eq!(RequestType::from_number(u32::MAX), RequestType::Unsupported(u32::MAX));
}

#[test]
fn header_is_read_at_its_place() {
    let (map, mut mem) = memory();
    put_header(&map, 0x100, 1, 0x1122_3344_5566_7788);
    assert_eq!(vring::request_type(&mut mem, BASE, 0x100), Ok(RequestType::Out));
    assert_eq!(vring::sector(&mut mem, BASE, 0x100), Ok(0x1122_3344_5566_7788));
    assert_eq!(vring::request_type(&mut mem, BASE, 0xfffd), Err(VringFault::Unmapped));
    assert_eq!(vring::sector(&mut mem, BASE, 0xfff0), Ok(0));
    assert_eq!(vring::sector(&mut mem, BASE, 0xfff1), Err(VringFault::Unmapped));
    assert_eq!(vring::sector(&mut mem, u64::MAX, 1), Err(VringFault::Unmapped));
}

#[test]
fn ring_has_the_byte_order_of_the_memory() {
    let map = GuestMemoryMmap::from_ranges(&[(GuestAddress(BASE), 0x1_0000)]).unwrap();
    let mut mem = GuestRam::with_order(map.clone(), ByteOrder::Big);
    put(&map, BASE + 0x100, &[0, 0, 0, 1]);
    put(&map, BASE + 0x108, &[0, 0, 0, 0, 0, 0, 1, 2]);
    assert_eq!(vring::request_type(&mut mem, BASE, 0x100), Ok(RequestType::Out));
    assert_eq!(vring::sector(&mut mem, BASE, 0x100), Ok(0x0102));
    put(&map, USED + 2, &[0, 9]);
    put(&map, AVAIL + 2, &[1, 2]);
    let mut ring = set_up(MemDisk::new(4), &mut mem);
    assert_eq!(ring.get_avail_idx(&mut mem), Ok(0x0102));
    assert_eq!(ring.add_used(&mut mem, 3, 0x0405), Ok(()));
    assert_eq!(get(&map, USED + 4 + 8, 8), vec![0, 0, 0, 3, 0, 0, 4, 5]);
    assert_eq!(get(&map, USED + 2, 2), vec![0, 10]);
}

#[test]
fn second_run_writes_nothing() {
    let (map, mut mem) = memory();
    put_request(&map, 0, 0, 4);
    offer(&map, &[0]);
    let mut ring = set_up(MemDisk::new(4), &mut mem);
    assert_eq!(ring.process_queue(&mut mem), Ok(true));
    let before = get(&map, BASE, 0x1_0000);
    assert_eq!(ring.process_queue(&mut mem), Ok(false));
    assert_eq!(get(&map, BASE, 0x1_0000), before);
    assert_eq!(ring.get_base_index(), 1);
}

#[test]
fn new_ring_is_not_set_up() {
    let ring = Vring::new(MemDisk::new(4));
    assert!(!ring.is_enabled());
    assert_eq!(ring.get_base_index(), 0);
    assert_eq!(ring.get_fd(VringFd::Kick), None);
    assert_eq!(ring.get_fd(VringFd::Call), None);
    assert_eq!(ring.get_fd(VringFd::Error), None);
}

#[test]
fn ring_settings_read_back() {
    let mut ring = Vring::new(MemDisk::new(4));
    ring.set_enabled(true);
    ring.set_started(true);
    assert!(ring.is_enabled());
    ring.set_enabled(false);
    assert!(!ring.is_enabled());
    ring.set_base_index(0xabcd);
    assert_eq!(ring.get_base_index(), 0xabcd);
    assert_eq!(ring.set_fd(Some(3), VringFd::Kick), None);
    assert_eq!(ring.set_fd(Some(4), VringFd::Call), None);
    assert_eq!(ring.set_fd(Some(5), VringFd::Error), None);
    assert_eq!(ring.get_fd(VringFd::Kick), Some(3));
    assert_eq!(ring.get_fd(VringFd::Call), Some(4));
    assert_eq!(ring.get_fd(VringFd::Error), Some(5));
    assert_eq!(ring.set_fd(None, VringFd::Call), Some(4));
    assert_eq!(ring.get_fd(VringFd::Call), None);
    assert_eq!(ring.get_fd(VringFd::Kick), Some(3));
}

#[test]
fn unreadable_used_ring_is_refused() {
    let (_, mut mem) = memory();
    let mut ring = Vring::new(MemDisk::new(4));
    let region = VringMmapRegion::new(BASE, 0x1_0000);
    assert_eq!(
        ring.set_mem_table(&mut mem, region, DESC, region, BASE + 0xfffe, region, AVAIL),
        Err(Error::InvalidParam)
    );
}

#[test]
fn read_puts_the_disk_into_memory() {
    let (status, len, data) = one_request(MemDisk::new(4), 0, 2, 4);
    assert_eq!((status, len, data), (0, 4, vec![3; 4]));
}

#[test]
fn data_may_lie_across_adjacent_regions() {
    let ranges = [(GuestAddress(BASE), 0x6002), (GuestAddress(BASE + 0x6002), 0x9ffe)];
    let map = GuestMemoryMmap::from_ranges(&ranges).unwrap();
    let mut mem = GuestRam::with_order(map.clone(), ByteOrder::Little);
    put_request(&map, 0, 2, 4);
    offer(&map, &[0]);
    let mut ring = set_up(MemDisk::new(4), &mut mem);
    assert_eq!(ring.process_queue(&mut mem), Ok(true));
    assert_eq!(get(&map, BASE + 0x7000, 4), vec![0; 4]);
    assert_eq!(get(&map, BASE + 0x6000, 5), vec![3, 3, 3, 3, 0]);

    let request = Request {
        request_type: RequestType::Out,
        sector: 0,
        data_addr: BASE + 0x6001,
        data_len: 3,
        status_addr: 0,
    };
    put(&map, BASE + 0x6001, &[7, 8, 9]);
    let mut disk = MemDisk::new(4);
    assert_eq!(request.execute(&mut disk, &mut mem), Ok(0));
    assert_eq!(&disk.image[..4], &[7, 8, 9, 1]);
}

#[test]
fn write_puts_memory_onto_the_disk() {
    let (_, mut mem) = memory();
    let (map, mut ram) = memory();
    put(&map, BASE + 0x6000, &[9, 8, 7, 6]);
    let request = Request {
        request_type: RequestType::Out,
        sector: 1,
        data_addr: BASE + 0x6000,
        data_len: 4,
        status_addr: BASE + 0x7000,
    };
    let mut disk = MemDisk::new(4);
    assert_eq!(request.execute(&mut disk, &mut ram), Ok(0));
    assert_eq!(&disk.image[512..517], &[9, 8, 7, 6, 2]);

    let nowhere = Request { data_addr: 0, ..request };
    assert_eq!(
        nowhere.execute(&mut disk, &mut mem),
        Err(ExecuteError::BadRequest(Error::InvalidParam))
    );
    assert_eq!(one_request(MemDisk::new(4), 1, 0, 4), (0, 0, vec![0x77; 4]));
}

#[test]
fn flush_and_identification_have_no_data() {
    let (_, mut mem) = memory();
    let request = Request {
        request_type: RequestType::Flush,
        sector: 0,
        data_addr: 0,
        data_len: 0,
        status_addr: 0,
    };
    let mut disk = MemDisk::new(4);
    assert_eq!(request.execute(&mut disk, &mut mem), Ok(0));
    assert_eq!(disk.flushed, 1);
    assert_eq!(one_request(MemDisk::new(4), 8, 0, 4), (0, 0, vec![0x77; 4]));
}

#[test]
fn failed_requests_come_back_with_one_byte() {
    assert_eq!(one_request(MemDisk::new(4), 11, 0, 4), (2, 1, vec![0x77; 4]));
    assert_eq!(one_request(MemDisk::new(4), 0, 4, 4), (1, 1, vec![0x77; 4]));
    assert_eq!(one_request(MemDisk::new(4), 0, 3, 513), (1, 1, vec![0x77; 4]));
    for (fails, type_) in [("seek", 0), ("read", 0), ("write", 1), ("flush", 4)] {
        let mut disk = MemDisk::new(4);
        disk.fails = fails;
        assert_eq!(one_request(disk, type_, 0, 4), (1, 1, vec![0x77; 4]), "{}", fails);
    }
}

#[test]
fn failures_tell_what_failed() {
    let (_, mut mem) = memory();
    let request = Request {
        request_type: RequestType::In,
        sector: 0,
        data_addr: BASE,
        data_len: 4,
        status_addr: 0,
    };
    let io = BackendError::Io(5);
    for (fails, request_type, error) in [
        ("seek", RequestType::In, ExecuteError::Seek(io)),
        ("read", RequestType::In, ExecuteError::Read(io)),
        ("write", RequestType::Out, ExecuteError::Write(io)),
        ("flush", RequestType::Flush, ExecuteError::Flush(io)),
        ("", RequestType::Unsupported(7), ExecuteError::Unsupported(7)),
    ] {
        let mut disk = MemDisk::new(4);
        disk.fails = fails;
        let request = Request { request_type, ..request };
        assert_eq!(request.execute(&mut disk, &mut mem), Err(error));
    }
    let beyond = Request { sector: 4, ..request };
    assert_eq!(
        beyond.execute(&mut MemDisk::new(4), &mut mem),
        Err(ExecuteError::BadRequest(Error::InvalidParam))
    );
}

#[test]
fn request_at_the_end_without_data_fails_to_seek() {
    let (_, mut mem) = memory();
    let request = Request {
        request_type: RequestType::Flush,
        sector: 4,
        data_addr: 0,
        data_len: 0,
        status_addr: 0,
    };
    assert_eq!(
        request.execute(&mut MemDisk::new(4), &mut mem),
        Err(ExecuteError::Seek(BackendError::SectorBeyondEnd))
    );
}

#[test]
fn empty_ring_has_nothing_to_do() {
    let (map, mut mem) = memory();
    let mut ring = set_up(MemDisk::new(4), &mut mem);
    assert_eq!(ring.is_empty(&mut mem), Ok(true));
    assert_eq!(ring.process_queue(&mut mem), Ok(false));
    assert_eq!(get(&map, USED, 16), vec![0; 16]);
    offer(&map, &[0]);
    assert_eq!(ring.get_avail_idx(&mut mem), Ok(1));
    assert_eq!(ring.is_empty(&mut mem), Ok(false));
}

#[test]
fn request_is_taken_apart() {
    let (map, mut mem) = memory();
    put_request(&map, 0, 7, 0x200);
    offer(&map, &[0]);
    let mut ring = set_up(MemDisk::new(4), &mut mem);
    assert_eq!(ring.get_head_desc_idx(&mut mem, 0), Ok(0));
    let desc = ring.get_desc(&mut mem, 1).unwrap();
    assert_eq!((desc.addr, desc.len, desc.flags, desc.next), (0x6000, 0x200, 1, 2));
    let expected = Request {
        request_type: RequestType::In,
        sector: 7,
        data_addr: BASE + 0x6000,
        data_len: 0x200,
        status_addr: BASE + 0x7000,
    };
    assert_eq!(ring.get_next_request(&mut mem), Ok((expected, 0)));
    assert_eq!(ring.get_base_index(), 1);
}

#[test]
fn flush_may_go_without_data() {
    let (map, mut mem) = memory();
    put_header(&map, 0x5000, 4, 0);
    put_desc(&map, 6, 0x5000, 16, 1, 3);
    put_desc(&map, 3, 0x7000, 1, 2, 0);
    offer(&map, &[6]);
    let mut ring = set_up(MemDisk::new(4), &mut mem);
    let expected = Request {
        request_type: RequestType::Flush,
        sector: 0,
        data_addr: 0,
        data_len: 0,
        status_addr: BASE + 0x7000,
    };
    assert_eq!(ring.get_next_request(&mut mem), Ok((expected, 6)));
}

#[test]
fn other_requests_need_data() {
    let (map, mut mem) = memory();
    put_header(&map, 0x5000, 0, 0);
    put_desc(&map, 0, 0x5000, 16, 1, 1);
    put_desc(&map, 1, 0x7000, 1, 2, 0);
    offer(&map, &[0]);
    let mut ring = set_up(MemDisk::new(4), &mut mem);
    let fault = VringFault::BadChain(Error::OperationFailedInSlave);
    assert_eq!(ring.process_queue(&mut mem), Err(fault));
    assert_eq!(ring.get_base_index(), 1);
    assert_eq!(get(&map, USED, 16), vec![0; 16]);
}

#[test]
fn head_outside_the_table_is_a_fault() {
    let (map, mut mem) = memory();
    offer(&map, &[9]);
    let mut ring = set_up(MemDisk::new(4), &mut mem);
    assert_eq!(ring.process_queue(&mut mem), Err(VringFault::BogusHead(9)));
    assert_eq!(ring.get_base_index(), 0);

    put(&map, AVAIL + 4, &8u16.to_le_bytes());
    assert_eq!(ring.get_head_desc_idx(&mut mem, 0), Ok(8));
}

#[test]
fn ring_without_entries_is_a_fault() {
    let (map, mut mem) = memory();
    offer(&map, &[0]);
    let mut ring = set_up(MemDisk::new(4), &mut mem);
    ring.set_size(0);
    assert_eq!(ring.process_queue(&mut mem), Err(VringFault::BadSize));
    assert_eq!(ring.add_used(&mut mem, 0, 0), Err(VringFault::BadSize));
    ring.set_size(u16::MAX);
    assert_eq!(ring.get_head_desc_idx(&mut mem, 0x8000), Err(VringFault::BadSize));
}

#[test]
fn descriptors_outside_memory_are_a_fault() {
    let (map, mut mem) = memory();
    put_desc(&map, 0, 0x1_0000, 16, 1, 1);
    offer(&map, &[0]);
    let mut ring = set_up(MemDisk::new(4), &mut mem);
    assert_eq!(ring.process_queue(&mut mem), Err(VringFault::Unmapped));

    let (map, mut mem) = memory();
    put_request(&map, 0, 0, 4);
    put_desc(&map, 2, 0xfffd, 1, 2, 0);
    offer(&map, &[0]);
    let mut ring = set_up(MemDisk::new(4), &mut mem);
    assert_eq!(ring.process_queue(&mut mem), Err(VringFault::Unmapped));
    assert_eq!(get(&map, USED + 2, 2), vec![0, 0]);
}

#[test]
fn requests_come_back_in_order() {
    let (map, mut mem) = memory();
    put_header(&map, 0x5000, 4, 0);
    put_header(&map, 0x5100, 2, 0);
    put_header(&map, 0x5200, 0, 1);
    put_desc(&map, 0, 0x5000, 16, 1, 1);
    put_desc(&map, 1, 0x7000, 1, 2, 0);
    put_desc(&map, 2, 0x5100, 16, 1, 3);
    put_desc(&map, 3, 0x6000, 4, 1, 4);
    put_desc(&map, 4, 0x7100, 1, 2, 0);
    put_desc(&map, 5, 0x5200, 16, 1, 6);
    put_desc(&map, 6, 0x6100, 512, 1, 7);
    put_desc(&map, 7, 0x7200, 1, 2, 0);
    for offset in [0x7000, 0x7100, 0x7200] {
        put(&map, BASE + offset, &[0xee; 4]);
    }
    put(&map, USED + 2, &0xffffu16.to_le_bytes());
    offer(&map, &[5, 0, 2]);
    let mut ring = set_up(MemDisk::new(4), &mut mem);
    assert_eq!(ring.process_queue(&mut mem), Ok(true));

    assert_eq!(ring.get_base_index(), 3);
    assert_eq!(get(&map, USED + 2, 2), vec![2, 0]);
    assert_eq!(get(&map, USED + 4 + 56, 8), vec![5, 0, 0, 0, 0, 2, 0, 0]);
    assert_eq!(get(&map, USED + 4, 8), vec![0, 0, 0, 0, 0, 0, 0, 0]);
    assert_eq!(get(&map, USED + 12, 8), vec![2, 0, 0, 0, 1, 0, 0, 0]);
    assert_eq!(get(&map, BASE + 0x7000, 4), vec![0, 0, 0, 0]);
    assert_eq!(get(&map, BASE + 0x7100, 4), vec![2, 0, 0, 0]);
    assert_eq!(get(&map, BASE + 0x7200, 4), vec![0, 0, 0, 0]);
    assert_eq!(get(&map, BASE + 0x6100, 2), vec![2, 2]);
    assert_eq!(ring.process_queue(&mut mem), Ok(false));
}

#[test]
fn base_index_is_where_taking_starts() {
    let (map, mut mem) = memory();
    put_request(&map, 8, 0, 4);
    offer(&map, &[1, 1, 0]);
    let mut ring = set_up(MemDisk::new(4), &mut mem);
    ring.set_base_index(2);
    assert_eq!(ring.process_queue(&mut mem), Ok(true));
    assert_eq!(ring.get_base_index(), 3);
    assert_eq!(get(&map, USED + 2, 2), vec![1, 0]);
}

#[test]
fn too_many_requests_are_a_fault() {
    let (map, mut mem) = memory();
    put_request(&map, 8, 0, 4);
    let mut ring = set_up(MemDisk::new(4), &mut mem);
    put(&map, AVAIL + 2, &(MAX_USED as u16).to_le_bytes());
    assert_eq!(ring.process_queue(&mut mem), Ok(true));
    assert_eq!(get(&map, USED + 2, 2), vec![0, 4]);
    put(&map, AVAIL + 2, &(2 * MAX_USED as u16 + 1).to_le_bytes());
    assert_eq!(ring.process_queue(&mut mem), Err(VringFault::Overrun));
    assert_eq!(get(&map, USED + 2, 2), vec![0, 4]);
}

#[test]
fn unmapped_used_ring_returns_nothing() {
    let (map, mut mem) = memory();
    put_request(&map, 8, 0, 4);
    offer(&map, &[0]);
    let mut ring = Vring::new(MemDisk::new(4));
    ring.set_size(SIZE);
    let region = VringMmapRegion::new(BASE, 0x1_0000);
    let used = BASE + 0xfffc;
    ring.set_mem_table(&mut mem, region, DESC, region, used, region, AVAIL).unwrap();
    assert_eq!(ring.process_queue(&mut mem), Err(VringFault::Unmapped));
    assert_eq!(get(&map, used, 4), vec![0; 4]);
    assert_eq!(ring.add_used(&mut mem, 0, 0), Err(VringFault::Unmapped));
}

#[test]
fn returned_request_is_in_the_used_ring() {
    let (map, mut mem) = memory();
    put(&map, USED + 2, &12u16.to_le_bytes());
    let mut ring = set_up(MemDisk::new(4), &mut mem);
    assert_eq!(ring.add_used(&mut mem, 0x0102, 0x0a0b_0c0d), Ok(()));
    assert_eq!(get(&map, USED + 4 + 32, 8), vec![2, 1, 0, 0, 0x0d, 0x0c, 0x0b, 0x0a]);
    assert_eq!(get(&map, USED + 2, 2), vec![13, 0]);
}

#[test]
fn signal_succeeds_if_something_was_written() {
    let mut ring = Vring::new(MemDisk::new(4));
    ring.set_fd(Some(4), VringFd::Call);
    assert_eq!(ring.signal_guest(8), Ok(()));
    assert_eq!(ring.signal_guest(0), Err(Error::InvalidParam));
    assert_eq!(ring.signal_guest(-1), Err(Error::InvalidParam));
    assert_eq!(vring::GUEST_SIGNAL, 1);
}
