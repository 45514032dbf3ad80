use vhost::vhost_user::message::{VhostUserProtocolFeatures, VhostUserVirtioFeatures};
use vhost_user_blk::backend::{StorageBackend, VirtioBlkConfig, CONFIG_SIZE};
use vhost_user_blk::backend_raw::build_config;
use vhost_user_blk::block::{
    KickChange, MemoryRegion, VhostMmapRegion, VhostUserBlk, VringBase, F_PROTOCOL_FEATURES,
    PROTOCOL_F_CONFIG, PROTOCOL_F_MQ,
};
use vhost_user_blk::error::{BackendError, Error};
use vhost_user_blk::memory::GuestRam;
use vhost_user_blk::message::{DisableVringMsg, EnableVringMsg, VubMessage};
use vhost_user_blk::number;
use vhost_user_blk::number::ByteOrder;
use vhost_user_blk::vring::VringFd;
use vm_memory::{Bytes, GuestAddress, GuestMemoryMmap};

/// A disk that has a configuration and nothing else.
#[derive(Clone)]
struct NoDisk {
    config: VirtioBlkConfig,
    image_id: Vec<u8>,
}

impl StorageBackend for NoDisk {
    fn get_config(&self) -> &VirtioBlkConfig {
        &self.config
    }

    fn get_sectors(&self) -> u64 {
        self.config.capacity
    }

    fn get_image_id(&self) -> &Vec<u8> {
        &self.image_id
    }

    fn is_sync(&self) -> bool {
        true
    }

    fn get_last_cookie(&self) -> u32 {
        0
    }

    fn get_completion(&mut self, _wait: bool) -> Result<Option<u32>, BackendError> {
        Ok(None)
    }

    fn check_sector_offset(&self, _sector: u64, _len: u64) -> Result<(), BackendError> {
        Err(BackendError::OffsetBeyondEnd)
    }

    fn seek_sector(&mut self, _sector: u64) -> Result<u64, BackendError> {
        Err(BackendError::SectorBeyondEnd)
    }

    fn read_exact(&mut self, _buf: &mut Vec<u8>) -> Result<(), BackendError> {
        Err(BackendError::Io(5))
    }

    fn write_all(&mut self, _buf: &Vec<u8>) -> Result<(), BackendError> {
        Err(BackendError::Io(5))
    }

    fn flush(&mut self) -> Result<(), BackendError> {
        Err(BackendError::Io(5))
    }
}

fn device() -> VhostUserBlk<NoDisk> {
    VhostUserBlk::new(NoDisk { config: build_config(5120), image_id: vec![] }, 3)
}

fn region(userspace_addr: u64, memory_size: u64) -> MemoryRegion {
    MemoryRegion { guest_phys_addr: 0, memory_size, userspace_addr, mmap_offset: 0 }
}

#[test]
fn feature_bits_are_those_of_vhost_user() {
    assert_eq!(F_PROTOCOL_FEATURES, VhostUserVirtioFeatures::all().bits());
    assert_eq!(PROTOCOL_F_MQ, VhostUserProtocolFeatures::MQ.bits());
    assert_eq!(PROTOCOL_F_CONFIG, VhostUserProtocolFeatures::CONFIG.bits());
    let mut blk = device();
    assert_eq!(blk.get_features(), Ok(0x4000_0000));
    assert_eq!(blk.get_protocol_features(), Ok(0x201));
    assert_eq!(blk.get_queue_num(), Ok(3));
}

#[test]
fn addresses_are_translated_into_the_mapping() {
    let region = VhostMmapRegion::new(0x7000_0000, 0, 0x1000, 0x1000_0000);
    assert_eq!(region.qva_to_va(0x1000_0000), Ok(0x7000_0000));
    assert_eq!(region.qva_to_va(0x1000_0123), Ok(0x7000_0123));
    assert_eq!(region.qva_to_va(0x1000_1000), Ok(0x7000_1000));
    assert_eq!(region.qva_to_va(0x1000_1001), Err(Error::InvalidParam));
    assert_eq!(region.qva_to_va(0x0fff_ffff), Err(Error::InvalidParam));
    let top = VhostMmapRegion::new(u64::MAX, 0, 0x1000, 0x1000);
    assert_eq!(top.qva_to_va(0x3000), Err(Error::InvalidParam));
    assert_eq!(top.qva_to_va(0x1000), Ok(u64::MAX));
}

#[test]
fn only_one_owner_at_a_time() {
    let mut blk = device();
    assert_eq!(blk.set_owner(), Ok(()));
    assert_eq!(blk.set_owner(), Err(Error::InvalidOperation));
    assert_eq!(blk.reset_owner(), Ok(()));
    assert_eq!(blk.set_owner(), Ok(()));
}

#[test]
fn features_need_an_owner() {
    let mut blk = device();
    assert_eq!(blk.set_features(0), Err(Error::InvalidOperation));
    blk.set_owner().unwrap();
    assert_eq!(blk.set_features(0), Ok(()));
    assert_eq!(blk.set_features(0x1_0000_0000), Ok(()));
    assert_eq!(blk.set_features(0x4000_0000), Err(Error::InvalidParam));
    assert_eq!(blk.set_features(0x4000_0001), Err(Error::InvalidParam));
    assert_eq!(blk.set_protocol_features(0x201), Ok(()));
}

#[test]
fn acknowledged_features_enable_the_rings() {
    let mut blk = device();
    blk.set_owner().unwrap();
    for index in 0..3 {
        assert_eq!(blk.set_vring_num(index, 128), Ok(()));
    }
    assert!(!blk.get_vring(1).unwrap().is_enabled());
    blk.set_features(0).unwrap();
    for index in 0..3 {
        assert!(blk.get_vring(index).unwrap().is_enabled());
    }
    blk.set_vring_num(7, 128).unwrap();
    assert!(blk.get_vring(7).unwrap().is_enabled());
}

#[test]
fn rings_are_made_with_their_size() {
    let mut blk = device();
    assert!(blk.get_vring(0).is_err());
    assert_eq!(blk.set_vring_num(0, 0x1_0000), Err(Error::InvalidParam));
    assert!(blk.get_vring(0).is_err());
    assert_eq!(blk.set_vring_num(0, 0xffff), Ok(()));
    assert_eq!(blk.get_vring(0).err(), None);
    assert_eq!(blk.get_vring(1).err(), Some(Error::InvalidParam));
}

#[test]
fn base_index_is_told_when_the_ring_stops() {
    let mut blk = device();
    assert_eq!(blk.set_vring_base(2, 5), Err(Error::InvalidParam));
    assert_eq!(blk.get_vring_base(2), Err(Error::InvalidParam));
    blk.set_vring_num(2, 64).unwrap();
    assert_eq!(blk.set_vring_base(2, 0x1_0000), Err(Error::InvalidParam));
    assert_eq!(blk.set_vring_base(2, 0xfffe), Ok(()));
    assert_eq!(
        blk.get_vring_base(2),
        Ok((
            VringBase { index: 2, num: 0xfffe },
            VubMessage::DisableVring(DisableVringMsg { index: 2 })
        ))
    );
}

#[test]
fn kick_of_an_enabled_ring_starts_it() {
    let mut blk = device();
    assert_eq!(blk.set_vring_kick(0, Some(9)), Err(Error::InvalidParam));
    blk.set_vring_num(0, 64).unwrap();
    assert_eq!(
        blk.set_vring_kick(0, Some(9)),
        Ok(KickChange { close: None, message: None })
    );
    assert_eq!(
        blk.set_vring_kick(0, None),
        Ok(KickChange { close: Some(9), message: None })
    );
    blk.set_owner().unwrap();
    blk.set_features(0).unwrap();
    assert_eq!(
        blk.set_vring_kick(0, Some(11)),
        Ok(KickChange {
            close: None,
            message: Some(VubMessage::EnableVring(EnableVringMsg { index: 0, fd: 11 }))
        })
    );
    assert_eq!(blk.get_vring(0).unwrap().get_fd(VringFd::Kick), Some(11));
}

#[test]
fn call_and_error_descriptors_are_replaced() {
    let mut blk = device();
    assert_eq!(blk.set_vring_call(0, Some(4)), Err(Error::InvalidParam));
    assert_eq!(blk.set_vring_err(0, Some(4)), Err(Error::InvalidParam));
    blk.set_vring_num(0, 64).unwrap();
    assert_eq!(blk.set_vring_call(0, Some(4)), Ok(None));
    assert_eq!(blk.set_vring_err(0, Some(5)), Ok(None));
    assert_eq!(blk.set_vring_call(0, Some(6)), Ok(Some(4)));
    assert_eq!(blk.set_vring_err(0, None), Ok(Some(5)));
    assert_eq!(blk.get_vring(0).unwrap().get_fd(VringFd::Call), Some(6));
    assert_eq!(blk.get_vring(0).unwrap().get_fd(VringFd::Error), None);
}

#[test]
fn enabling_a_ring_needs_the_acknowledged_bit() {
    let mut blk = device();
    assert_eq!(blk.set_vring_enable(0, true), Err(Error::InvalidOperation));
    blk.set_owner().unwrap();
    blk.set_vring_num(0, 64).unwrap();
    blk.set_features(u64::MAX ^ F_PROTOCOL_FEATURES).unwrap();
    assert_eq!(blk.set_vring_enable(0, false), Err(Error::InvalidOperation));
    assert!(blk.get_vring(0).unwrap().is_enabled());
}

#[test]
fn config_is_that_of_the_disk() {
    let mut blk = device();
    let config = blk.get_config(&[0; CONFIG_SIZE], 0).unwrap();
    assert_eq!(config, build_config(5120).to_bytes(number::machine_order()));
    assert_eq!(&config[..8], &10u64.to_ne_bytes());
    assert_eq!(blk.get_config(&[0; 59], 0), Err(Error::InvalidParam));
    assert_eq!(blk.get_config(&[], 0), Err(Error::InvalidParam));
}

#[test]
fn config_is_handed_on_to_its_last_byte() {
    let mut config = build_config(5120);
    config.unused1 = [7, 8, 9];
    let mut blk = VhostUserBlk::new(NoDisk { config, image_id: vec![] }, 1);
    let bytes = blk.get_config(&[0; CONFIG_SIZE], 0).unwrap();
    assert_eq!(&bytes[57..], &[7, 8, 9]);
}

#[test]
fn config_is_accepted_only_if_acknowledged() {
    let mut blk = device();
    assert_eq!(blk.set_config(&[0; CONFIG_SIZE], 0, 0), Err(Error::InvalidOperation));
    blk.set_owner().unwrap();
    blk.set_features(PROTOCOL_F_CONFIG).unwrap();
    assert_eq!(blk.set_config(&[0; CONFIG_SIZE], 0, 0), Ok(()));
    assert_eq!(blk.set_config(&[0; CONFIG_SIZE], 60, 0), Ok(()));
    assert_eq!(blk.set_config(&[0; CONFIG_SIZE], 61, 0), Err(Error::InvalidParam));
    assert_eq!(blk.set_config(&[0; 8], 0, 0), Err(Error::InvalidParam));
    assert_eq!(
        blk.get_config(&[0; CONFIG_SIZE], 0).unwrap(),
        build_config(5120).to_bytes(number::machine_order())
    );
}

#[test]
fn regions_are_found_by_their_addresses() {
    let mut blk = device();
    assert_eq!(blk.find_region(0x1000).err(), Some(Error::InvalidParam));
    let regions = vec![region(0x1000, 0x1000), region(0x2000, 0x1000)];
    assert_eq!(blk.set_mem_table(&regions, &vec![Some(0xa000), Some(0xc000)]), Ok(()));
    assert_eq!(blk.find_region(0x0fff).err(), Some(Error::InvalidParam));
    assert_eq!(blk.find_region(0x1000).unwrap().mmap_addr, 0xa000);
    assert_eq!(blk.find_region(0x2000).unwrap().mmap_addr, 0xa000);
    assert_eq!(blk.find_region(0x2001).unwrap().mmap_addr, 0xc000);
    assert_eq!(blk.find_region(0x3000).unwrap().mmap_addr, 0xc000);
    assert_eq!(blk.find_region(0x3001).err(), Some(Error::InvalidParam));
}

#[test]
fn regions_up_to_a_failed_mapping_are_kept() {
    let mut blk = device();
    let regions = vec![region(0x1000, 0x100), region(0x2000, 0x100), region(0x3000, 0x100)];
    assert_eq!(
        blk.set_mem_table(&regions, &vec![Some(0xa000), None, Some(0xc000)]),
        Err(Error::OperationFailedInSlave)
    );
    assert!(blk.find_region(0x1000).is_ok());
    assert!(blk.find_region(0x2000).is_err());
    assert!(blk.find_region(0x3000).is_err());
    assert_eq!(blk.set_mem_table(&regions, &vec![]), Err(Error::OperationFailedInSlave));
    assert!(blk.find_region(0x1000).is_err());
    assert_eq!(blk.set_mem_table(&vec![], &vec![]), Ok(()));
}

#[test]
fn ring_addresses_are_translated_and_used() {
    let map = GuestMemoryMmap::from_ranges(&[(GuestAddress(0x8_0000), 0x4000)]).unwrap();
    map.write_slice(&[0x11, 0x22], GuestAddress(0x8_2002)).unwrap();
    let mut mem = GuestRam::with_order(map.clone(), ByteOrder::Little);
    let mut blk = device();
    let regions = vec![region(0x10_0000, 0x4000)];
    blk.set_mem_table(&regions, &vec![Some(0x8_0000)]).unwrap();

    let (desc, used, avail) = (0x10_0000, 0x10_2000, 0x10_1000);
    assert_eq!(
        blk.set_vring_addr(&mut mem, 0, 0, desc, used, avail, 0),
        Err(Error::InvalidParam)
    );
    blk.set_vring_num(0, 64).unwrap();
    for (desc, used, avail) in [(0, used, avail), (desc, 0, avail), (desc, used, 0)] {
        assert_eq!(
            blk.set_vring_addr(&mut mem, 0, 0, desc, used, avail, 0),
            Err(Error::InvalidParam)
        );
    }
    assert_eq!(
        blk.set_vring_addr(&mut mem, 0, 0, desc, 0x10_4000, avail, 0),
        Err(Error::InvalidParam)
    );
    assert_eq!(blk.set_vring_addr(&mut mem, 0, 0, desc, used, avail, 0), Ok(()));

    let ring = blk.get_vring(0).unwrap();
    assert_eq!(ring.add_used(&mut mem, 3, 4), Ok(()));
    let mut index = vec![0u8; 2];
    map.read_slice(&mut index, GuestAddress(0x8_2002)).unwrap();
    assert_eq!(index, vec![0x12, 0x22]);
    map.write_slice(&[5, 0], GuestAddress(0x8_1002)).unwrap();
    assert_eq!(ring.get_avail_idx(&mut mem), Ok(5));
}
