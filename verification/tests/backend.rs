use vhost_user_blk::backend::{VirtioBlkConfig, VirtioBlkGeometry, CONFIG_SIZE};
use vhost_user_blk::backend_raw::{
    build_config, build_device_id, build_image_id, check_range, sector_start, StorageBackendRaw,
    BLK_SIZE, SECTOR_SHIFT, SECTOR_SIZE, VIRTIO_BLK_ID_BYTES,
};
use vhost_user_blk::backend_raw_async::{SeekFrom, StorageBackendRawAsync};
use vhost_user_blk::error::BackendError;
use vhost_user_blk::number::ByteOrder;
use virtio_bindings::bindings::virtio_blk;

#[test]
fn sector_constants_agree() {
    assert_eq!(1u64 << SECTOR_SHIFT, SECTOR_SIZE);
    assert_eq!(BLK_SIZE as u64, SECTOR_SIZE);
    assert_eq!(VIRTIO_BLK_ID_BYTES, virtio_blk::VIRTIO_BLK_ID_BYTES);
    assert_eq!(CONFIG_SIZE, std::mem::size_of::<virtio_blk::virtio_blk_config>());
}

#[test]
fn device_id_is_three_numbers_in_a_row() {
    assert_eq!(build_device_id(2049, 0, 131_076), "20490131076");
    assert_eq!(build_device_id(0, 0, 0), "000");
    assert_eq!(
        build_device_id(u64::MAX, 7, 10),
        format!("{}{}{}", u64::MAX, 7, 10)
    );
}

#[test]
fn image_id_is_padded_or_cut() {
    let mut expected = b"20490131076".to_vec();
    expected.resize(20, 0);
    assert_eq!(build_image_id(2049, 0, 131_076), expected);
    assert_eq!(
        build_image_id(u64::MAX, u64::MAX, 1),
        b"18446744073709551615".to_vec()
    );
}

#[test]
fn config_describes_the_image() {
    let config = build_config(1_000_000);
    let expected = VirtioBlkConfig {
        capacity: 1953,
        size_max: 65535,
        seg_max: 126,
        blk_size: 512,
        min_io_size: 1,
        opt_io_size: 1,
        num_queues: 1,
        ..VirtioBlkConfig::default()
    };
    assert_eq!(config, expected);
}

#[test]
fn config_bytes_lie_where_the_driver_looks() {
    let config = VirtioBlkConfig {
        capacity: 0x0807_0605_0403_0201,
        size_max: 0x0c0b_0a09,
        seg_max: 0x100f_0e0d,
        geometry: VirtioBlkGeometry { cylinders: 0x1211, heads: 0x13, sectors: 0x14 },
        blk_size: 0x1817_1615,
        physical_block_exp: 0x19,
        alignment_offset: 0x1a,
        min_io_size: 0x1c1b,
        opt_io_size: 0x201f_1e1d,
        wce: 0x21,
        unused: 0x22,
        num_queues: 0x2423,
        max_discard_sectors: 0x2827_2625,
        max_discard_seg: 0x2c2b_2a29,
        discard_sector_alignment: 0x302f_2e2d,
        max_write_zeroes_sectors: 0x3433_3231,
        max_write_zeroes_seg: 0x3837_3635,
        write_zeroes_may_unmap: 0x39,
        unused1: [0x3a, 0x3b, 0x3c],
    };
    let expected: Vec<u8> = (1..=0x3c).collect();
    assert_eq!(config.to_bytes(ByteOrder::Little), expected);

    let big = config.to_bytes(ByteOrder::Big);
    assert_eq!(&big[..12], &[8, 7, 6, 5, 4, 3, 2, 1, 12, 11, 10, 9]);
    assert_eq!(&big[56..], &[0x39, 0x3a, 0x3b, 0x3c]);
}

#[test]
fn default_config_is_all_zero() {
    assert_eq!(VirtioBlkConfig::default().to_bytes(ByteOrder::Little), vec![0u8; 60]);
}

#[test]
fn ranges_are_checked_in_whole_sectors() {
    assert_eq!(check_range(10, 0, 5120), Ok(()));
    assert_eq!(check_range(10, 9, 512), Ok(()));
    assert_eq!(check_range(10, 9, 1), Ok(()));
    assert_eq!(check_range(10, 10, 0), Ok(()));
    assert_eq!(check_range(10, 9, 513), Err(BackendError::OffsetBeyondEnd));
    assert_eq!(check_range(10, 11, 0), Err(BackendError::OffsetBeyondEnd));
}

#[test]
fn sectors_start_at_their_multiple() {
    assert_eq!(sector_start(10, 0), Ok(0));
    assert_eq!(sector_start(10, 9), Ok(4608));
    assert_eq!(sector_start(10, 10), Err(BackendError::SectorBeyondEnd));
    assert_eq!(sector_start(0, 0), Err(BackendError::SectorBeyondEnd));
}

#[test]
fn raw_backend_answers_for_its_image() {
    let backend = StorageBackendRaw::new(5120, 1, 2, 3);
    assert_eq!(backend.get_sectors(), 10);
    assert_eq!(backend.get_config(), &build_config(5120));
    assert_eq!(backend.get_image_id(), &build_image_id(1, 2, 3));
    assert_eq!(backend.check_sector_offset(8, 1024), Ok(()));
    assert_eq!(
        backend.check_sector_offset(8, 1025),
        Err(BackendError::OffsetBeyondEnd)
    );
    assert_eq!(backend.seek_sector(3), Ok(1536));
    assert_eq!(backend.seek_sector(10), Err(BackendError::SectorBeyondEnd));
    let copy = backend.clone();
    assert_eq!(copy.get_config(), backend.get_config());
    assert_eq!(copy.get_image_id(), backend.get_image_id());
}

#[test]
fn accepted_ranges_can_be_sought() {
    let backend = StorageBackendRaw::new(5120, 1, 2, 3);
    for sector in 0..12u64 {
        for len in [1u64, 511, 512, 513, 2048] {
            if backend.check_sector_offset(sector, len).is_ok() {
                let start = backend.seek_sector(sector).unwrap();
                assert!(start + len <= 5120);
            }
        }
    }
}

#[test]
fn async_backend_seeks_and_submits() {
    let mut backend = StorageBackendRawAsync::new(5120, 1, 2, 3);
    assert!(backend.is_async());
    assert_eq!(backend.get_sectors(), 10);
    assert_eq!(backend.get_config(), &build_config(5120));
    assert_eq!(backend.get_image_id(), &build_image_id(1, 2, 3));

    assert_eq!(backend.seek_sector(4), Ok(2048));
    let first = backend.submission();
    assert_eq!(first.offset, 2048);
    assert_eq!(first.cookie, 0);
    assert_eq!(first.user_data(), 0);
    let second = backend.submission();
    assert_eq!(second.offset, 2048);
    assert_eq!(second.cookie, 1);

    assert_eq!(backend.seek_sector(10), Err(BackendError::SectorBeyondEnd));
    assert_eq!(backend.submission().offset, 2048);
    assert_eq!(backend.check_sector_offset(10, 1), Err(BackendError::OffsetBeyondEnd));
    assert_eq!(backend.check_sector_offset(9, 512), Ok(()));
}

#[test]
fn async_backend_seeks_from_three_places() {
    let mut backend = StorageBackendRawAsync::new(5200, 1, 2, 3);
    assert_eq!(backend.seek(SeekFrom::Start(100)), 100);
    assert_eq!(backend.seek(SeekFrom::Current(20)), 120);
    assert_eq!(backend.seek(SeekFrom::Current(-1)), 119);
    assert_eq!(backend.seek(SeekFrom::Current(-119)), 0);
    assert_eq!(backend.seek(SeekFrom::Start(5)), 5);
    assert_eq!(backend.seek(SeekFrom::Current(-10)), u64::MAX - 4);
    assert_eq!(backend.seek(SeekFrom::End(8)), 5128);
    assert_eq!(backend.seek(SeekFrom::End(-120)), 5000);
    assert_eq!(backend.seek(SeekFrom::Start(u64::MAX)), u64::MAX);
    assert_eq!(backend.submission().offset, -1);
}

#[test]
fn async_completion_names_its_submission() {
    let mut backend = StorageBackendRawAsync::new(5120, 1, 2, 3);
    let _ = backend.submission();
    let submission = backend.submission();
    assert_eq!(backend.get_completion(None), None);
    assert_eq!(
        backend.get_completion(Some(submission.user_data())),
        Some(submission.cookie)
    );
}
