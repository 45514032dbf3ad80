//! What the device asks of a disk image.
use crate::error::BackendError;
use crate::number;
use crate::number::ByteOrder;
use vstd::prelude::*;

verus! {

/// The cylinders, heads and sectors of a disk.
#[derive(Clone, Copy, Debug, PartialEq, Eq, Structural)]
pub struct VirtioBlkGeometry {
    pub cylinders: u16,
    pub heads: u8,
    pub sectors: u8,
}

/// The configuration space of a virtio block device.
#[derive(Clone, Copy, Debug, PartialEq, Eq)]
pub struct VirtioBlkConfig {
    /// The capacity in sectors.
    pub capacity: u64,
    /// The maximum segment size.
    pub size_max: u32,
    /// The maximum number of segments.
    pub seg_max: u32,
    /// The geometry of the device.
    pub geometry: VirtioBlkGeometry,
    /// The block size of the device.
    pub blk_size: u32,
    /// Exponent for physical blocks per logical block.
    pub physical_block_exp: u8,
    /// Alignment offset in logical blocks.
    pub alignment_offset: u8,
    /// Minimum size of an access without performance penalty, in logical blocks.
    pub min_io_size: u16,
    /// Optimal size of a sustained access, in logical blocks.
    pub opt_io_size: u32,
    /// Writeback mode.
    pub wce: u8,
    /// Not used.
    pub unused: u8,
    /// The number of queues.
    pub num_queues: u16,
    /// The maximum number of sectors of a discard segment.
    pub max_discard_sectors: u32,
    /// The maximum number of discard segments.
    pub max_discard_seg: u32,
    /// The alignment of discards, in sectors.
    pub discard_sector_alignment: u32,
    /// The maximum number of sectors of a write-zeroes segment.
    pub max_write_zeroes_sectors: u32,
    /// The maximum number of write-zeroes segments.
    pub max_write_zeroes_seg: u32,
    /// Whether a write-zeroes request may unmap its sectors.
    pub write_zeroes_may_unmap: u8,
    /// Not used.
    pub unused1: [u8; 3],
}

/// The size of the configuration space in bytes.
pub const CONFIG_SIZE: usize = 60;

impl VirtioBlkConfig {
    /// The configuration space as the driver sees it: the bytes of every field in
    /// turn.
    pub open spec fn bytes(&self, order: ByteOrder) -> Seq<u8> {
        number::encoded(order, self.capacity as nat, 8)
            + number::encoded(order, self.size_max as nat, 4)
            + number::encoded(order, self.seg_max as nat, 4)
            + number::encoded(order, self.geometry.cylinders as nat, 2)
            + number::encoded(order, self.geometry.heads as nat, 1)
            + number::encoded(order, self.geometry.sectors as nat, 1)
            + number::encoded(order, self.blk_size as nat, 4)
            + number::encoded(order, self.physical_block_exp as nat, 1)
            + number::encoded(order, self.alignment_offset as nat, 1)
            + number::encoded(order, self.min_io_size as nat, 2)
            + number::encoded(order, self.opt_io_size as nat, 4)
            + number::encoded(order, self.wce as nat, 1)
            + number::encoded(order, self.unused as nat, 1)
            + number::encoded(order, self.num_queues as nat, 2)
            + number::encoded(order, self.max_discard_sectors as nat, 4)
            + number::encoded(order, self.max_discard_seg as nat, 4)
            + number::encoded(order, self.discard_sector_alignment as nat, 4)
            + number::encoded(order, self.max_write_zeroes_sectors as nat, 4)
            + number::encoded(order, self.max_write_zeroes_seg as nat, 4)
            + number::encoded(order, self.write_zeroes_may_unmap as nat, 1)
            + self.unused1@
    }

    /// The configuration space as the driver sees it.
    pub fn to_bytes(&self, order: ByteOrder) -> (bytes: Vec<u8>)
        ensures
            bytes@ == self.bytes(order),
            bytes@.len() == CONFIG_SIZE,
    {
        let mut bytes: Vec<u8> = number::encode(order, self.capacity, 8);
        number::encode_into(order, &mut bytes, self.size_max as u64, 4);
        number::encode_into(order, &mut bytes, self.seg_max as u64, 4);
        number::encode_into(order, &mut bytes, self.geometry.cylinders as u64, 2);
        number::encode_into(order, &mut bytes, self.geometry.heads as u64, 1);
        number::encode_into(order, &mut bytes, self.geometry.sectors as u64, 1);
        number::encode_into(order, &mut bytes, self.blk_size as u64, 4);
        number::encode_into(order, &mut bytes, self.physical_block_exp as u64, 1);
        number::encode_into(order, &mut bytes, self.alignment_offset as u64, 1);
        number::encode_into(order, &mut bytes, self.min_io_size as u64, 2);
        number::encode_into(order, &mut bytes, self.opt_io_size as u64, 4);
        number::encode_into(order, &mut bytes, self.wce as u64, 1);
        number::encode_into(order, &mut bytes, self.unused as u64, 1);
        number::encode_into(order, &mut bytes, self.num_queues as u64, 2);
        number::encode_into(order, &mut bytes, self.max_discard_sectors as u64, 4);
        number::encode_into(order, &mut bytes, self.max_discard_seg as u64, 4);
        number::encode_into(order, &mut bytes, self.discard_sector_alignment as u64, 4);
        number::encode_into(order, &mut bytes, self.max_write_zeroes_sectors as u64, 4);
        number::encode_into(order, &mut bytes, self.max_write_zeroes_seg as u64, 4);
        number::encode_into(order, &mut bytes, self.write_zeroes_may_unmap as u64, 1);
        bytes.push(self.unused1[0]);
        bytes.push(self.unused1[1]);
        bytes.push(self.unused1[2]);
        proof {
            self.lemma_bytes_len(order);
        }
        bytes
    }

    /// The configuration space has a fixed size.
    pub proof fn lemma_bytes_len(&self, order: ByteOrder)
        ensures
            self.bytes(order).len() == CONFIG_SIZE,
    {
        assert forall|value: nat, n: nat| #[trigger]
            number::encoded(order, value, n).len() == n by {
            number::lemma_encoded_len(order, value, n);
        }
    }
}

impl Default for VirtioBlkConfig {
    fn default() -> (config: VirtioBlkConfig)
        ensures
            config == (VirtioBlkConfig {
                capacity: 0,
                size_max: 0,
                seg_max: 0,
                geometry: VirtioBlkGeometry { cylinders: 0, heads: 0, sectors: 0 },
                blk_size: 0,
                physical_block_exp: 0,
                alignment_offset: 0,
                min_io_size: 0,
                opt_io_size: 0,
                wce: 0,
                unused: 0,
                num_queues: 0,
                max_discard_sectors: 0,
                max_discard_seg: 0,
                discard_sector_alignment: 0,
                max_write_zeroes_sectors: 0,
                max_write_zeroes_seg: 0,
                write_zeroes_may_unmap: 0,
                unused1: [0, 0, 0],
            }),
    {
        VirtioBlkConfig {
            capacity: 0,
            size_max: 0,
            seg_max: 0,
            geometry: VirtioBlkGeometry { cylinders: 0, heads: 0, sectors: 0 },
            blk_size: 0,
            physical_block_exp: 0,
            alignment_offset: 0,
            min_io_size: 0,
            opt_io_size: 0,
            wce: 0,
            unused: 0,
            num_queues: 0,
            max_discard_sectors: 0,
            max_discard_seg: 0,
            discard_sector_alignment: 0,
            max_write_zeroes_sectors: 0,
            max_write_zeroes_seg: 0,
            write_zeroes_may_unmap: 0,
                unused1: [0, 0, 0],
        }
    }
}

/// One operation on a disk image, with its outcome.
pub enum DiskOp {
    /// The position was set to the start of `sector`.
    Seek { sector: u64, position: Result<u64, BackendError> },
    /// As many bytes as `bytes` has were asked for at the position; on success
    /// `bytes` is what they were.
    Read { bytes: Seq<u8>, outcome: Result<(), BackendError> },
    /// `bytes` were to be written at the position.
    Write { bytes: Seq<u8>, outcome: Result<(), BackendError> },
    /// What was written was to be made durable.
    Flush { outcome: Result<(), BackendError> },
}

/// A disk image. An implementation does each operation that is asked of it, and
/// does not change its mind about its configuration or about which ranges it has.
///
/// The three spec functions say what an implementation is like. One that does not
/// define them leaves open which functions of its state they are.
pub trait StorageBackend: Sized {
    /// The operations so far, the first one first.
    open spec fn ops(&self) -> Seq<DiskOp> {
        arbitrary::<spec_fn(Self) -> Seq<DiskOp>>()(*self)
    }

    /// Which ranges the image has, by first sector and length in bytes.
    open spec fn accepts(&self) -> spec_fn(u64, u64) -> bool {
        arbitrary::<spec_fn(Self) -> spec_fn(u64, u64) -> bool>()(*self)
    }

    /// The configuration of the device.
    open spec fn config(&self) -> VirtioBlkConfig {
        arbitrary::<spec_fn(Self) -> VirtioBlkConfig>()(*self)
    }

    /// The configuration of the device.
    fn get_config(&self) -> (config: &VirtioBlkConfig)
        ensures
            *config == self.config(),
    ;

    /// The number of sectors of the image.
    fn get_sectors(&self) -> (sectors: u64)
        ensures
            sectors == self.config().capacity,
    ;

    /// The bytes by which the driver identifies the image.
    fn get_image_id(&self) -> &Vec<u8>;

    /// Whether reads and writes are done when the call returns.
    fn is_sync(&self) -> bool;

    /// The cookie of the last read or write.
    fn get_last_cookie(&self) -> u32;

    /// The cookie of a read or write that has been completed.
    fn get_completion(&mut self, wait: bool) -> Result<Option<u32>, BackendError>;

    /// Whether the image has the `len` bytes from `sector` on.
    fn check_sector_offset(&self, sector: u64, len: u64) -> (outcome: Result<(), BackendError>)
        ensures
            outcome.is_ok() == (self.accepts())(sector, len),
    ;

    /// Sets the position to the start of `sector`.
    fn seek_sector(&mut self, sector: u64) -> (position: Result<u64, BackendError>)
        ensures
            final(self).ops() == old(self).ops().push(DiskOp::Seek { sector, position }),
            final(self).accepts() == old(self).accepts(),
            final(self).config() == old(self).config(),
    ;

    /// Fills `buf` from the position on.
    fn read_exact(&mut self, buf: &mut Vec<u8>) -> (outcome: Result<(), BackendError>)
        ensures
            final(buf)@.len() == old(buf)@.len(),
            final(self).ops() == old(self).ops().push(
                DiskOp::Read { bytes: final(buf)@, outcome },
            ),
            final(self).accepts() == old(self).accepts(),
            final(self).config() == old(self).config(),
    ;

    /// Writes `buf` from the position on.
    fn write_all(&mut self, buf: &Vec<u8>) -> (outcome: Result<(), BackendError>)
        ensures
            final(self).ops() == old(self).ops().push(DiskOp::Write { bytes: buf@, outcome }),
            final(self).accepts() == old(self).accepts(),
            final(self).config() == old(self).config(),
    ;

    /// Makes what was written durable.
    fn flush(&mut self) -> (outcome: Result<(), BackendError>)
        ensures
            final(self).ops() == old(self).ops().push(DiskOp::Flush { outcome }),
            final(self).accepts() == old(self).accepts(),
            final(self).config() == old(self).config(),
    ;
}

} // verus!
