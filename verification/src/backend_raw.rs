//! Raw disk images: how they are described to the driver, and which sectors
//! they have.
use crate::backend::{VirtioBlkConfig, VirtioBlkGeometry};
use crate::error::BackendError;
use vstd::prelude::*;
use vstd::string::StringExecFns;

verus! {

/// The binary logarithm of the sector size.
pub const SECTOR_SHIFT: u8 = 9;

/// The size of a sector in bytes.
pub const SECTOR_SIZE: u64 = 512;

/// The block size that the driver is told.
pub const BLK_SIZE: u32 = 512;

/// The size of the bytes that identify an image.
pub const VIRTIO_BLK_ID_BYTES: u32 = 20;

/// The decimal digit `d`.
pub open spec fn digit(d: nat) -> char {
    (48 + d) as char
}

/// The decimal digits of `n`, the most significant one first.
pub open spec fn decimal(n: nat) -> Seq<char>
    decreases n,
{
    if n < 10 {
        seq![digit(n)]
    } else {
        decimal(n / 10).push(digit(n % 10))
    }
}

/// The identification of the file with inode `ino` on device `dev`, itself the
/// device `rdev`.
pub open spec fn device_id(dev: u64, rdev: u64, ino: u64) -> Seq<char> {
    decimal(dev as nat) + decimal(rdev as nat) + decimal(ino as nat)
}

/// The bytes that identify an image: as much of `id` as fits, then zeros.
pub open spec fn id_bytes(id: Seq<char>) -> Seq<u8> {
    Seq::new(
        VIRTIO_BLK_ID_BYTES as nat,
        |i: int|
            if i < id.len() {
                id[i] as u8
            } else {
                0u8
            },
    )
}

/// The configuration of a device for an image of `len` bytes.
pub open spec fn config_for(len: u64) -> VirtioBlkConfig {
    VirtioBlkConfig {
        capacity: len / SECTOR_SIZE,
        size_max: 65535,
        seg_max: 126,
        geometry: VirtioBlkGeometry { cylinders: 0, heads: 0, sectors: 0 },
        blk_size: BLK_SIZE,
        physical_block_exp: 0,
        alignment_offset: 0,
        min_io_size: 1,
        opt_io_size: 1,
        wce: 0,
        unused: 0,
        num_queues: 1,
        max_discard_sectors: 0,
        max_discard_seg: 0,
        discard_sector_alignment: 0,
        max_write_zeroes_sectors: 0,
        max_write_zeroes_seg: 0,
        write_zeroes_may_unmap: 0,
        unused1: [0, 0, 0],
    }
}

/// How many sectors `len` bytes take up.
pub open spec fn sectors_of(len: u64) -> int {
    (len + SECTOR_SIZE - 1) / SECTOR_SIZE as int
}

/// Whether an image of `capacity` sectors has the `len` bytes from `sector` on.
pub open spec fn range_fits(capacity: u64, sector: u64, len: u64) -> bool {
    sector + sectors_of(len) <= capacity
}

/// The decimal digit `d`.
fn digit_str(d: u64) -> (s: &'static str)
    requires
        d < 10,
    ensures
        s@ == seq![digit(d as nat)],
{
    proof {
        reveal_strlit("0");
        reveal_strlit("1");
        reveal_strlit("2");
        reveal_strlit("3");
        reveal_strlit("4");
        reveal_strlit("5");
        reveal_strlit("6");
        reveal_strlit("7");
        reveal_strlit("8");
        reveal_strlit("9");
    }
    let s: &'static str = match d {
        0 => "0",
        1 => "1",
        2 => "2",
        3 => "3",
        4 => "4",
        5 => "5",
        6 => "6",
        7 => "7",
        8 => "8",
        _ => "9",
    };
    assert(s@ =~= seq![digit(d as nat)]);
    s
}

/// Appends the decimal digits of `n`.
fn push_decimal(text: &mut String, n: u64)
    ensures
        final(text)@ == old(text)@ + decimal(n as nat),
    decreases n,
{
    let ghost before = text@;
    if n >= 10 {
        push_decimal(text, n / 10);
    }
    text.append(digit_str(n % 10));
    assert(text@ =~= before + decimal(n as nat));
}

/// The identification of an image, from its device, its own device number and
/// its inode.
pub fn build_device_id(dev: u64, rdev: u64, ino: u64) -> (id: String)
    ensures
        id@ == device_id(dev, rdev, ino),
{
    let mut id: String = String::new();
    push_decimal(&mut id, dev);
    push_decimal(&mut id, rdev);
    push_decimal(&mut id, ino);
    assert(id@ =~= device_id(dev, rdev, ino));
    id
}

/// Decimal digits are ASCII characters.
proof fn lemma_decimal_is_ascii(n: nat)
    ensures
        vstd::utf8::is_ascii_chars(decimal(n)),
    decreases n,
{
    if n >= 10 {
        lemma_decimal_is_ascii(n / 10);
    }
}

/// The bytes that identify an image.
pub fn build_image_id(dev: u64, rdev: u64, ino: u64) -> (image_id: Vec<u8>)
    ensures
        image_id@ == id_bytes(device_id(dev, rdev, ino)),
{
    let id: String = build_device_id(dev, rdev, ino);
    let bytes: &[u8] = id.as_str().as_bytes();
    proof {
        lemma_decimal_is_ascii(dev as nat);
        lemma_decimal_is_ascii(rdev as nat);
        lemma_decimal_is_ascii(ino as nat);
        vstd::utf8::is_ascii_chars_encode_utf8(id@);
    }
    let mut image_id: Vec<u8> = Vec::new();
    let mut i: usize = 0;
    while i < VIRTIO_BLK_ID_BYTES as usize
        invariant
            0 <= i <= VIRTIO_BLK_ID_BYTES,
            bytes@.len() == device_id(dev, rdev, ino).len(),
            forall|j: int|
                0 <= j < bytes@.len() ==> #[trigger] bytes@[j] == device_id(
                    dev,
                    rdev,
                    ino,
                )[j] as u8,
            image_id@ == id_bytes(device_id(dev, rdev, ino)).take(i as int),
        decreases VIRTIO_BLK_ID_BYTES - i,
    {
        let byte: u8 = if i < bytes.len() {
            bytes[i]
        } else {
            0
        };
        image_id.push(byte);
        i = i + 1;
        assert(image_id@ =~= id_bytes(device_id(dev, rdev, ino)).take(i as int));
    }
    assert(image_id@ =~= id_bytes(device_id(dev, rdev, ino)));
    image_id
}

/// The configuration of a device for an image of `len` bytes.
pub fn build_config(len: u64) -> (config: VirtioBlkConfig)
    ensures
        config == config_for(len),
{
    let mut config: VirtioBlkConfig = VirtioBlkConfig::default();
    config.capacity = len / SECTOR_SIZE;
    config.blk_size = BLK_SIZE;
    config.size_max = 65535;
    config.seg_max = 128 - 2;
    config.min_io_size = 1;
    config.opt_io_size = 1;
    config.num_queues = 1;
    config
}

/// The outcome of checking a range against an image of `capacity` sectors.
pub open spec fn range_outcome(capacity: u64, sector: u64, len: u64) -> Result<(), BackendError> {
    if range_fits(capacity, sector, len) {
        Ok(())
    } else {
        Err(BackendError::OffsetBeyondEnd)
    }
}

/// Where `sector` starts in an image of `capacity` sectors.
pub open spec fn seek_outcome(capacity: u64, sector: u64) -> Result<u64, BackendError> {
    if sector < capacity {
        Ok((sector * SECTOR_SIZE) as u64)
    } else {
        Err(BackendError::SectorBeyondEnd)
    }
}

/// Whether an image of `capacity` sectors has the `len` bytes from `sector` on.
pub fn check_range(capacity: u64, sector: u64, len: u64) -> (outcome: Result<(), BackendError>)
    requires
        sector + sectors_of(len) <= u64::MAX,
    ensures
        outcome == range_outcome(capacity, sector, len),
{
    let mut top: u64 = len / SECTOR_SIZE;
    if len % SECTOR_SIZE != 0 {
        top += 1;
    }
    top = top + sector;
    if top > capacity {
        Err(BackendError::OffsetBeyondEnd)
    } else {
        Ok(())
    }
}

/// Where `sector` starts in an image of `capacity` sectors.
pub fn sector_start(capacity: u64, sector: u64) -> (outcome: Result<u64, BackendError>)
    requires
        capacity * SECTOR_SIZE <= u64::MAX,
    ensures
        outcome == seek_outcome(capacity, sector),
{
    if sector >= capacity {
        return Err(BackendError::SectorBeyondEnd);
    }
    assert(sector < 0x80_0000_0000_0000 ==> sector << 9u8 == sector * 512) by (bit_vector);
    Ok(sector << SECTOR_SHIFT)
}

/// A raw image, apart from the file that holds it.
pub struct StorageBackendRaw {
    image_id: Vec<u8>,
    config: VirtioBlkConfig,
}

impl StorageBackendRaw {
    /// The configuration of the device.
    pub closed spec fn config(&self) -> VirtioBlkConfig {
        self.config
    }

    /// The bytes by which the driver identifies the image.
    pub closed spec fn image_id(&self) -> Seq<u8> {
        self.image_id@
    }

    /// Every sector starts at an offset that fits into 64 bits, and the
    /// identification has its fixed size.
    #[verifier::type_invariant]
    spec fn well_formed(&self) -> bool {
        &&& self.config.capacity * SECTOR_SIZE <= u64::MAX
        &&& self.image_id@.len() == VIRTIO_BLK_ID_BYTES
    }

    /// Describes an image of `len` bytes, held by the file with inode `ino` on
    /// device `dev`, itself the device `rdev`.
    pub fn new(len: u64, dev: u64, rdev: u64, ino: u64) -> (backend: StorageBackendRaw)
        ensures
            backend.config() == config_for(len),
            backend.image_id() == id_bytes(device_id(dev, rdev, ino)),
    {
        StorageBackendRaw {
            image_id: build_image_id(dev, rdev, ino),
            config: build_config(len),
        }
    }

    /// The configuration of the device.
    pub fn get_config(&self) -> (config: &VirtioBlkConfig)
        ensures
            *config == self.config(),
    {
        &self.config
    }

    /// The number of sectors of the image.
    pub fn get_sectors(&self) -> (sectors: u64)
        ensures
            sectors == self.config().capacity,
    {
        self.config.capacity
    }

    /// The bytes by which the driver identifies the image.
    pub fn get_image_id(&self) -> (image_id: &Vec<u8>)
        ensures
            image_id@ == self.image_id(),
            image_id@.len() == VIRTIO_BLK_ID_BYTES,
    {
        proof {
            use_type_invariant(self);
        }
        &self.image_id
    }

    /// Whether the image has the `len` bytes from `sector` on.
    pub fn check_sector_offset(&self, sector: u64, len: u64) -> (outcome: Result<(), BackendError>)
        requires
            sector + sectors_of(len) <= u64::MAX,
        ensures
            outcome == range_outcome(self.config().capacity, sector, len),
    {
        check_range(self.config.capacity, sector, len)
    }

    /// Where in the image `sector` starts.
    pub fn seek_sector(&self, sector: u64) -> (outcome: Result<u64, BackendError>)
        ensures
            outcome == seek_outcome(self.config().capacity, sector),
    {
        proof {
            use_type_invariant(self);
        }
        sector_start(self.config.capacity, sector)
    }
}

impl Clone for StorageBackendRaw {
    fn clone(&self) -> (backend: StorageBackendRaw)
        ensures
            backend.config() == self.config(),
            backend.image_id() == self.image_id(),
    {
        proof {
            use_type_invariant(self);
        }
        StorageBackendRaw { image_id: self.image_id.clone(), config: self.config }
    }
}

/// The device is told about the whole sectors of an image, and no others: a
/// range that is accepted lies in the image, and a range that lies in the
/// image's whole sectors is accepted.
pub proof fn law_accepted_range_is_in_image(image_len: u64, sector: u64, len: u64)
    ensures
        range_fits(config_for(image_len).capacity, sector, len) ==> sector * SECTOR_SIZE + len
            <= image_len,
        sector * SECTOR_SIZE + len <= (image_len / SECTOR_SIZE) * SECTOR_SIZE ==> range_fits(
            config_for(image_len).capacity,
            sector,
            len,
        ),
{
}

/// A sector that can be sought lies in the image as a whole.
pub proof fn law_sought_sector_is_in_image(image_len: u64, sector: u64)
    ensures
        seek_outcome(config_for(image_len).capacity, sector) matches Ok(start) ==> start
            == sector * SECTOR_SIZE && start + SECTOR_SIZE <= image_len,
{
}

/// A range that is accepted and not empty starts at a sector that can be
/// sought.
pub proof fn law_accepted_range_can_be_sought(capacity: u64, sector: u64, len: u64)
    requires
        range_fits(capacity, sector, len),
        len > 0,
    ensures
        seek_outcome(capacity, sector).is_ok(),
{
}

/// A range is accepted exactly if it ends before the last sector does, and refused as
/// beyond the end otherwise.
pub proof fn law_range_is_accepted_by_its_end(capacity: u64, sector: u64, len: u64)
    ensures
        range_outcome(capacity, sector, len).is_ok() <==> sector * 512 + len <= capacity * 512,
        range_outcome(capacity, sector, len) matches Err(error) ==> error
            == BackendError::OffsetBeyondEnd,
{
}

/// A sector is sought exactly if the image has it, and starts at its multiple of 512.
pub proof fn law_sector_starts_at_its_multiple(capacity: u64, sector: u64)
    requires
        capacity * 512 <= u64::MAX,
    ensures
        match seek_outcome(capacity, sector) {
            Ok(start) => sector < capacity && start == sector * 512,
            Err(error) => sector >= capacity && error == BackendError::SectorBeyondEnd,
        },
{
}

/// The device tells of as many sectors of 512 bytes as the image has in full, in blocks
/// of that size, with one queue.
pub proof fn law_config_fits_the_image(len: u64)
    ensures
        config_for(len).capacity * 512 <= len < (config_for(len).capacity + 1) * 512,
        config_for(len).blk_size == 512,
        config_for(len).size_max == 65535,
        config_for(len).seg_max == 126,
        config_for(len).min_io_size == 1,
        config_for(len).opt_io_size == 1,
        config_for(len).num_queues == 1,
        config_for(len).wce == 0,
{
}

/// The number that a sequence of decimal digits stands for.
pub open spec fn read_decimal(text: Seq<char>) -> int
    decreases text.len(),
{
    if text.len() == 0 {
        0
    } else {
        10 * read_decimal(text.drop_last()) + (text.last() as int - '0' as int)
    }
}

/// The decimal digits of a number read back as that number, and none of them is a
/// leading zero.
pub proof fn law_decimal_reads_back(n: nat)
    ensures
        read_decimal(decimal(n)) == n,
        decimal(n).len() > 0,
        forall|i: int| 0 <= i < decimal(n).len() ==> '0' <= #[trigger] decimal(n)[i] <= '9',
        decimal(n).len() > 1 ==> decimal(n)[0] != '0',
    decreases n,
{
    if n >= 10 {
        law_decimal_reads_back(n / 10);
        assert(decimal(n).drop_last() =~= decimal(n / 10));
        assert(decimal(n)[0] == decimal(n / 10)[0]);
        if decimal(n / 10).len() == 1 {
            reveal_with_fuel(read_decimal, 2);
        }
    } else {
        reveal_with_fuel(read_decimal, 2);
        assert(decimal(n).drop_last() =~= Seq::<char>::empty());
    }
}

/// The identification is made of the three numbers in a row, and of nothing else.
pub proof fn law_id_is_three_numbers(dev: u64, rdev: u64, ino: u64)
    ensures
        ({
            let id = device_id(dev, rdev, ino);
            let a = decimal(dev as nat).len() as int;
            let b = a + decimal(rdev as nat).len();
            &&& id.len() == b + decimal(ino as nat).len()
            &&& read_decimal(id.subrange(0, a)) == dev
            &&& read_decimal(id.subrange(a, b)) == rdev
            &&& read_decimal(id.subrange(b, id.len() as int)) == ino
        }),
{
    let id = device_id(dev, rdev, ino);
    let a = decimal(dev as nat).len() as int;
    let b = a + decimal(rdev as nat).len();
    law_decimal_reads_back(dev as nat);
    law_decimal_reads_back(rdev as nat);
    law_decimal_reads_back(ino as nat);
    assert(id.subrange(0, a) =~= decimal(dev as nat));
    assert(id.subrange(a, b) =~= decimal(rdev as nat));
    assert(id.subrange(b, id.len() as int) =~= decimal(ino as nat));
}

/// The identification has twenty bytes: the characters that fit, and zeros.
pub proof fn law_id_bytes_are_its_characters(id: Seq<char>, i: int)
    requires
        0 <= i < 20,
    ensures
        id_bytes(id).len() == 20,
        i < id.len() ==> id_bytes(id)[i] == id[i] as u8,
        i >= id.len() ==> id_bytes(id)[i] == 0,
{
}

} // verus!
