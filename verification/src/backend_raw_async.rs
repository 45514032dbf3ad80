//! Raw disk images whose reads and writes are queued and completed later.
use crate::backend::VirtioBlkConfig;
use crate::backend_raw;
pub use crate::backend_raw::build_device_id;
use crate::backend_raw::{
    build_config, build_image_id, check_range, sector_start, SECTOR_SHIFT, SECTOR_SIZE,
    VIRTIO_BLK_ID_BYTES,
};
use crate::error::BackendError;
use vstd::prelude::*;

verus! {

/// Where a position is counted from.
pub enum SeekFrom {
    /// The start of the image.
    Start(u64),
    /// The present position.
    Current(i64),
    /// The end of the last sector.
    End(i64),
}

/// A read or write to be queued.
#[derive(Clone, Copy, Debug, PartialEq, Eq, Structural)]
pub struct Submission {
    /// The offset into the image.
    pub offset: i64,
    /// The number by which the completion names it.
    pub cookie: usize,
}

impl Submission {
    /// The cookie as the queue carries it.
    pub fn user_data(&self) -> (user_data: u64)
        ensures
            user_data == self.cookie,
    {
        self.cookie as u64
    }
}

/// `position` as a signed number of 64 bits: the upper half of the range is
/// negative.
pub open spec fn signed(position: u64) -> int {
    if position < 0x8000_0000_0000_0000 {
        position as int
    } else {
        position - 0x1_0000_0000_0000_0000
    }
}

/// The cookie `n` reads and writes after the one with cookie `first`.
pub open spec fn cookie_after(first: usize, n: nat) -> usize
    decreases n,
{
    if n == 0 {
        first
    } else {
        let previous = cookie_after(first, (n - 1) as nat);
        if previous == usize::MAX {
            0
        } else {
            (previous + 1) as usize
        }
    }
}

/// A raw image, apart from the file that holds it and the queue that carries
/// its requests.
pub struct StorageBackendRawAsync {
    image_id: Vec<u8>,
    position: u64,
    next_cookie: usize,
    config: VirtioBlkConfig,
}

impl StorageBackendRawAsync {
    /// The configuration of the device.
    pub closed spec fn config(&self) -> VirtioBlkConfig {
        self.config
    }

    /// The bytes by which the driver identifies the image.
    pub closed spec fn image_id(&self) -> Seq<u8> {
        self.image_id@
    }

    /// Where in the image the next read or write takes place.
    pub closed spec fn position(&self) -> u64 {
        self.position
    }

    /// The cookie of the next read or write.
    pub closed spec fn next_cookie(&self) -> usize {
        self.next_cookie
    }

    /// Every sector starts at an offset that fits into 64 bits, and the
    /// identification has its fixed size.
    #[verifier::type_invariant]
    spec fn well_formed(&self) -> bool {
        &&& self.config.capacity * SECTOR_SIZE <= u64::MAX
        &&& self.image_id@.len() == VIRTIO_BLK_ID_BYTES
    }

    /// Whether `self` and `other` describe the same image.
    pub open spec fn same_image(&self, other: &StorageBackendRawAsync) -> bool {
        self.config() == other.config() && self.image_id() == other.image_id()
    }

    /// Where seeking to `pos` leads, counted from the start of the image.
    pub open spec fn target(&self, pos: SeekFrom) -> int {
        match pos {
            SeekFrom::Start(offset) => offset as int,
            SeekFrom::Current(offset) => self.position() + offset,
            SeekFrom::End(offset) => self.config().capacity * SECTOR_SIZE + offset,
        }
    }

    /// What queueing a read or write does and gives.
    pub open spec fn submits(
        &self,
        next: StorageBackendRawAsync,
        submission: Submission,
    ) -> bool {
        &&& submission.offset == signed(self.position())
        &&& submission.cookie == self.next_cookie()
        &&& next.next_cookie() == cookie_after(self.next_cookie(), 1)
        &&& next.position() == self.position()
        &&& next.same_image(self)
    }

    /// What setting the position does and gives.
    pub open spec fn seeks(
        &self,
        pos: SeekFrom,
        next: StorageBackendRawAsync,
        position: u64,
    ) -> bool {
        &&& position == if self.target(pos) >= 0 {
            self.target(pos)
        } else {
            self.target(pos) + 0x1_0000_0000_0000_0000
        }
        &&& next.position() == position
        &&& next.next_cookie() == self.next_cookie()
        &&& next.same_image(self)
    }

    /// Describes an image of `len` bytes, held by the file with inode `ino` on
    /// device `dev`, itself the device `rdev`.
    pub fn new(len: u64, dev: u64, rdev: u64, ino: u64) -> (backend: StorageBackendRawAsync)
        ensures
            backend.config() == backend_raw::config_for(len),
            backend.image_id() == backend_raw::id_bytes(backend_raw::device_id(dev, rdev, ino)),
            backend.position() == 0,
            backend.next_cookie() == 0,
    {
        StorageBackendRawAsync {
            image_id: build_image_id(dev, rdev, ino),
            position: 0,
            next_cookie: 0,
            config: build_config(len),
        }
    }

    /// The next read or write at the present position, to be queued.
    pub fn submission(&mut self) -> (submission: Submission)
        ensures
            old(self).submits(*final(self), submission),
    {
        proof {
            use_type_invariant(&*self);
        }
        let cookie: usize = self.next_cookie;
        let position: u64 = self.position;
        assert(position < 0x8000_0000_0000_0000 ==> position as i64 == position) by (bit_vector);
        assert(position >= 0x8000_0000_0000_0000 ==> position as i64 == position
            - 0x1_0000_0000_0000_0000) by (bit_vector);
        self.next_cookie = cookie.wrapping_add(1);
        assert(cookie_after(cookie, 0) == cookie);
        Submission { offset: position as i64, cookie }
    }

    /// Sets the position. One before the start of the image comes out as its
    /// distance from the end of the range of positions.
    pub fn seek(&mut self, pos: SeekFrom) -> (position: u64)
        requires
            old(self).target(pos) <= u64::MAX,
        ensures
            old(self).seeks(pos, *final(self), position),
    {
        proof {
            use_type_invariant(&*self);
        }
        let position: u64 = match pos {
            SeekFrom::Start(offset) => offset,
            SeekFrom::Current(offset) => {
                assert(offset < 0 ==> offset as u64 == offset + 0x1_0000_0000_0000_0000)
                    by (bit_vector);
                self.position.wrapping_add(offset as u64)
            },
            SeekFrom::End(offset) => {
                assert(offset < 0 ==> offset as u64 == offset + 0x1_0000_0000_0000_0000)
                    by (bit_vector);
                let capacity: u64 = self.config.capacity;
                assert(capacity < 0x80_0000_0000_0000 ==> capacity << 9u8 == capacity * 512)
                    by (bit_vector);
                (capacity << SECTOR_SHIFT).wrapping_add(offset as u64)
            },
        };
        self.position = position;
        position
    }

    /// Where in the image the next read or write takes place.
    pub fn get_position(&self) -> (position: u64)
        ensures
            position == self.position(),
    {
        self.position
    }

    /// The configuration of the device.
    pub fn get_config(&self) -> (config: &VirtioBlkConfig)
        ensures
            *config == self.config(),
    {
        &self.config
    }

    /// The number of sectors of the image.
    pub fn get_sectors(&self) -> (sectors: u64)
        ensures
            sectors == self.config().capacity,
    {
        self.config.capacity
    }

    /// The bytes by which the driver identifies the image.
    pub fn get_image_id(&self) -> (image_id: &Vec<u8>)
        ensures
            image_id@ == self.image_id(),
            image_id@.len() == VIRTIO_BLK_ID_BYTES,
    {
        proof {
            use_type_invariant(self);
        }
        &self.image_id
    }

    /// Reads and writes are completed after the call.
    pub fn is_async(&self) -> (is_async: bool)
        ensures
            is_async,
    {
        true
    }

    /// The cookie of the read or write that the queue reports as completed, if it
    /// reports one.
    pub fn get_completion(&mut self, completed: Option<u64>) -> (cookie: Option<usize>)
        requires
            completed matches Some(user_data) ==> user_data <= usize::MAX,
        ensures
            *final(self) == *old(self),
            cookie.is_some() == completed.is_some(),
            cookie matches Some(cookie) ==> completed == Some(cookie as u64),
    {
        match completed {
            Some(user_data) => Some(user_data as usize),
            None => None,
        }
    }

    /// Whether the image has the `len` bytes from `sector` on.
    pub fn check_sector_offset(&self, sector: u64, len: u64) -> (outcome: Result<(), BackendError>)
        requires
            sector + backend_raw::sectors_of(len) <= u64::MAX,
        ensures
            outcome == backend_raw::range_outcome(self.config().capacity, sector, len),
    {
        check_range(self.config.capacity, sector, len)
    }

    /// Sets the position to the start of `sector`.
    pub fn seek_sector(&mut self, sector: u64) -> (outcome: Result<u64, BackendError>)
        ensures
            outcome == backend_raw::seek_outcome(old(self).config().capacity, sector),
            outcome matches Ok(start) ==> final(self).position() == start,
            outcome.is_err() ==> final(self).position() == old(self).position(),
            final(self).next_cookie() == old(self).next_cookie(),
            final(self).same_image(old(self)),
    {
        proof {
            use_type_invariant(&*self);
        }
        match sector_start(self.config.capacity, sector) {
            Ok(start) => Ok(self.seek(SeekFrom::Start(start))),
            Err(error) => Err(error),
        }
    }
}

/// Two reads or writes are told apart by their cookies, unless so many lie
/// between them that the cookies have come around.
pub proof fn law_cookies_are_distinct(first: usize, n: nat)
    requires
        0 < n <= usize::MAX,
    ensures
        cookie_after(first, n) != first,
{
    lemma_cookie_after(first, n);
}

/// Cookies count up and start over at zero.
proof fn lemma_cookie_after(first: usize, n: nat)
    requires
        n <= usize::MAX,
    ensures
        first + n <= usize::MAX ==> cookie_after(first, n) == first + n,
        first + n > usize::MAX ==> cookie_after(first, n) == first + n - usize::MAX - 1,
    decreases n,
{
    if n > 0 {
        lemma_cookie_after(first, (n - 1) as nat);
    }
}

/// A read or write that is queued right after a sector was sought takes place at
/// the start of that sector.
pub proof fn law_submission_is_at_sought_sector(capacity: u64, sector: u64)
    requires
        capacity * SECTOR_SIZE <= i64::MAX,
    ensures
        backend_raw::seek_outcome(capacity, sector) matches Ok(start) ==> signed(start) == sector
            * SECTOR_SIZE,
{
}

/// Seeking from the start leads to the offset, from the present position as far from
/// that, and from the end as far from the end of the last sector. A position before the
/// start wraps around, and so do those that are told to the queue.
pub proof fn law_seeking_moves_by_the_offset(
    backend: StorageBackendRawAsync,
    next: StorageBackendRawAsync,
    pos: SeekFrom,
    position: u64,
)
    requires
        backend.seeks(pos, next, position),
    ensures
        next.position() == position,
        next.next_cookie() == backend.next_cookie(),
        next.config() == backend.config(),
        next.image_id() == backend.image_id(),
        match pos {
            SeekFrom::Start(offset) => position == offset,
            SeekFrom::Current(offset) => (position - (backend.position() + offset))
                % 0x1_0000_0000_0000_0000 == 0,
            SeekFrom::End(offset) => (position - (backend.config().capacity * 512 + offset))
                % 0x1_0000_0000_0000_0000 == 0,
        },
{
}

/// Reads and writes that are queued one after the other take place at the position,
/// which stays, and have cookies one apart. The offset of a position in the lower half
/// of the range is the position.
pub proof fn law_submissions_count_up(
    backend: StorageBackendRawAsync,
    next: StorageBackendRawAsync,
    last: StorageBackendRawAsync,
    first: Submission,
    second: Submission,
)
    requires
        backend.submits(next, first),
        next.submits(last, second),
    ensures
        first.cookie == backend.next_cookie(),
        first.cookie < usize::MAX ==> second.cookie == first.cookie + 1,
        first.cookie == usize::MAX ==> second.cookie == 0,
        first.offset == second.offset,
        (first.offset - backend.position()) % 0x1_0000_0000_0000_0000 == 0,
        last.position() == backend.position(),
        last.config() == backend.config(),
        last.image_id() == backend.image_id(),
{
    assert(cookie_after(backend.next_cookie(), 0) == backend.next_cookie());
}

} // verus!
