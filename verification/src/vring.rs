//! The rings of a vhost-user device: taking requests from the driver, carrying
//! them out on a disk image, and returning them.
use crate::backend::{DiskOp, StorageBackend};
use crate::error::{BackendError, Error};
use crate::memory;
use crate::memory::{Access, GuestRam, Layout};
use crate::number;
use crate::number::ByteOrder;
use crate::queue;
use crate::queue::Descriptor;
use vstd::prelude::*;

verus! {

/// Request to read.
pub const VIRTIO_BLK_T_IN: u32 = 0;

/// Request to write.
pub const VIRTIO_BLK_T_OUT: u32 = 1;

/// Request to make written data durable.
pub const VIRTIO_BLK_T_FLUSH: u32 = 4;

/// Request for the identification of the image.
pub const VIRTIO_BLK_T_GET_ID: u32 = 8;

/// The request was carried out.
pub const VIRTIO_BLK_S_OK: u32 = 0;

/// The request failed.
pub const VIRTIO_BLK_S_IOERR: u32 = 1;

/// The device does not know the request.
pub const VIRTIO_BLK_S_UNSUPP: u32 = 2;

/// The chain goes on at the descriptor's `next` index.
pub const VRING_DESC_F_NEXT: u32 = 1;

/// How many requests are returned to the driver at once.
pub const MAX_USED: usize = 1024;

/// The number that is written to signal the guest.
pub const GUEST_SIGNAL: u64 = 1;

/// Why a request failed.
#[derive(Clone, Copy, Debug, PartialEq, Eq, Structural)]
pub enum ExecuteError {
    /// The image does not have the sectors, or the data is not mapped.
    BadRequest(Error),
    /// Making data durable failed.
    Flush(BackendError),
    /// Reading failed.
    Read(BackendError),
    /// Going to the sector failed.
    Seek(BackendError),
    /// Writing failed.
    Write(BackendError),
    /// The request has this unknown type.
    Unsupported(u32),
}

impl ExecuteError {
    /// The status that the driver is told.
    pub open spec fn code(&self) -> u32 {
        match *self {
            ExecuteError::Unsupported(_) => VIRTIO_BLK_S_UNSUPP,
            _ => VIRTIO_BLK_S_IOERR,
        }
    }

    /// The status that the driver is told.
    pub fn status(&self) -> (status: u32)
        ensures
            status == self.code(),
    {
        match *self {
            ExecuteError::BadRequest(_) => VIRTIO_BLK_S_IOERR,
            ExecuteError::Flush(_) => VIRTIO_BLK_S_IOERR,
            ExecuteError::Read(_) => VIRTIO_BLK_S_IOERR,
            ExecuteError::Seek(_) => VIRTIO_BLK_S_IOERR,
            ExecuteError::Write(_) => VIRTIO_BLK_S_IOERR,
            ExecuteError::Unsupported(_) => VIRTIO_BLK_S_UNSUPP,
        }
    }
}

/// What signalling the guest comes to when the write returned `written`.
pub open spec fn signalled(written: isize) -> Result<(), Error> {
    if written <= 0 {
        Err(Error::InvalidParam)
    } else {
        Ok(())
    }
}

/// Why a ring cannot be worked on any further.
#[derive(Clone, Copy, Debug, PartialEq, Eq, Structural)]
pub enum VringFault {
    /// The ring or a descriptor leads to memory that is not mapped.
    Unmapped,
    /// The ring's size leaves no place for its entries.
    BadSize,
    /// The driver offered a chain with this head, which is beyond the ring's size.
    BogusHead(u16),
    /// The driver offered a chain that is no request.
    BadChain(Error),
    /// The driver offered more requests than are returned at once.
    Overrun,
}

/// What a request asks for.
#[derive(Clone, Copy, Debug, PartialEq, Eq, Structural)]
pub enum RequestType {
    /// Read.
    In,
    /// Write.
    Out,
    /// Make written data durable.
    Flush,
    /// Give the identification of the image.
    GetDeviceID,
    /// Something with this unknown type.
    Unsupported(u32),
}

impl RequestType {
    /// What a request with this type number asks for.
    pub open spec fn of(value: nat) -> RequestType {
        if value == VIRTIO_BLK_T_IN {
            RequestType::In
        } else if value == VIRTIO_BLK_T_OUT {
            RequestType::Out
        } else if value == VIRTIO_BLK_T_FLUSH {
            RequestType::Flush
        } else if value == VIRTIO_BLK_T_GET_ID {
            RequestType::GetDeviceID
        } else {
            RequestType::Unsupported(value as u32)
        }
    }

    /// What a request with this type number asks for.
    pub fn from_number(value: u32) -> (request_type: RequestType)
        ensures
            request_type == RequestType::of(value as nat),
    {
        match value {
            VIRTIO_BLK_T_IN => RequestType::In,
            VIRTIO_BLK_T_OUT => RequestType::Out,
            VIRTIO_BLK_T_FLUSH => RequestType::Flush,
            VIRTIO_BLK_T_GET_ID => RequestType::GetDeviceID,
            t => RequestType::Unsupported(t),
        }
    }
}

/// Reads the `len` bytes at `offset` past `base`.
fn load_at(mem: &mut GuestRam, base: u64, offset: u64, len: usize) -> (bytes: Option<Vec<u8>>)
    ensures
        final(mem).layout() == old(mem).layout(),
        bytes.is_some() == memory::reachable(old(mem).layout().regions, base + offset, len as int),
        bytes matches Some(bytes) ==> {
            &&& bytes@.len() == len
            &&& final(mem).log() == old(mem).log().push(
                (Access::Load { addr: (base + offset) as u64, bytes: bytes@ }),
            )
        },
        bytes.is_none() ==> final(mem).log() == old(mem).log(),
{
    match mem.reach(base, offset, len as u64) {
        Some(addr) => Some(mem.load(addr, len)),
        None => None,
    }
}

/// Reads the number in the `len` bytes at `offset` past `base`.
fn load_number(mem: &mut GuestRam, base: u64, offset: u64, len: usize) -> (value: Option<u64>)
    requires
        len <= 8,
    ensures
        final(mem).layout() == old(mem).layout(),
        value.is_some() == memory::reachable(old(mem).layout().regions, base + offset, len as int),
        value.is_some() ==> queue::loads(
            old(mem).log(),
            final(mem).log(),
            base + offset,
            len as int,
        ),
        value matches Some(value) ==> {
            &&& value == number::value(old(mem).layout().order, queue::loaded(final(mem).log()))
            &&& value < number::byte_span(len as nat)
        },
        value.is_none() ==> final(mem).log() == old(mem).log(),
{
    match load_at(mem, base, offset, len) {
        Some(bytes) => {
            proof {
                number::lemma_value_bound(mem.layout().order, bytes@);
                assert(bytes@.subrange(0, len as int) =~= bytes@);
            }
            Some(number::decode(mem.order(), &bytes, 0, len))
        },
        None => None,
    }
}

/// What reading the type of a request at `addr` does and gives.
pub open spec fn type_read(
    layout: Layout,
    before: Seq<Access>,
    after: Seq<Access>,
    addr: int,
    outcome: Result<RequestType, VringFault>,
) -> bool {
    if memory::reachable(layout.regions, addr, 4) {
        &&& queue::loads(before, after, addr, 4)
        &&& outcome == Ok::<RequestType, VringFault>(
            RequestType::of(number::value(layout.order, queue::loaded(after))),
        )
    } else {
        after == before && outcome == Err::<RequestType, VringFault>(VringFault::Unmapped)
    }
}

/// What reading the sector of a request at `addr` does and gives.
pub open spec fn sector_read(
    layout: Layout,
    before: Seq<Access>,
    after: Seq<Access>,
    addr: int,
    outcome: Result<u64, VringFault>,
) -> bool {
    if memory::reachable(layout.regions, addr + 8, 8) {
        &&& queue::loads(before, after, addr + 8, 8)
        &&& outcome == Ok::<u64, VringFault>(
            number::value(layout.order, queue::loaded(after)) as u64,
        )
    } else {
        after == before && outcome == Err::<u64, VringFault>(VringFault::Unmapped)
    }
}

/// Reads the type of the request whose header lies at `desc_addr` in the mapping
/// at `mmap_addr`.
pub fn request_type(mem: &mut GuestRam, mmap_addr: u64, desc_addr: u64) -> (outcome: Result<
    RequestType,
    VringFault,
>)
    ensures
        final(mem).layout() == old(mem).layout(),
        type_read(
            old(mem).layout(),
            old(mem).log(),
            final(mem).log(),
            mmap_addr + desc_addr,
            outcome,
        ),
{
    proof {
        number::lemma_byte_spans();
    }
    match load_number(mem, mmap_addr, desc_addr, 4) {
        Some(value) => Ok(RequestType::from_number(value as u32)),
        None => Err(VringFault::Unmapped),
    }
}

/// Reads the sector of the request whose header lies at `desc_addr` in the
/// mapping at `mmap_addr`.
pub fn sector(mem: &mut GuestRam, mmap_addr: u64, desc_addr: u64) -> (outcome: Result<
    u64,
    VringFault,
>)
    ensures
        final(mem).layout() == old(mem).layout(),
        sector_read(
            old(mem).layout(),
            old(mem).log(),
            final(mem).log(),
            mmap_addr + desc_addr,
            outcome,
        ),
{
    let header: u64 = match mmap_addr.checked_add(desc_addr) {
        Some(header) => header,
        None => return Err(VringFault::Unmapped),
    };
    match load_number(mem, header, 8, 8) {
        Some(sector) => Ok(sector),
        None => Err(VringFault::Unmapped),
    }
}

/// A request of the driver.
#[derive(Clone, Copy, Debug, PartialEq, Eq, Structural)]
pub struct Request {
    /// What is asked for.
    pub request_type: RequestType,
    /// The first sector of the data on the disk.
    pub sector: u64,
    /// Where the data lies in memory.
    pub data_addr: u64,
    /// The length of the data.
    pub data_len: u32,
    /// Where the status goes.
    pub status_addr: u64,
}

/// The accesses and operations of one part of the work, with what came before.
pub struct Trace {
    /// The accesses to memory.
    pub log: Seq<Access>,
    /// The operations on the disk.
    pub ops: Seq<DiskOp>,
}

impl Request {
    /// Whether the data can be accessed. No data can always be accessed.
    pub open spec fn data_reachable(&self, layout: Layout) -> bool {
        self.data_len == 0 || memory::reachable(
            layout.regions,
            self.data_addr as int,
            self.data_len as int,
        )
    }

    /// What carrying out a read does and gives once the disk is at the sector:
    /// the data goes to memory as the disk gave it.
    pub open spec fn read_done(
        &self,
        before: Trace,
        after: Trace,
        outcome: Result<u32, ExecuteError>,
    ) -> bool {
        &&& after.ops == before.ops.push(after.ops.last())
        &&& after.ops.last() matches DiskOp::Read { bytes, outcome: read }
        &&& bytes.len() == self.data_len
        &&& match read {
            Ok(_) => {
                &&& outcome == Ok::<u32, ExecuteError>(self.data_len)
                &&& after.log == if self.data_len == 0 {
                    before.log
                } else {
                    before.log.push(Access::Store { addr: self.data_addr, bytes })
                }
            },
            Err(error) => {
                &&& outcome == Err::<u32, ExecuteError>(ExecuteError::Read(error))
                &&& after.log == before.log
            },
        }
    }

    /// What carrying out a write does and gives once the disk is at the sector:
    /// the disk gets the data as it was found in memory.
    pub open spec fn write_done(
        &self,
        before: Trace,
        after: Trace,
        outcome: Result<u32, ExecuteError>,
    ) -> bool {
        &&& after.ops == before.ops.push(after.ops.last())
        &&& after.ops.last() matches DiskOp::Write { bytes, outcome: written }
        &&& bytes.len() == self.data_len
        &&& after.log == if self.data_len == 0 {
            before.log
        } else {
            before.log.push(Access::Load { addr: self.data_addr, bytes })
        }
        &&& outcome == match written {
            Ok(_) => Ok::<u32, ExecuteError>(0),
            Err(error) => Err(ExecuteError::Write(error)),
        }
    }

    /// What carrying out a flush does and gives once the disk is at the sector.
    pub open spec fn flush_done(
        &self,
        before: Trace,
        after: Trace,
        outcome: Result<u32, ExecuteError>,
    ) -> bool {
        &&& after.log == before.log
        &&& after.ops == before.ops.push(after.ops.last())
        &&& after.ops.last() matches DiskOp::Flush { outcome: flushed }
        &&& outcome == match flushed {
            Ok(_) => Ok::<u32, ExecuteError>(0),
            Err(error) => Err(ExecuteError::Flush(error)),
        }
    }

    /// What the request itself does and gives once the disk is at the sector.
    pub open spec fn done(
        &self,
        layout: Layout,
        before: Trace,
        after: Trace,
        outcome: Result<u32, ExecuteError>,
    ) -> bool {
        match self.request_type {
            RequestType::In if self.data_reachable(layout) => self.read_done(
                before,
                after,
                outcome,
            ),
            RequestType::Out if self.data_reachable(layout) => self.write_done(
                before,
                after,
                outcome,
            ),
            RequestType::In | RequestType::Out => after == before && outcome == Err::<
                u32,
                ExecuteError,
            >(ExecuteError::BadRequest(Error::InvalidParam)),
            RequestType::Flush => self.flush_done(before, after, outcome),
            RequestType::GetDeviceID => after == before && outcome == Ok::<u32, ExecuteError>(0),
            RequestType::Unsupported(t) => after == before && outcome == Err::<u32, ExecuteError>(
                ExecuteError::Unsupported(t),
            ),
        }
    }

    /// What carrying out the request does and gives: the image must have the
    /// sectors, the disk goes to the first of them, and then the request itself
    /// is done.
    pub open spec fn executed(
        &self,
        layout: Layout,
        accepts: spec_fn(u64, u64) -> bool,
        before: Trace,
        after: Trace,
        outcome: Result<u32, ExecuteError>,
    ) -> bool {
        let sought = Trace { log: before.log, ops: after.ops.take(before.ops.len() as int + 1) };
        if !accepts(self.sector, self.data_len as u64) {
            after == before && outcome == Err::<u32, ExecuteError>(
                ExecuteError::BadRequest(Error::InvalidParam),
            )
        } else {
            &&& after.ops.len() > before.ops.len()
            &&& sought.ops == before.ops.push(sought.ops.last())
            &&& sought.ops.last() matches DiskOp::Seek { sector, position }
            &&& sector == self.sector
            &&& match position {
                Ok(_) => self.done(layout, sought, after, outcome),
                Err(error) => after == sought && outcome == Err::<u32, ExecuteError>(
                    ExecuteError::Seek(error),
                ),
            }
        }
    }

    /// Carries out the request on `disk`, and gives the length of the data that
    /// was put into memory.
    pub fn execute<T: StorageBackend>(&self, disk: &mut T, mem: &mut GuestRam) -> (outcome: Result<
        u32,
        ExecuteError,
    >)
        ensures
            final(mem).layout() == old(mem).layout(),
            final(disk).accepts() == old(disk).accepts(),
            final(disk).config() == old(disk).config(),
            self.executed(
                old(mem).layout(),
                old(disk).accepts(),
                (Trace { log: old(mem).log(), ops: old(disk).ops() }),
                (Trace { log: final(mem).log(), ops: final(disk).ops() }),
                outcome,
            ),
    {
        let ghost before = disk.ops();
        match disk.check_sector_offset(self.sector, self.data_len as u64) {
            Ok(_) => {},
            Err(_) => return Err(ExecuteError::BadRequest(Error::InvalidParam)),
        }
        match disk.seek_sector(self.sector) {
            Ok(_) => {},
            Err(error) => {
                assert(disk.ops().take(before.len() as int + 1) =~= disk.ops());
                return Err(ExecuteError::Seek(error));
            },
        }
        let ghost sought = disk.ops();
        assert(sought.take(before.len() as int + 1) =~= sought);

        match self.request_type {
            RequestType::In => {
                if self.data_len > 0 && mem.reach(self.data_addr, 0, self.data_len as u64).is_none()
                {
                    return Err(ExecuteError::BadRequest(Error::InvalidParam));
                }
                let mut data: Vec<u8> = Vec::new();
                data.resize(self.data_len as usize, 0);
                let read: Result<(), BackendError> = disk.read_exact(&mut data);
                assert(disk.ops().take(before.len() as int + 1) =~= sought);
                match read {
                    Ok(_) => {
                        if self.data_len > 0 {
                            mem.store(self.data_addr, &data);
                        }
                        Ok(self.data_len)
                    },
                    Err(error) => Err(ExecuteError::Read(error)),
                }
            },
            RequestType::Out => {
                if self.data_len > 0 && mem.reach(self.data_addr, 0, self.data_len as u64).is_none()
                {
                    return Err(ExecuteError::BadRequest(Error::InvalidParam));
                }
                let data: Vec<u8> = if self.data_len > 0 {
                    mem.load(self.data_addr, self.data_len as usize)
                } else {
                    Vec::new()
                };
                let written: Result<(), BackendError> = disk.write_all(&data);
                assert(disk.ops().take(before.len() as int + 1) =~= sought);
                match written {
                    Ok(_) => Ok(0),
                    Err(error) => Err(ExecuteError::Write(error)),
                }
            },
            RequestType::Flush => {
                let flushed: Result<(), BackendError> = disk.flush();
                assert(disk.ops().take(before.len() as int + 1) =~= sought);
                match flushed {
                    Ok(_) => Ok(0),
                    Err(error) => Err(ExecuteError::Flush(error)),
                }
            },
            RequestType::GetDeviceID => Ok(0),
            RequestType::Unsupported(t) => Err(ExecuteError::Unsupported(t)),
        }
    }
}

/// A mapping of guest memory.
#[derive(Clone, Copy, Debug, PartialEq, Eq, Structural)]
pub struct VringMmapRegion {
    /// Where the mapping starts.
    pub mmap_addr: u64,
    /// The size of the mapping.
    pub size: u64,
}

impl VringMmapRegion {
    /// The mapping of `size` bytes at `mmap_addr`.
    pub fn new(mmap_addr: u64, size: u64) -> (region: VringMmapRegion)
        ensures
            region == (VringMmapRegion { mmap_addr, size }),
    {
        VringMmapRegion { mmap_addr, size }
    }
}

/// Where the parts of a ring lie.
#[derive(Clone, Copy, Debug, PartialEq, Eq, Structural)]
pub struct VringMemTable {
    /// The mapping that holds the descriptor table, and the requests' data.
    pub desc_region: VringMmapRegion,
    /// The descriptor table.
    pub desc_addr: u64,
    /// The mapping that holds the used ring.
    pub used_region: VringMmapRegion,
    /// The used ring.
    pub used_addr: u64,
    /// The mapping that holds the available ring.
    pub avail_region: VringMmapRegion,
    /// The available ring.
    pub avail_addr: u64,
}

/// The file descriptors of a ring.
#[derive(Clone, Copy, Debug, PartialEq, Eq, Structural)]
pub enum VringFd {
    /// The driver signals that requests are available.
    Kick,
    /// The device signals that requests were returned.
    Call,
    /// The device signals an error.
    Error,
}

/// The state of a ring, apart from its disk.
pub struct VringState {
    /// Where the parts of the ring lie.
    pub mem_table: Option<VringMemTable>,
    /// The driver's index, as it was last read.
    pub shadow_avail_idx: u16,
    /// The index of the next request to take.
    pub last_avail_idx: u16,
    /// The index of the next request to return.
    pub next_used: u16,
    /// The number of entries.
    pub size: u16,
    /// Signals that requests were returned.
    pub call_fd: Option<i32>,
    /// Signals that requests are available.
    pub kick_fd: Option<i32>,
    /// Signals an error.
    pub err_fd: Option<i32>,
    /// Whether the ring was started.
    pub started: bool,
    /// Whether the ring is enabled.
    pub enabled: bool,
}

/// A ring of the device, with its disk.
pub struct Vring<S: StorageBackend> {
    backend: S,
    mem_table: Option<VringMemTable>,
    shadow_avail_idx: u16,
    last_avail_idx: u16,
    next_used: u16,
    size: u16,
    call_fd: Option<i32>,
    kick_fd: Option<i32>,
    err_fd: Option<i32>,
    started: bool,
    enabled: bool,
}

impl<S: StorageBackend> View for Vring<S> {
    type V = VringState;

    closed spec fn view(&self) -> VringState {
        VringState {
            mem_table: self.mem_table,
            shadow_avail_idx: self.shadow_avail_idx,
            last_avail_idx: self.last_avail_idx,
            next_used: self.next_used,
            size: self.size,
            call_fd: self.call_fd,
            kick_fd: self.kick_fd,
            err_fd: self.err_fd,
            started: self.started,
            enabled: self.enabled,
        }
    }
}

impl VringState {
    /// The state of a new ring.
    pub open spec fn initial() -> VringState {
        VringState {
            mem_table: None,
            shadow_avail_idx: 0,
            last_avail_idx: 0,
            next_used: 0,
            size: 0,
            call_fd: None,
            kick_fd: None,
            err_fd: None,
            started: false,
            enabled: false,
        }
    }

    /// The file descriptor of kind `type_`.
    pub open spec fn fd(&self, type_: VringFd) -> Option<i32> {
        match type_ {
            VringFd::Kick => self.kick_fd,
            VringFd::Call => self.call_fd,
            VringFd::Error => self.err_fd,
        }
    }

    /// The state with `fd` as the file descriptor of kind `type_`.
    pub open spec fn with_fd(self, fd: Option<i32>, type_: VringFd) -> VringState {
        match type_ {
            VringFd::Kick => VringState { kick_fd: fd, ..self },
            VringFd::Call => VringState { call_fd: fd, ..self },
            VringFd::Error => VringState { err_fd: fd, ..self },
        }
    }

    /// What setting where the parts of the ring lie does and gives: the used ring's
    /// index is read, and requests are returned from there on.
    pub open spec fn table_set(
        self,
        layout: Layout,
        before: Seq<Access>,
        after: Seq<Access>,
        table: VringMemTable,
        next: VringState,
        outcome: Result<(), Error>,
    ) -> bool {
        if memory::reachable(layout.regions, table.used_addr + 2, 2) {
            &&& outcome == Ok::<(), Error>(())
            &&& queue::loads(before, after, table.used_addr + 2, 2)
            &&& next == VringState {
                mem_table: Some(table),
                next_used: number::value(layout.order, queue::loaded(after)) as u16,
                ..self
            }
        } else {
            &&& outcome == Err::<(), Error>(Error::InvalidParam)
            &&& next == self
            &&& after == before
        }
    }

    /// The state that goes on at index `base_index`.
    pub open spec fn with_base_index(self, base_index: u16) -> VringState {
        VringState { shadow_avail_idx: base_index, last_avail_idx: base_index, ..self }
    }
}

impl<S: StorageBackend> Vring<S> {
    /// The disk of the ring.
    pub closed spec fn disk(&self) -> S {
        self.backend
    }

    /// A ring for the disk `backend`, not set up yet.
    pub fn new(backend: S) -> (vring: Vring<S>)
        ensures
            vring@ == VringState::initial(),
            vring.disk() == backend,
    {
        Vring {
            backend,
            mem_table: None,
            shadow_avail_idx: 0,
            last_avail_idx: 0,
            next_used: 0,
            size: 0,
            call_fd: None,
            kick_fd: None,
            err_fd: None,
            started: false,
            enabled: false,
        }
    }

    /// Enables or disables the ring.
    pub fn set_enabled(&mut self, enabled: bool)
        ensures
            final(self)@ == (VringState { enabled, ..old(self)@ }),
            final(self).disk() == old(self).disk(),
    {
        self.enabled = enabled;
    }

    /// Whether the ring is enabled.
    pub fn is_enabled(&self) -> (enabled: bool)
        ensures
            enabled == self@.enabled,
    {
        self.enabled
    }

    /// Starts or stops the ring.
    pub fn set_started(&mut self, started: bool)
        ensures
            final(self)@ == (VringState { started, ..old(self)@ }),
            final(self).disk() == old(self).disk(),
    {
        self.started = started;
    }

    /// Sets the number of entries.
    pub fn set_size(&mut self, size: u16)
        ensures
            final(self)@ == (VringState { size, ..old(self)@ }),
            final(self).disk() == old(self).disk(),
    {
        self.size = size;
    }

    /// Sets where the parts of the ring lie, and goes on returning requests at
    /// the index that the used ring holds. Fails, and changes nothing, where
    /// that index cannot be read.
    pub fn set_mem_table(
        &mut self,
        mem: &mut GuestRam,
        desc_region: VringMmapRegion,
        desc_addr: u64,
        used_region: VringMmapRegion,
        used_addr: u64,
        avail_region: VringMmapRegion,
        avail_addr: u64,
    ) -> (outcome: Result<(), Error>)
        ensures
            final(mem).layout() == old(mem).layout(),
            final(self).disk() == old(self).disk(),
            old(self)@.table_set(
                old(mem).layout(),
                old(mem).log(),
                final(mem).log(),
                (VringMemTable {
                    desc_region,
                    desc_addr,
                    used_region,
                    used_addr,
                    avail_region,
                    avail_addr,
                }),
                final(self)@,
                outcome,
            ),
    {
        proof {
            number::lemma_byte_spans();
        }
        match load_number(mem, used_addr, 2, 2) {
            Some(idx) => {
                self.mem_table = Some(
                    VringMemTable {
                        desc_region,
                        desc_addr,
                        used_region,
                        used_addr,
                        avail_region,
                        avail_addr,
                    },
                );
                self.next_used = idx as u16;
                Ok(())
            },
            None => Err(Error::InvalidParam),
        }
    }

    /// Goes on taking requests at index `base_index`.
    pub fn set_base_index(&mut self, base_index: u16)
        ensures
            final(self)@ == old(self)@.with_base_index(base_index),
            final(self).disk() == old(self).disk(),
    {
        self.shadow_avail_idx = base_index;
        self.last_avail_idx = base_index;
    }

    /// The index of the next request to take.
    pub fn get_base_index(&self) -> (base_index: u16)
        ensures
            base_index == self@.last_avail_idx,
    {
        self.last_avail_idx
    }

    /// Sets the file descriptor of kind `type_`, and gives the one it replaces,
    /// which is to be closed.
    pub fn set_fd(&mut self, new_fd: Option<i32>, type_: VringFd) -> (old_fd: Option<i32>)
        ensures
            old_fd == old(self)@.fd(type_),
            final(self)@ == old(self)@.with_fd(new_fd, type_),
            final(self).disk() == old(self).disk(),
    {
        let old_fd: Option<i32> = self.get_fd(type_);
        match type_ {
            VringFd::Kick => self.kick_fd = new_fd,
            VringFd::Call => self.call_fd = new_fd,
            VringFd::Error => self.err_fd = new_fd,
        };
        old_fd
    }

    /// The file descriptor of kind `type_`.
    pub fn get_fd(&self, type_: VringFd) -> (fd: Option<i32>)
        ensures
            fd == self@.fd(type_),
    {
        match type_ {
            VringFd::Kick => self.kick_fd,
            VringFd::Call => self.call_fd,
            VringFd::Error => self.err_fd,
        }
    }
}

/// What taking a request does next, given what was read so far.
pub enum RequestStep {
    /// The `len` bytes at `addr` are read.
    Load { addr: int, len: int },
    /// The request is taken, with the head of its chain, or refused.
    Done(Result<(Request, u16), VringFault>),
}

/// `addr`, if it is an address.
pub open spec fn address(addr: int) -> Result<u64, VringFault> {
    if addr <= u64::MAX {
        Ok(addr as u64)
    } else {
        Err(VringFault::Unmapped)
    }
}

impl VringState {
    /// Where the parts of the ring lie, once they are set.
    pub open spec fn table(&self) -> VringMemTable {
        self.mem_table.unwrap()
    }

    /// The address of descriptor `index`.
    pub open spec fn desc_slot(&self, index: u16) -> int {
        self.table().desc_addr + 16 * index
    }

    /// Whether the ring has a place for the entry with index `idx`.
    pub open spec fn has_entry(&self, idx: u16) -> bool {
        self.size > 0 && 2 * (idx as int % self.size as int) <= u16::MAX
    }

    /// The address of the available ring's entry with index `idx`.
    pub open spec fn avail_slot(&self, idx: u16) -> int {
        self.table().avail_addr + 4 + 2 * (idx as int % self.size as int)
    }

    /// What asking whether the driver has offered a request does and gives: the
    /// driver's index is read only when all requests known of are taken.
    pub open spec fn empty_checked(
        self,
        layout: Layout,
        before: Seq<Access>,
        after: Seq<Access>,
        next: VringState,
        outcome: Result<bool, VringFault>,
    ) -> bool {
        if self.shadow_avail_idx != self.last_avail_idx {
            &&& after == before
            &&& next == self
            &&& outcome == Ok::<bool, VringFault>(false)
        } else if memory::reachable(layout.regions, self.table().avail_addr + 2, 2) {
            let index = number::value(layout.order, queue::loaded(after)) as u16;
            &&& queue::loads(before, after, self.table().avail_addr + 2, 2)
            &&& next == VringState { shadow_avail_idx: index, ..self }
            &&& outcome == Ok::<bool, VringFault>(index == self.last_avail_idx)
        } else {
            &&& after == before
            &&& next == self
            &&& outcome == Err::<bool, VringFault>(VringFault::Unmapped)
        }
    }

    /// The request that a header and the descriptor of its status make without
    /// data.
    pub open spec fn short_request(
        &self,
        head_index: u16,
        request_type: RequestType,
        sector: u64,
        status: Descriptor,
    ) -> Result<(Request, u16), VringFault> {
        if request_type != RequestType::Flush {
            Err(VringFault::BadChain(Error::OperationFailedInSlave))
        } else {
            match address(self.table().desc_region.mmap_addr + status.addr) {
                Ok(status_addr) => Ok(
                    (
                        Request { request_type, sector, data_addr: 0, data_len: 0, status_addr },
                        head_index,
                    ),
                ),
                Err(fault) => Err(fault),
            }
        }
    }

    /// The request that a header and the descriptors of its data and its status
    /// make.
    pub open spec fn full_request(
        &self,
        head_index: u16,
        request_type: RequestType,
        sector: u64,
        data: Descriptor,
        status: Descriptor,
    ) -> Result<(Request, u16), VringFault> {
        let mmap_addr = self.table().desc_region.mmap_addr;
        match (address(mmap_addr + data.addr), address(mmap_addr + status.addr)) {
            (Ok(data_addr), Ok(status_addr)) => Ok(
                (
                    Request { request_type, sector, data_addr, data_len: data.len, status_addr },
                    head_index,
                ),
            ),
            _ => Err(VringFault::Unmapped),
        }
    }

    /// What reading the head of the chain with index `idx` does and gives. A head
    /// beyond the ring's size is refused; one equal to it, just past the table, is
    /// not.
    pub open spec fn head_read(
        &self,
        layout: Layout,
        before: Seq<Access>,
        after: Seq<Access>,
        idx: u16,
        outcome: Result<u16, VringFault>,
    ) -> bool {
        if !self.has_entry(idx) {
            after == before && outcome == Err::<u16, VringFault>(VringFault::BadSize)
        } else if !memory::reachable(layout.regions, self.avail_slot(idx), 2) {
            after == before && outcome == Err::<u16, VringFault>(VringFault::Unmapped)
        } else {
            let head = number::value(layout.order, queue::loaded(after)) as u16;
            &&& queue::loads(before, after, self.avail_slot(idx), 2)
            &&& outcome == if head > self.size {
                Err::<u16, VringFault>(VringFault::BogusHead(head))
            } else {
                Ok(head)
            }
        }
    }

    /// What reading descriptor `idx` does and gives.
    pub open spec fn desc_read(
        &self,
        layout: Layout,
        before: Seq<Access>,
        after: Seq<Access>,
        idx: u16,
        outcome: Result<Descriptor, VringFault>,
    ) -> bool {
        if memory::reachable(layout.regions, self.desc_slot(idx), 16) {
            &&& queue::loads(before, after, self.desc_slot(idx), 16)
            &&& outcome == Ok::<Descriptor, VringFault>(
                Descriptor::of(layout.order, queue::loaded(after)),
            )
        } else {
            after == before && outcome == Err::<Descriptor, VringFault>(VringFault::Unmapped)
        }
    }

    /// The state after a request was taken by the accesses in `log` after the
    /// first `from`: the first of them reads the head of the chain, and the
    /// request counts as taken once that head is at most the ring's size. A head
    /// equal to the size names the place just past the table.
    pub open spec fn after_request(
        self,
        order: ByteOrder,
        log: Seq<Access>,
        from: nat,
    ) -> VringState {
        if log.len() > from && (log[from as int] matches Access::Load { addr, bytes }
            && number::value(order, bytes) <= self.size) {
            VringState { last_avail_idx: queue::wrap16(self.last_avail_idx + 1), ..self }
        } else {
            self
        }
    }

    /// How a request is taken: the index of its head from the available ring,
    /// the head descriptor, the type and the sector from the header that it
    /// names, the next descriptor, and, if that one goes on, the one after it.
    pub open spec fn request_step(&self, order: ByteOrder, got: Seq<Seq<u8>>) -> RequestStep {
        let mmap_addr = self.table().desc_region.mmap_addr;
        let head_index = number::value(order, got[0]) as u16;
        let head = Descriptor::of(order, got[1]);
        let request_type = RequestType::of(number::value(order, got[2]));
        let sector = number::value(order, got[3]) as u64;
        let second = Descriptor::of(order, got[4]);
        if !self.has_entry(self.last_avail_idx) {
            RequestStep::Done(Err(VringFault::BadSize))
        } else if got.len() == 0 {
            RequestStep::Load { addr: self.avail_slot(self.last_avail_idx), len: 2 }
        } else if head_index > self.size {
            RequestStep::Done(Err(VringFault::BogusHead(head_index)))
        } else if got.len() == 1 {
            RequestStep::Load { addr: self.desc_slot(head_index), len: 16 }
        } else if got.len() == 2 {
            RequestStep::Load { addr: mmap_addr + head.addr, len: 4 }
        } else if got.len() == 3 {
            RequestStep::Load { addr: mmap_addr + head.addr + 8, len: 8 }
        } else if got.len() == 4 {
            RequestStep::Load { addr: self.desc_slot(head.next), len: 16 }
        } else if second.flags as u32 & VRING_DESC_F_NEXT == 0 {
            RequestStep::Done(self.short_request(head_index, request_type, sector, second))
        } else if got.len() == 5 {
            RequestStep::Load { addr: self.desc_slot(second.next), len: 16 }
        } else {
            RequestStep::Done(
                self.full_request(
                    head_index,
                    request_type,
                    sector,
                    second,
                    Descriptor::of(order, got[5]),
                ),
            )
        }
    }

    /// Whether the accesses in `log` after the first `from`, and `outcome`, are
    /// what taking a request does and gives, once `got` was read. A load that
    /// cannot be made ends it.
    pub open spec fn request_taken(
        &self,
        layout: Layout,
        log: Seq<Access>,
        from: nat,
        got: Seq<Seq<u8>>,
        outcome: Result<(Request, u16), VringFault>,
    ) -> bool
        decreases log.len() - from,
    {
        match self.request_step(layout.order, got) {
            RequestStep::Done(result) => log.len() == from && outcome == result,
            RequestStep::Load { addr, len } => {
                if !memory::reachable(layout.regions, addr, len) {
                    log.len() == from && outcome == Err::<(Request, u16), VringFault>(
                        VringFault::Unmapped,
                    )
                } else {
                    &&& from < log.len()
                    &&& log[from as int] matches Access::Load { addr: at, bytes }
                    &&& at == addr
                    &&& bytes.len() == len
                    &&& self.request_taken(layout, log, from + 1, got.push(bytes), outcome)
                }
            },
        }
    }
}

/// A ring and the record of its work, at one moment.
pub struct Point {
    /// The state of the ring.
    pub state: VringState,
    /// The work so far.
    pub trace: Trace,
}

/// The status that the driver is told of a request with this outcome.
pub open spec fn status_of(outcome: Result<u32, ExecuteError>) -> u32 {
    match outcome {
        Ok(_) => VIRTIO_BLK_S_OK,
        Err(error) => error.code(),
    }
}

/// The length with which a request with this outcome is returned. A failed one
/// has at least the byte of its status.
pub open spec fn used_len(outcome: Result<u32, ExecuteError>) -> u32 {
    match outcome {
        Ok(len) => len,
        Err(_) => 1,
    }
}

/// How far one request was got: each part of the work, with what it gave.
pub struct Round {
    /// Whether no request was offered.
    pub empty: Result<bool, VringFault>,
    /// After asking whether one was.
    pub checked: Point,
    /// The request, with the head of its chain.
    pub request: Result<(Request, u16), VringFault>,
    /// After taking the request.
    pub taken: Point,
    /// What carrying out the request gave.
    pub executed: Result<u32, ExecuteError>,
    /// The work once the request was carried out.
    pub work: Trace,
}

impl Round {
    /// Whether this is how the work on one request leads from `from` to `to`:
    /// the request is taken if there is one, it is carried out, and its status is
    /// stored. The result is the head of its chain and the length to return it
    /// with.
    pub open spec fn leads(
        &self,
        layout: Layout,
        accepts: spec_fn(u64, u64) -> bool,
        from: Point,
        to: Point,
        result: Result<Option<(u16, u32)>, VringFault>,
    ) -> bool {
        &&& from.state.empty_checked(
            layout,
            from.trace.log,
            self.checked.trace.log,
            self.checked.state,
            self.empty,
        )
        &&& self.checked.trace.ops == from.trace.ops
        &&& match self.empty {
            Err(fault) => to == self.checked && result == Err::<Option<(u16, u32)>, VringFault>(
                fault,
            ),
            Ok(true) => to == self.checked && result == Ok::<Option<(u16, u32)>, VringFault>(None),
            Ok(false) => self.takes(layout) && match self.request {
                Err(fault) => to == self.taken && result == Err::<Option<(u16, u32)>, VringFault>(
                    fault,
                ),
                Ok((request, head)) => {
                    &&& request.executed(
                        layout,
                        accepts,
                        self.taken.trace,
                        self.work,
                        self.executed,
                    )
                    &&& to.state == self.taken.state
                    &&& to.trace.ops == self.work.ops
                    &&& if memory::reachable(layout.regions, request.status_addr as int, 4) {
                        &&& to.trace.log == self.work.log.push(
                            Access::Store {
                                addr: request.status_addr,
                                bytes: number::encoded(
                                    layout.order,
                                    status_of(self.executed) as nat,
                                    4,
                                ),
                            },
                        )
                        &&& result == Ok::<Option<(u16, u32)>, VringFault>(
                            Some((head, used_len(self.executed))),
                        )
                    } else {
                        &&& to.trace.log == self.work.log
                        &&& result == Err::<Option<(u16, u32)>, VringFault>(VringFault::Unmapped)
                    }
                },
            },
        }
    }

    /// Whether this is how a request is taken.
    pub open spec fn takes(&self, layout: Layout) -> bool {
        let from = self.checked.trace.log.len();
        &&& self.checked.trace.log.is_prefix_of(self.taken.trace.log)
        &&& self.checked.state.request_taken(
            layout,
            self.taken.trace.log,
            from,
            Seq::empty(),
            self.request,
        )
        &&& self.taken.state == self.checked.state.after_request(
            layout.order,
            self.taken.trace.log,
            from,
        )
        &&& self.taken.trace.ops == self.checked.trace.ops
    }
}

/// The work on all requests that were offered.
pub struct Run {
    /// The work on each of them.
    pub rounds: Seq<Round>,
    /// Before the first of them, between them, and after the last of them.
    pub points: Seq<Point>,
    /// Each one's head, and the length to return it with.
    pub used: Seq<(u16, u32)>,
    /// The round after these, which ended the work.
    pub last: Round,
    /// After that round.
    pub stop: Point,
    /// What that round gave.
    pub end: Result<Option<(u16, u32)>, VringFault>,
}

impl Run {
    /// Whether the rounds of this run follow each other from `from` on.
    pub open spec fn goes(
        &self,
        layout: Layout,
        accepts: spec_fn(u64, u64) -> bool,
        from: Point,
    ) -> bool {
        &&& self.points.len() == self.used.len() + 1
        &&& self.rounds.len() == self.used.len()
        &&& self.used.len() <= MAX_USED
        &&& self.points[0] == from
        &&& forall|i: int|
            0 <= i < self.used.len() ==> (#[trigger] self.rounds[i]).leads(
                layout,
                accepts,
                self.points[i],
                self.points[i + 1],
                Ok(Some(self.used[i])),
            )
    }

    /// Whether this is how the work on all requests leads from `from` to `to`:
    /// one request after the other is worked on until no further one is offered,
    /// and then all of them are returned in this order. The result tells whether
    /// there were any. A fault, or one request too many, ends the work before
    /// anything is returned.
    pub open spec fn leads(
        &self,
        layout: Layout,
        accepts: spec_fn(u64, u64) -> bool,
        from: Point,
        to: Point,
        result: Result<bool, VringFault>,
    ) -> bool {
        &&& self.goes(layout, accepts, from)
        &&& self.last.leads(layout, accepts, self.points.last(), self.stop, self.end)
        &&& match self.end {
            Err(fault) => to == self.stop && result == Err::<bool, VringFault>(fault),
            Ok(Some(_)) => {
                &&& self.used.len() == MAX_USED
                &&& to == self.stop
                &&& result == Err::<bool, VringFault>(VringFault::Overrun)
            },
            Ok(None) => {
                let returned = self.stop.state.returned(layout, self.used);
                &&& to == Point {
                    state: returned.state,
                    trace: Trace {
                        log: self.stop.trace.log + returned.accesses,
                        ops: self.stop.trace.ops,
                    },
                }
                &&& result == match returned.outcome {
                    Ok(_) => Ok::<bool, VringFault>(self.used.len() > 0),
                    Err(fault) => Err(fault),
                }
            },
        }
    }
}

/// What returning requests does.
pub struct Returned {
    /// The accesses to memory.
    pub accesses: Seq<Access>,
    /// The state of the ring afterwards.
    pub state: VringState,
    /// Why not all of them were returned.
    pub outcome: Result<(), VringFault>,
}

impl VringState {
    /// The address of the used ring's entry for the next request to return.
    pub open spec fn used_slot(&self) -> int {
        self.table().used_addr + 4 + 8 * (self.next_used as int % self.size as int)
    }

    /// Why the next request cannot be returned.
    pub open spec fn used_fault(&self, layout: Layout) -> Option<VringFault> {
        if self.size == 0 {
            Some(VringFault::BadSize)
        } else if memory::reachable(layout.regions, self.used_slot(), 4) && memory::reachable(
            layout.regions,
            self.used_slot() + 4,
            4,
        ) && memory::reachable(layout.regions, self.table().used_addr + 2, 2) {
            None
        } else {
            Some(VringFault::Unmapped)
        }
    }

    /// The state after a request was returned.
    pub open spec fn after_used(self) -> VringState {
        VringState { next_used: queue::wrap16(self.next_used + 1), ..self }
    }

    /// How a request is returned: the head of its chain and the length of its
    /// data go to the used ring's next entry, and only then does the used ring's
    /// index move past that entry.
    pub open spec fn used_accesses(&self, order: ByteOrder, desc_index: u16, len: u32) -> Seq<
        Access,
    > {
        seq![
            Access::Store {
                addr: self.used_slot() as u64,
                bytes: number::encoded(order, desc_index as nat, 4),
            },
            Access::Store {
                addr: (self.used_slot() + 4) as u64,
                bytes: number::encoded(order, len as nat, 4),
            },
            Access::Fence,
            Access::Store {
                addr: (self.table().used_addr + 2) as u64,
                bytes: number::encoded(order, self.after_used().next_used as nat, 2),
            },
        ]
    }

    /// What returning the requests in `used` does, in this order: each by the
    /// head of its chain and the length of its data. It ends at the first one
    /// that cannot be returned.
    pub open spec fn returned(self, layout: Layout, used: Seq<(u16, u32)>) -> Returned
        decreases used.len(),
    {
        if used.len() == 0 {
            Returned { accesses: Seq::empty(), state: self, outcome: Ok(()) }
        } else {
            let before = self.returned(layout, used.drop_last());
            if before.outcome.is_err() {
                before
            } else {
                match before.state.used_fault(layout) {
                    Some(fault) => Returned { outcome: Err(fault), ..before },
                    None => Returned {
                        accesses: before.accesses + before.state.used_accesses(
                            layout.order,
                            used.last().0,
                            used.last().1,
                        ),
                        state: before.state.after_used(),
                        outcome: Ok(()),
                    },
                }
            }
        }
    }
}

impl VringState {
    /// Once a request could not be returned, no later one is.
    proof fn lemma_returned_stops(self, layout: Layout, used: Seq<(u16, u32)>, n: int)
        requires
            0 <= n <= used.len(),
            self.returned(layout, used.take(n)).outcome.is_err(),
        ensures
            self.returned(layout, used) == self.returned(layout, used.take(n)),
        decreases used.len(),
    {
        if n == used.len() {
            assert(used.take(n) =~= used);
        } else {
            assert(used.drop_last().take(n) =~= used.take(n));
            self.lemma_returned_stops(layout, used.drop_last(), n);
        }
    }
}

impl<S: StorageBackend> Vring<S> {
    /// Reads the driver's index.
    pub fn get_avail_idx(&mut self, mem: &mut GuestRam) -> (outcome: Result<u16, VringFault>)
        requires
            old(self)@.mem_table.is_some(),
        ensures
            final(mem).layout() == old(mem).layout(),
            final(self).disk() == old(self).disk(),
            outcome.is_ok() == memory::reachable(
                old(mem).layout().regions,
                old(self)@.table().avail_addr + 2,
                2,
            ),
            outcome matches Ok(index) ==> queue::loads(
                old(mem).log(),
                final(mem).log(),
                old(self)@.table().avail_addr + 2,
                2,
            ) && index == number::value(
                old(mem).layout().order,
                queue::loaded(final(mem).log()),
            ) && final(self)@ == (
            VringState { shadow_avail_idx: index, ..old(self)@ }),
            outcome matches Err(fault) ==> fault == VringFault::Unmapped && final(self)@ == old(
                self,
            )@ && final(mem).log() == old(mem).log(),
    {
        proof {
            number::lemma_byte_spans();
        }
        let mem_table: VringMemTable = self.mem_table.unwrap();
        match load_number(mem, mem_table.avail_addr, 2, 2) {
            Some(index) => {
                self.shadow_avail_idx = index as u16;
                Ok(self.shadow_avail_idx)
            },
            None => Err(VringFault::Unmapped),
        }
    }

    /// Whether the driver has offered no request that was not taken.
    pub fn is_empty(&mut self, mem: &mut GuestRam) -> (outcome: Result<bool, VringFault>)
        requires
            old(self)@.mem_table.is_some(),
        ensures
            final(mem).layout() == old(mem).layout(),
            final(self).disk() == old(self).disk(),
            old(self)@.empty_checked(
                old(mem).layout(),
                old(mem).log(),
                final(mem).log(),
                final(self)@,
                outcome,
            ),
    {
        if self.shadow_avail_idx != self.last_avail_idx {
            return Ok(false);
        }
        match self.get_avail_idx(mem) {
            Ok(index) => Ok(index == self.last_avail_idx),
            Err(fault) => Err(fault),
        }
    }

    /// The head of the chain that the driver offered with index `idx`.
    pub fn get_head_desc_idx(&self, mem: &mut GuestRam, idx: u16) -> (outcome: Result<
        u16,
        VringFault,
    >)
        requires
            self@.mem_table.is_some(),
        ensures
            final(mem).layout() == old(mem).layout(),
            self@.head_read(
                old(mem).layout(),
                old(mem).log(),
                final(mem).log(),
                idx,
                outcome,
            ),
    {
        proof {
            number::lemma_byte_spans();
        }
        let mem_table: VringMemTable = self.mem_table.unwrap();
        if self.size == 0 {
            return Err(VringFault::BadSize);
        }
        let head_offset: u64 = 2 * ((idx % self.size) as u64);
        if head_offset > u16::MAX as u64 {
            return Err(VringFault::BadSize);
        }
        match load_number(mem, mem_table.avail_addr, 4 + head_offset, 2) {
            Some(head) => {
                let head_desc_idx: u16 = head as u16;
                if head_desc_idx > self.size {
                    Err(VringFault::BogusHead(head_desc_idx))
                } else {
                    Ok(head_desc_idx)
                }
            },
            None => Err(VringFault::Unmapped),
        }
    }

    /// Reads descriptor `idx`.
    pub fn get_desc(&self, mem: &mut GuestRam, idx: u16) -> (outcome: Result<
        Descriptor,
        VringFault,
    >)
        requires
            self@.mem_table.is_some(),
        ensures
            final(mem).layout() == old(mem).layout(),
            self@.desc_read(
                old(mem).layout(),
                old(mem).log(),
                final(mem).log(),
                idx,
                outcome,
            ),
    {
        let mem_table: VringMemTable = self.mem_table.unwrap();
        match load_at(mem, mem_table.desc_addr, 16 * (idx as u64), 16) {
            Some(bytes) => Ok(Descriptor::decode(mem.order(), &bytes)),
            None => Err(VringFault::Unmapped),
        }
    }

    /// Reads the request whose chain has the head `head_desc_idx`, once that head
    /// was read: `got` is what it was read from, and `state` the ring before.
    fn read_request(
        &self,
        mem: &mut GuestRam,
        head_desc_idx: u16,
        Ghost(state): Ghost<VringState>,
        Ghost(got): Ghost<Seq<Seq<u8>>>,
    ) -> (outcome: Result<(Request, u16), VringFault>)
        requires
            self@.mem_table.is_some(),
            state.mem_table == self@.mem_table,
            state.has_entry(state.last_avail_idx),
            got.len() == 1,
            number::value(old(mem).layout().order, got[0]) == head_desc_idx,
            head_desc_idx <= state.size,
        ensures
            final(mem).layout() == old(mem).layout(),
            old(mem).log().is_prefix_of(final(mem).log()),
            state.request_taken(
                old(mem).layout(),
                final(mem).log(),
                old(mem).log().len(),
                got,
                outcome,
            ),
    {
        proof {
            reveal_with_fuel(VringState::request_taken, 3);
        }
        match self.get_desc(mem, head_desc_idx) {
            Ok(head_desc) => {
                let ghost next = got.push(queue::loaded(mem.log()));
                self.read_header(mem, head_desc_idx, head_desc, Ghost(state), Ghost(next))
            },
            Err(fault) => Err(fault),
        }
    }

    /// Reads the header and the rest of the request whose head descriptor is
    /// `head_desc`.
    fn read_header(
        &self,
        mem: &mut GuestRam,
        head_desc_idx: u16,
        head_desc: Descriptor,
        Ghost(state): Ghost<VringState>,
        Ghost(got): Ghost<Seq<Seq<u8>>>,
    ) -> (outcome: Result<(Request, u16), VringFault>)
        requires
            self@.mem_table.is_some(),
            state.mem_table == self@.mem_table,
            state.has_entry(state.last_avail_idx),
            got.len() == 2,
            number::value(old(mem).layout().order, got[0]) == head_desc_idx,
            head_desc_idx <= state.size,
            head_desc == Descriptor::of(old(mem).layout().order, got[1]),
        ensures
            final(mem).layout() == old(mem).layout(),
            old(mem).log().is_prefix_of(final(mem).log()),
            state.request_taken(
                old(mem).layout(),
                final(mem).log(),
                old(mem).log().len(),
                got,
                outcome,
            ),
    {
        proof {
            reveal_with_fuel(VringState::request_taken, 3);
        }
        let mmap_addr: u64 = self.mem_table.unwrap().desc_region.mmap_addr;
        let request_type: RequestType = match request_type(mem, mmap_addr, head_desc.addr) {
            Ok(request_type) => request_type,
            Err(fault) => return Err(fault),
        };
        let ghost typed = mem.log();
        let ghost with_type = got.push(queue::loaded(typed));
        let sector: u64 = match sector(mem, mmap_addr, head_desc.addr) {
            Ok(sector) => sector,
            Err(fault) => {
                assert(state.request_taken(
                    mem.layout(),
                    typed,
                    typed.len(),
                    with_type,
                    Err(fault),
                ));
                return Err(fault);
            },
        };
        let ghost sought = mem.log();
        let ghost with_sector = with_type.push(queue::loaded(sought));
        let outcome: Result<(Request, u16), VringFault> = self.read_parts(
            mem,
            head_desc_idx,
            head_desc,
            request_type,
            sector,
            Ghost(state),
            Ghost(with_sector),
        );
        proof {
            assert(sought[typed.len() - 1] == typed.last());
            assert(mem.log()[typed.len() - 1] == typed.last());
            assert(mem.log()[sought.len() - 1] == sought.last());
            assert(state.request_taken(
                mem.layout(),
                mem.log(),
                typed.len(),
                with_type,
                outcome,
            ));
        }
        outcome
    }

    /// Reads the descriptors of the data and the status of the request with this
    /// header.
    fn read_parts(
        &self,
        mem: &mut GuestRam,
        head_desc_idx: u16,
        head_desc: Descriptor,
        request_type: RequestType,
        sector: u64,
        Ghost(state): Ghost<VringState>,
        Ghost(got): Ghost<Seq<Seq<u8>>>,
    ) -> (outcome: Result<(Request, u16), VringFault>)
        requires
            self@.mem_table.is_some(),
            state.mem_table == self@.mem_table,
            state.has_entry(state.last_avail_idx),
            got.len() == 4,
            number::value(old(mem).layout().order, got[0]) == head_desc_idx,
            head_desc_idx <= state.size,
            head_desc == Descriptor::of(old(mem).layout().order, got[1]),
            request_type == RequestType::of(number::value(old(mem).layout().order, got[2])),
            sector == number::value(old(mem).layout().order, got[3]) as u64,
        ensures
            final(mem).layout() == old(mem).layout(),
            old(mem).log().is_prefix_of(final(mem).log()),
            state.request_taken(
                old(mem).layout(),
                final(mem).log(),
                old(mem).log().len(),
                got,
                outcome,
            ),
    {
        proof {
            reveal_with_fuel(VringState::request_taken, 3);
        }
        let mmap_addr: u64 = self.mem_table.unwrap().desc_region.mmap_addr;
        let desc: Descriptor = match self.get_desc(mem, head_desc.next) {
            Ok(desc) => desc,
            Err(fault) => return Err(fault),
        };

        if desc.flags as u32 & VRING_DESC_F_NEXT == 0 {
            if request_type != RequestType::Flush {
                return Err(VringFault::BadChain(Error::OperationFailedInSlave));
            }
            return match mmap_addr.checked_add(desc.addr) {
                Some(status_addr) => Ok(
                    (
                        Request { request_type, sector, data_addr: 0, data_len: 0, status_addr },
                        head_desc_idx,
                    ),
                ),
                None => Err(VringFault::Unmapped),
            };
        }
        let status_desc: Descriptor = match self.get_desc(mem, desc.next) {
            Ok(desc) => desc,
            Err(fault) => return Err(fault),
        };
        match (mmap_addr.checked_add(desc.addr), mmap_addr.checked_add(status_desc.addr)) {
            (Some(data_addr), Some(status_addr)) => Ok(
                (
                    Request { request_type, sector, data_addr, data_len: desc.len, status_addr },
                    head_desc_idx,
                ),
            ),
            _ => Err(VringFault::Unmapped),
        }
    }

    /// Takes the next request that the driver offered, with the head of its
    /// chain.
    pub fn get_next_request(&mut self, mem: &mut GuestRam) -> (outcome: Result<
        (Request, u16),
        VringFault,
    >)
        requires
            old(self)@.mem_table.is_some(),
        ensures
            final(mem).layout() == old(mem).layout(),
            final(self).disk() == old(self).disk(),
            old(mem).log().is_prefix_of(final(mem).log()),
            old(self)@.request_taken(
                old(mem).layout(),
                final(mem).log(),
                old(mem).log().len(),
                Seq::empty(),
                outcome,
            ),
            final(self)@ == old(self)@.after_request(
                old(mem).layout().order,
                final(mem).log(),
                old(mem).log().len(),
            ),
    {
        proof {
            reveal_with_fuel(VringState::request_taken, 3);
            number::lemma_byte_spans();
        }
        let ghost from = mem.log().len();
        let head_desc_idx: u16 = match self.get_head_desc_idx(mem, self.last_avail_idx) {
            Ok(head_desc_idx) => head_desc_idx,
            Err(fault) => {
                proof {
                    if mem.log().len() > from {
                        number::lemma_value_bound(mem.layout().order, queue::loaded(mem.log()));
                    }
                }
                return Err(fault);
            },
        };
        let ghost head = queue::loaded(mem.log());
        proof {
            number::lemma_value_bound(mem.layout().order, head);
        }
        self.last_avail_idx = self.last_avail_idx.wrapping_add(1);
        let ghost got = Seq::empty().push(head);
        self.read_request(mem, head_desc_idx, Ghost(old(self)@), Ghost(got))
    }

    /// Returns the request whose chain has the head `desc_index`, with `len`
    /// bytes of data put into memory.
    pub fn add_used(&mut self, mem: &mut GuestRam, desc_index: u16, len: u32) -> (outcome: Result<
        (),
        VringFault,
    >)
        requires
            old(self)@.mem_table.is_some(),
        ensures
            final(mem).layout() == old(mem).layout(),
            final(self).disk() == old(self).disk(),
            match old(self)@.used_fault(old(mem).layout()) {
                Some(fault) => {
                    &&& outcome == Err::<(), VringFault>(fault)
                    &&& final(self)@ == old(self)@
                    &&& final(mem).log() == old(mem).log()
                },
                None => {
                    &&& outcome == Ok::<(), VringFault>(())
                    &&& final(self)@ == old(self)@.after_used()
                    &&& final(mem).log() == old(mem).log() + old(self)@.used_accesses(
                        old(mem).layout().order,
                        desc_index,
                        len,
                    )
                },
            },
    {
        let mem_table: VringMemTable = self.mem_table.unwrap();
        if self.size == 0 {
            return Err(VringFault::BadSize);
        }
        let next_used: u64 = 8 * ((self.next_used % self.size) as u64);
        match (
            mem.reach(mem_table.used_addr, 4 + next_used, 4),
            mem.reach(mem_table.used_addr, 8 + next_used, 4),
            mem.reach(mem_table.used_addr, 2, 2),
        ) {
            (Some(used_elem_idx), Some(used_elem_len), Some(used_idx)) => {
                mem.store(used_elem_idx, &number::encode(mem.order(), desc_index as u64, 4));
                mem.store(used_elem_len, &number::encode(mem.order(), len as u64, 4));
                self.next_used = self.next_used.wrapping_add(1);
                mem.release_fence();
                mem.store(used_idx, &number::encode(mem.order(), self.next_used as u64, 2));
                proof {
                    assert(mem.log() =~= old(mem).log() + old(self)@.used_accesses(
                        old(mem).layout().order,
                        desc_index,
                        len,
                    ));
                }
                Ok(())
            },
            _ => Err(VringFault::Unmapped),
        }
    }

    /// The ring and the record of its work with the memory `mem`.
    pub open spec fn point(&self, mem: &GuestRam) -> Point {
        Point { state: self@, trace: Trace { log: mem.log(), ops: self.disk().ops() } }
    }

    /// Works on the next request, if the driver offered one, and gives the head
    /// of its chain and the length to return it with.
    fn process_request(&mut self, mem: &mut GuestRam) -> (result: Result<
        Option<(u16, u32)>,
        VringFault,
    >)
        requires
            old(self)@.mem_table.is_some(),
        ensures
            final(self)@.mem_table == old(self)@.mem_table,
            final(mem).layout() == old(mem).layout(),
            final(self).disk().accepts() == old(self).disk().accepts(),
            final(self).disk().config() == old(self).disk().config(),
            exists|round: Round|
                round.leads(
                    old(mem).layout(),
                    old(self).disk().accepts(),
                    old(self).point(old(mem)),
                    final(self).point(final(mem)),
                    result,
                ),
    {
        let ghost from = self.point(mem);
        let ghost layout = mem.layout();
        let ghost accepts = self.disk().accepts();
        let empty: Result<bool, VringFault> = self.is_empty(mem);
        let ghost checked = self.point(mem);
        let ghost mut round = Round {
            empty,
            checked,
            request: Err(VringFault::BadSize),
            taken: checked,
            executed: Ok(0),
            work: checked.trace,
        };
        match empty {
            Ok(true) => {
                assert(round.leads(layout, accepts, from, self.point(mem), Ok(None)));
                return Ok(None);
            },
            Ok(false) => {},
            Err(fault) => {
                assert(round.leads(layout, accepts, from, self.point(mem), Err(fault)));
                return Err(fault);
            },
        }
        let request: Result<(Request, u16), VringFault> = self.get_next_request(mem);
        proof {
            round.request = request;
            round.taken = self.point(mem);
            assert(round.takes(layout));
        }
        let (request, index): (Request, u16) = match request {
            Ok(taken) => taken,
            Err(fault) => {
                assert(round.leads(layout, accepts, from, self.point(mem), Err(fault)));
                return Err(fault);
            },
        };
        let executed: Result<u32, ExecuteError> = request.execute(&mut self.backend, mem);
        proof {
            round.executed = executed;
            round.work = self.point(mem).trace;
        }
        let (len, status): (u32, u32) = match executed {
            Ok(len) => (len, VIRTIO_BLK_S_OK),
            // We need at least 1 byte for the status.
            Err(error) => (1, error.status()),
        };
        let result: Result<Option<(u16, u32)>, VringFault> = match mem.reach(
            request.status_addr,
            0,
            4,
        ) {
            Some(addr) => {
                mem.store(addr, &number::encode(mem.order(), status as u64, 4));
                Ok(Some((index, len)))
            },
            None => Err(VringFault::Unmapped),
        };
        assert(round.leads(layout, accepts, from, self.point(mem), result));
        result
    }

    /// Works on all requests that the driver has offered, returns them, and tells
    /// whether there were any.
    pub fn process_queue(&mut self, mem: &mut GuestRam) -> (result: Result<bool, VringFault>)
        requires
            old(self)@.mem_table.is_some(),
        ensures
            final(self)@.mem_table == old(self)@.mem_table,
            final(mem).layout() == old(mem).layout(),
            final(self).disk().accepts() == old(self).disk().accepts(),
            final(self).disk().config() == old(self).disk().config(),
            exists|run: Run|
                run.leads(
                    old(mem).layout(),
                    old(self).disk().accepts(),
                    old(self).point(old(mem)),
                    final(self).point(final(mem)),
                    result,
                ),
    {
        let ghost from = self.point(mem);
        let ghost layout = mem.layout();
        let ghost accepts = self.disk().accepts();
        let ghost mut rounds: Seq<Round> = Seq::empty();
        let ghost mut points: Seq<Point> = seq![from];
        let ghost mut run: Run = arbitrary();
        let mut used_desc_heads: Vec<(u16, u32)> = Vec::new();

        loop
            invariant_except_break
                (Run {
                    rounds,
                    points,
                    used: used_desc_heads@,
                    last: run.last,
                    stop: run.stop,
                    end: run.end,
                }).goes(layout, accepts, from),
                points.last() == self.point(mem),
            invariant
                self@.mem_table.is_some(),
                self@.mem_table == old(self)@.mem_table,
                mem.layout() == layout,
                self.disk().accepts() == accepts,
                self.disk().config() == old(self).disk().config(),
                layout == old(mem).layout(),
                accepts == old(self).disk().accepts(),
                from == old(self).point(old(mem)),
            ensures
                run.goes(layout, accepts, from),
                run.used == used_desc_heads@,
                run.last.leads(layout, accepts, run.points.last(), run.stop, run.end),
                run.stop == self.point(mem),
                run.end == Ok::<Option<(u16, u32)>, VringFault>(None),
            decreases MAX_USED - used_desc_heads.len(),
        {
            let ghost before = self.point(mem);
            let result: Result<Option<(u16, u32)>, VringFault> = self.process_request(mem);
            let ghost after = self.point(mem);
            let ghost round = choose|round: Round|
                round.leads(layout, accepts, before, after, result);
            proof {
                run = Run {
                    rounds,
                    points,
                    used: used_desc_heads@,
                    last: round,
                    stop: after,
                    end: result,
                };
            }
            match result {
                Ok(Some(used)) => {
                    if used_desc_heads.len() >= MAX_USED {
                        assert(run.leads(layout, accepts, from, after, Err(VringFault::Overrun)));
                        return Err(VringFault::Overrun);
                    }
                    used_desc_heads.push(used);
                    proof {
                        let earlier = run;
                        rounds = rounds.push(round);
                        points = points.push(after);
                        run.rounds = rounds;
                        run.points = points;
                        run.used = used_desc_heads@;
                        assert forall|i: int| 0 <= i < run.used.len() implies (
                        #[trigger] run.rounds[i]).leads(
                            layout,
                            accepts,
                            run.points[i],
                            run.points[i + 1],
                            Ok(Some(run.used[i])),
                        ) by {
                            if i < earlier.used.len() {
                                assert(earlier.rounds[i] == run.rounds[i]);
                            }
                        }
                    }
                },
                Ok(None) => break ,
                Err(fault) => {
                    assert(run.leads(layout, accepts, from, after, Err(fault)));
                    return Err(fault);
                },
            }
        }

        let ghost disk = self.disk();
        let used_count: usize = used_desc_heads.len();
        assert(used_desc_heads@.take(0) =~= Seq::empty());
        for i in 0..used_count
            invariant
                used_count == used_desc_heads@.len(),
                self@.mem_table.is_some(),
                self@.mem_table == old(self)@.mem_table,
                mem.layout() == layout,
                layout == old(mem).layout(),
                accepts == old(self).disk().accepts(),
                from == old(self).point(old(mem)),
                self.disk() == disk,
                disk.accepts() == accepts,
                disk.config() == old(self).disk().config(),
                run.goes(layout, accepts, from),
                run.used == used_desc_heads@,
                run.last.leads(layout, accepts, run.points.last(), run.stop, run.end),
                run.stop.trace.ops == disk.ops(),
                run.end == Ok::<Option<(u16, u32)>, VringFault>(None),
                run.stop.state.returned(layout, run.used.take(i as int)) == (Returned {
                    accesses: run.stop.state.returned(layout, run.used.take(i as int)).accesses,
                    state: self@,
                    outcome: Ok(()),
                }),
                mem.log() == run.stop.trace.log + run.stop.state.returned(
                    layout,
                    run.used.take(i as int),
                ).accesses,
        {
            let (desc_index, len): (u16, u32) = used_desc_heads[i];
            proof {
                assert(run.used.take(i + 1).drop_last() =~= run.used.take(i as int));
                assert(run.used.take(i + 1).last() == run.used[i as int]);
            }
            match self.add_used(mem, desc_index, len) {
                Ok(_) => {},
                Err(fault) => {
                    proof {
                        run.stop.state.lemma_returned_stops(layout, run.used, i + 1);
                    }
                    assert(run.leads(layout, accepts, from, self.point(mem), Err(fault)));
                    return Err(fault);
                },
            }
        }
        assert(run.used.take(used_count as int) =~= run.used);
        assert(run.leads(layout, accepts, from, self.point(mem), Ok(used_count > 0)));
        Ok(used_count > 0)
    }

    /// What signalling the guest comes to when `GUEST_SIGNAL` was written to the
    /// call file descriptor, and `written` is what the write returned.
    pub fn signal_guest(&self, written: isize) -> (outcome: Result<(), Error>)
        requires
            self@.call_fd.is_some(),
        ensures
            outcome == signalled(written),
    {
        if written <= 0 {
            Err(Error::InvalidParam)
        } else {
            Ok(())
        }
    }
}

} // verus!
