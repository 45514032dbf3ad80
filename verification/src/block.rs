//! The vhost-user requests of a block device.
use crate::backend::{StorageBackend, CONFIG_SIZE};
use crate::error::Error;
use crate::memory;
use crate::memory::{Access, GuestRam, Layout};
use crate::message::{DisableVringMsg, EnableVringMsg, VubMessage};
use crate::number;
use crate::number::ByteOrder;
use crate::queue;
use crate::vring::{Vring, VringFd, VringMemTable, VringMmapRegion, VringState};
use std::collections::hash_map::Entry;
use std::collections::HashMap;
use vstd::prelude::*;

verus! {

broadcast use vstd::std_specs::hash::group_hash_axioms;

/// The feature bit by which a device tells that it has protocol features.
pub const F_PROTOCOL_FEATURES: u64 = 0x4000_0000;

/// The protocol feature of having several rings.
pub const PROTOCOL_F_MQ: u64 = 0x1;

/// The protocol feature of having a configuration space.
pub const PROTOCOL_F_CONFIG: u64 = 0x200;

/// The feature bits that the vhost-user transport defines.
///
/// Calls `all` of `vhost::vhost_user::message::VhostUserVirtioFeatures`: all of
/// them are the one that tells of protocol features.
#[verifier::external_body]
fn virtio_features() -> (bits: u64)
    ensures
        bits == F_PROTOCOL_FEATURES,
{
    vhost::vhost_user::message::VhostUserVirtioFeatures::all().bits()
}

/// The feature bit by which a device tells that it has protocol features.
///
/// Calls `bits` of `vhost::vhost_user::message::VhostUserVirtioFeatures`.
#[verifier::external_body]
fn protocol_features_bit() -> (bits: u64)
    ensures
        bits == F_PROTOCOL_FEATURES,
{
    vhost::vhost_user::message::VhostUserVirtioFeatures::PROTOCOL_FEATURES.bits()
}

/// The bit of the protocol feature of having several rings.
///
/// Calls `bits` of `vhost::vhost_user::message::VhostUserProtocolFeatures`.
#[verifier::external_body]
fn mq_bit() -> (bits: u64)
    ensures
        bits == PROTOCOL_F_MQ,
{
    vhost::vhost_user::message::VhostUserProtocolFeatures::MQ.bits()
}

/// The bit of the protocol feature of having a configuration space.
///
/// Calls `bits` of `vhost::vhost_user::message::VhostUserProtocolFeatures`.
#[verifier::external_body]
fn config_bit() -> (bits: u64)
    ensures
        bits == PROTOCOL_F_CONFIG,
{
    vhost::vhost_user::message::VhostUserProtocolFeatures::CONFIG.bits()
}

/// A region of guest memory, as the process that sets up the device tells of it.
#[derive(Clone, Copy, Debug, PartialEq, Eq, Structural)]
pub struct MemoryRegion {
    /// Its guest physical address.
    pub guest_phys_addr: u64,
    /// Its size.
    pub memory_size: u64,
    /// Its address in that process.
    pub userspace_addr: u64,
    /// Where it starts in its file.
    pub mmap_offset: u64,
}

/// How far a ring was got.
#[derive(Clone, Copy, Debug, PartialEq, Eq, Structural)]
pub struct VringBase {
    /// The index of the ring.
    pub index: u32,
    /// The index of the next request to take.
    pub num: u32,
}

/// What is left to do once a kick file descriptor was set.
#[derive(Clone, Copy, Debug, PartialEq, Eq, Structural)]
pub struct KickChange {
    /// The file descriptor to close.
    pub close: Option<i32>,
    /// What to tell the thread that serves the rings.
    pub message: Option<VubMessage>,
}

/// A region of guest memory, mapped into this process.
#[derive(Clone, Copy, Debug, PartialEq, Eq, Structural)]
pub struct VhostMmapRegion {
    /// Where it is mapped.
    pub mmap_addr: u64,
    /// Its guest physical address.
    pub guest_phys_addr: u64,
    /// Its size.
    pub memory_size: u64,
    /// Its address in the process that set up the device.
    pub qemu_virt_addr: u64,
}

impl VhostMmapRegion {
    /// Whether the region reaches to the address `addr` of the process that set
    /// up the device. The address just past its end counts too.
    pub open spec fn reaches(&self, addr: u64) -> bool {
        self.qemu_virt_addr <= addr <= self.qemu_virt_addr + self.memory_size
    }

    /// Whether all of the mapping has addresses.
    pub open spec fn fits(&self) -> bool {
        self.mmap_addr + self.memory_size <= u64::MAX
    }

    /// Where the address `addr` of the process that set up the device is mapped.
    pub open spec fn translated(&self, addr: u64) -> int {
        self.mmap_addr + (addr - self.qemu_virt_addr)
    }

    /// The region with these addresses and this size.
    pub fn new(
        mmap_addr: u64,
        guest_phys_addr: u64,
        memory_size: u64,
        qemu_virt_addr: u64,
    ) -> (region: VhostMmapRegion)
        ensures
            region == (VhostMmapRegion {
                mmap_addr,
                guest_phys_addr,
                memory_size,
                qemu_virt_addr,
            }),
    {
        VhostMmapRegion { mmap_addr, guest_phys_addr, memory_size, qemu_virt_addr }
    }

    /// Where the address `addr` of the process that set up the device is mapped.
    pub fn qva_to_va(&self, addr: u64) -> (outcome: Result<u64, Error>)
        requires
            self.reaches(addr) ==> self.translated(addr) <= u64::MAX,
        ensures
            match outcome {
                Ok(va) => self.reaches(addr) && va == self.translated(addr),
                Err(error) => !self.reaches(addr) && error == Error::InvalidParam,
            },
    {
        if addr < self.qemu_virt_addr || addr - self.qemu_virt_addr > self.memory_size {
            return Err(Error::InvalidParam);
        }
        Ok(self.mmap_addr + (addr - self.qemu_virt_addr))
    }
}

/// A ring of the device.
pub struct Ring<S: StorageBackend> {
    /// Its state.
    pub state: VringState,
    /// Its disk.
    pub disk: S,
}

/// The state of the device.
pub struct BlkState<S: StorageBackend> {
    /// The disk that each ring gets a clone of.
    pub backend: S,
    /// The mapped regions of guest memory.
    pub mmap_regions: Seq<VhostMmapRegion>,
    /// The number of rings that the device can have.
    pub vring_num: usize,
    /// The rings.
    pub vrings: Map<usize, Ring<S>>,
    /// Whether a new ring is enabled.
    pub vring_default_enabled: bool,
    /// Whether the device has an owner.
    pub owned: bool,
    /// Whether the features were acknowledged.
    pub features_acked: bool,
    /// The features that were acknowledged.
    pub acked_features: u64,
    /// The protocol features that were acknowledged.
    pub acked_protocol_features: u64,
    /// In which order the bytes of a number lie in the configuration space.
    pub order: ByteOrder,
}

/// The first of `regions` that reaches to `addr`.
pub open spec fn first_region(regions: Seq<VhostMmapRegion>, addr: u64) -> Option<VhostMmapRegion>
    decreases regions.len(),
{
    if regions.len() == 0 {
        None
    } else if first_region(regions.drop_last(), addr).is_some() {
        first_region(regions.drop_last(), addr)
    } else if regions.last().reaches(addr) {
        Some(regions.last())
    } else {
        None
    }
}

/// The mapping of a region.
pub open spec fn mapping(region: VhostMmapRegion) -> VringMmapRegion {
    VringMmapRegion { mmap_addr: region.mmap_addr, size: region.memory_size }
}

/// The regions among `regions` that could be mapped, up to the first one that
/// could not, each at its address in `mapped`.
pub open spec fn mapped_regions(
    regions: Seq<MemoryRegion>,
    mapped: Seq<Option<u64>>,
) -> Seq<VhostMmapRegion>
    decreases regions.len(),
{
    if regions.len() == 0 {
        Seq::empty()
    } else {
        let earlier = mapped_regions(regions.drop_last(), mapped);
        let last = regions.last();
        if earlier.len() < regions.len() - 1 || mapped.len() < regions.len() {
            earlier
        } else {
            match mapped[regions.len() - 1] {
                Some(mmap_addr) => earlier.push(
                    VhostMmapRegion {
                        mmap_addr,
                        guest_phys_addr: last.guest_phys_addr,
                        memory_size: last.memory_size,
                        qemu_virt_addr: last.userspace_addr,
                    },
                ),
                None => earlier,
            }
        }
    }
}

impl<S: StorageBackend> BlkState<S> {
    /// What every request keeps: all mappings have addresses, and only the owner's
    /// features are acknowledged.
    pub open spec fn wf(&self) -> bool {
        &&& forall|i: int|
            0 <= i < self.mmap_regions.len() ==> (#[trigger] self.mmap_regions[i]).fits()
        &&& self.features_acked ==> self.owned && self.vring_default_enabled
        &&& !self.features_acked ==> self.acked_features == 0
    }

    /// The state with `ring` as the ring with index `index`.
    pub open spec fn with_ring(self, index: usize, ring: Ring<S>) -> BlkState<S> {
        BlkState { vrings: self.vrings.insert(index, ring), ..self }
    }

    /// The state with `state` as the state of the ring with index `index`.
    pub open spec fn with_ring_state(self, index: usize, state: VringState) -> BlkState<S> {
        self.with_ring(index, Ring { state, disk: self.vrings[index].disk })
    }

    /// Where the parts of a ring lie whose addresses in the process that set up
    /// the device are these.
    pub open spec fn ring_table(&self, descriptor: u64, used: u64, available: u64) -> Option<
        VringMemTable,
    > {
        match (
            first_region(self.mmap_regions, descriptor),
            first_region(self.mmap_regions, used),
            first_region(self.mmap_regions, available),
        ) {
            (Some(desc_region), Some(used_region), Some(avail_region)) => Some(
                VringMemTable {
                    desc_region: mapping(desc_region),
                    desc_addr: desc_region.translated(descriptor) as u64,
                    used_region: mapping(used_region),
                    used_addr: used_region.translated(used) as u64,
                    avail_region: mapping(avail_region),
                    avail_addr: avail_region.translated(available) as u64,
                },
            ),
            _ => None,
        }
    }
}

impl<S: StorageBackend> BlkState<S> {
    /// What replacing the mapped regions does and gives.
    pub open spec fn regions_set(
        self,
        regions: Seq<MemoryRegion>,
        mapped: Seq<Option<u64>>,
        next: BlkState<S>,
        outcome: Result<(), Error>,
    ) -> bool {
        &&& next == BlkState { mmap_regions: mapped_regions(regions, mapped), ..self }
        &&& outcome == if mapped_regions(regions, mapped).len() == regions.len() {
            Ok::<(), Error>(())
        } else {
            Err(Error::OperationFailedInSlave)
        }
    }

    /// What asking for `len` bytes of the configuration space gives.
    pub open spec fn config_told(self, len: int, outcome: Result<Seq<u8>, Error>) -> bool {
        outcome == if len == CONFIG_SIZE {
            Ok::<Seq<u8>, Error>(self.backend.config().bytes(self.order))
        } else {
            Err(Error::InvalidParam)
        }
    }

    /// What offering `len` bytes for the configuration space at `offset` gives.
    pub open spec fn config_accepted(self, len: int, offset: u32) -> Result<(), Error> {
        if self.acked_features & PROTOCOL_F_CONFIG == 0 {
            Err(Error::InvalidOperation)
        } else if len != CONFIG_SIZE || offset > len {
            Err(Error::InvalidParam)
        } else {
            Ok(())
        }
    }

    /// What making the device owned does and gives.
    pub open spec fn owner_set(
        self,
        next: BlkState<S>,
        outcome: Result<(), Error>,
    ) -> bool {
        &&& self.owned ==> {
            &&& outcome == Err::<(), Error>(Error::InvalidOperation)
            &&& next == self
        }
        &&& !self.owned ==> {
            &&& outcome == Ok::<(), Error>(())
            &&& next == (BlkState { owned: true, ..self })
        }
    }

    /// What taking the owner away does and gives.
    pub open spec fn owner_reset(
        self,
        next: BlkState<S>,
        outcome: Result<(), Error>,
    ) -> bool {
        &&& outcome == Ok::<(), Error>(())
        &&& next == (BlkState {
            owned: false,
            features_acked: false,
            acked_features: 0,
            acked_protocol_features: 0,
            ..self
        })
    }

    /// What acknowledging protocol features does and gives.
    pub open spec fn protocol_features_set(
        self,
        features: u64,
        next: BlkState<S>,
        outcome: Result<(), Error>,
    ) -> bool {
        &&& outcome == Ok::<(), Error>(())
        &&& next == (BlkState { acked_protocol_features: features, ..self })
    }

    /// What acknowledging features does and gives.
    pub open spec fn features_set(
        self,
        features: u64,
        next: BlkState<S>,
        outcome: Result<(), Error>,
    ) -> bool {
        &&& outcome == if !self.owned {
            Err::<(), Error>(Error::InvalidOperation)
        } else if features & F_PROTOCOL_FEATURES != 0 {
            Err(Error::InvalidParam)
        } else {
            Ok(())
        }
        &&& outcome.is_err() ==> next == self
        &&& outcome.is_ok() ==> next == (BlkState {
            acked_features: features,
            features_acked: true,
            vrings: rings_enabled(
                self.vrings,
                features & F_PROTOCOL_FEATURES == 0,
            ),
            vring_default_enabled: true,
            ..self
        })
    }

    /// What setting the size of a ring does and gives.
    pub open spec fn num_set(
        self,
        index: u32,
        num: u32,
        next: BlkState<S>,
        outcome: Result<(), Error>,
    ) -> bool where S: Clone {
        &&& num > u16::MAX ==> {
            &&& outcome == Err::<(), Error>(Error::InvalidParam)
            &&& next == self
        }
        &&& num <= u16::MAX ==> {
            let before = self;
            let made = !before.vrings.contains_key(index as usize);
            let ring = next.vrings[index as usize];
            let state = if made {
                VringState::initial()
            } else {
                before.vrings[index as usize].state
            };
            &&& outcome == Ok::<(), Error>(())
            &&& next == before.with_ring(index as usize, ring)
            &&& ring.state == VringState {
                enabled: before.vring_default_enabled,
                size: num as u16,
                ..state
            }
            &&& made ==> cloned(before.backend, ring.disk)
            &&& !made ==> ring.disk == before.vrings[index as usize].disk
        }
    }

    /// What setting where a ring lies does and gives.
    pub open spec fn addr_set(
        self,
        layout: Layout,
        before: Seq<Access>,
        after: Seq<Access>,
        index: u32,
        descriptor: u64,
        used: u64,
        available: u64,
        next: BlkState<S>,
        outcome: Result<(), Error>,
    ) -> bool {
        &&& outcome matches Err(error) ==> {
            &&& error == Error::InvalidParam
            &&& next == self
            &&& after == before
        }
        &&& match self.ring_table(descriptor, used, available) {
            None => outcome.is_err(),
            Some(table) => {
                &&& outcome.is_ok() == (self.vrings.contains_key(index as usize)
                    && memory::reachable(layout.regions, table.used_addr + 2, 2))
                &&& outcome.is_ok() ==> {
                    &&& queue::loads(
                        before,
                        after,
                        table.used_addr + 2,
                        2,
                    )
                    &&& next == self.with_ring_state(
                        index as usize,
                        VringState {
                            mem_table: Some(table),
                            next_used: number::value(
                                layout.order,
                                queue::loaded(after),
                            ) as u16,
                            ..self.vrings[index as usize].state
                        },
                    )
                }
            },
        }
    }

    /// What setting the base index of a ring does and gives.
    pub open spec fn base_set(
        self,
        index: u32,
        base: u32,
        next: BlkState<S>,
        outcome: Result<(), Error>,
    ) -> bool {
        &&& outcome == if base <= u16::MAX && self.vrings.contains_key(index as usize) {
            Ok::<(), Error>(())
        } else {
            Err(Error::InvalidParam)
        }
        &&& outcome.is_err() ==> next == self
        &&& outcome.is_ok() ==> next == self.with_ring_state(
            index as usize,
            self.vrings[index as usize].state.with_base_index(base as u16),
        )
    }

    /// What stopping a ring and telling its base index does and gives.
    pub open spec fn base_told(
        self,
        index: u32,
        next: BlkState<S>,
        outcome: Result<(VringBase, VubMessage), Error>,
    ) -> bool {
        &&& match self.vrings.contains_key(index as usize) {
            true => {
                let state = self.vrings[index as usize].state;
                &&& outcome == Ok::<(VringBase, VubMessage), Error>(
                    (
                        VringBase { index, num: state.last_avail_idx as u32 },
                        VubMessage::DisableVring(DisableVringMsg { index: index as usize }),
                    ),
                )
                &&& next == self.with_ring_state(
                    index as usize,
                    VringState { started: false, ..state },
                )
            },
            false => {
                &&& outcome == Err::<(VringBase, VubMessage), Error>(Error::InvalidParam)
                &&& next == self
            },
        }
    }

    /// What setting the kick file descriptor of a ring does and gives.
    pub open spec fn kick_set(
        self,
        index: u8,
        fd: Option<i32>,
        next: BlkState<S>,
        outcome: Result<KickChange, Error>,
    ) -> bool {
        &&& match self.vrings.contains_key(index as usize) {
            true => {
                let state = self.vrings[index as usize].state;
                &&& outcome == Ok::<KickChange, Error>(
                    KickChange {
                        close: state.kick_fd,
                        message: if state.enabled {
                            Some(
                                VubMessage::EnableVring(
                                    EnableVringMsg { index: index as usize, fd: fd.unwrap() },
                                ),
                            )
                        } else {
                            None
                        },
                    },
                )
                &&& next == self.with_ring_state(
                    index as usize,
                    state.with_fd(fd, VringFd::Kick),
                )
            },
            false => {
                &&& outcome == Err::<KickChange, Error>(Error::InvalidParam)
                &&& next == self
            },
        }
    }

    /// What setting the call file descriptor of a ring does and gives.
    pub open spec fn call_set(
        self,
        index: u8,
        fd: Option<i32>,
        next: BlkState<S>,
        outcome: Result<Option<i32>, Error>,
    ) -> bool {
        &&& match self.vrings.contains_key(index as usize) {
            true => {
                let state = self.vrings[index as usize].state;
                &&& outcome == Ok::<Option<i32>, Error>(state.fd(VringFd::Call))
                &&& next == self.with_ring_state(
                    index as usize,
                    state.with_fd(fd, VringFd::Call),
                )
            },
            false => {
                &&& outcome == Err::<Option<i32>, Error>(Error::InvalidParam)
                &&& next == self
            },
        }
    }

    /// What setting the error file descriptor of a ring does and gives.
    pub open spec fn err_set(
        self,
        index: u8,
        fd: Option<i32>,
        next: BlkState<S>,
        outcome: Result<Option<i32>, Error>,
    ) -> bool {
        &&& match self.vrings.contains_key(index as usize) {
            true => {
                let state = self.vrings[index as usize].state;
                &&& outcome == Ok::<Option<i32>, Error>(state.fd(VringFd::Error))
                &&& next == self.with_ring_state(
                    index as usize,
                    state.with_fd(fd, VringFd::Error),
                )
            },
            false => {
                &&& outcome == Err::<Option<i32>, Error>(Error::InvalidParam)
                &&& next == self
            },
        }
    }

    /// What enabling or disabling a ring does and gives.
    pub open spec fn enable_set(
        self,
        index: u32,
        enable: bool,
        next: BlkState<S>,
        outcome: Result<(), Error>,
    ) -> bool {
        &&& outcome == if self.acked_features & F_PROTOCOL_FEATURES == 0 {
            Err::<(), Error>(Error::InvalidOperation)
        } else if !self.vrings.contains_key(index as usize) {
            Err(Error::InvalidParam)
        } else {
            Ok(())
        }
        &&& outcome.is_err() ==> next == self
        &&& outcome.is_ok() ==> next == self.with_ring_state(
            index as usize,
            VringState { enabled: enable, ..self.vrings[index as usize].state },
        )
    }
}

/// The rings, all of them enabled or disabled.
pub open spec fn rings_enabled<S: StorageBackend>(
    vrings: Map<usize, Ring<S>>,
    enabled: bool,
) -> Map<usize, Ring<S>> {
    vrings.map_values(
        |ring: Ring<S>| Ring { state: VringState { enabled, ..ring.state }, disk: ring.disk },
    )
}

/// A vhost-user block device.
pub struct VhostUserBlk<S: StorageBackend> {
    backend: S,
    mmap_regions: Vec<VhostMmapRegion>,
    vring_num: usize,
    vrings: HashMap<usize, Vring<S>>,
    vring_default_enabled: bool,
    owned: bool,
    features_acked: bool,
    acked_features: u64,
    acked_protocol_features: u64,
    order: ByteOrder,
}

/// What a ring is like.
pub open spec fn ring_of<S: StorageBackend>(vring: Vring<S>) -> Ring<S> {
    Ring { state: vring@, disk: vring.disk() }
}

/// What the rings of a device are like.
pub open spec fn rings_of<S: StorageBackend>(vrings: Map<usize, Vring<S>>) -> Map<usize, Ring<S>> {
    vrings.map_values(|vring: Vring<S>| ring_of(vring))
}

/// Changing one ring changes what that ring is like.
broadcast proof fn lemma_ring_changed<S: StorageBackend>(
    vrings: Map<usize, Vring<S>>,
    index: usize,
    vring: Vring<S>,
)
    ensures
        #[trigger] rings_of(vrings.insert(index, vring)) == rings_of(vrings).insert(
            index,
            ring_of(vring),
        ),
{
    assert(rings_of(vrings.insert(index, vring)) =~= rings_of(vrings).insert(
        index,
        ring_of(vring),
    ));
}

impl<S: StorageBackend> View for VhostUserBlk<S> {
    type V = BlkState<S>;

    closed spec fn view(&self) -> BlkState<S> {
        BlkState {
            backend: self.backend,
            mmap_regions: self.mmap_regions@,
            vring_num: self.vring_num,
            vrings: rings_of(self.vrings@),
            vring_default_enabled: self.vring_default_enabled,
            owned: self.owned,
            features_acked: self.features_acked,
            acked_features: self.acked_features,
            acked_protocol_features: self.acked_protocol_features,
            order: self.order,
        }
    }
}

impl<S: StorageBackend> VhostUserBlk<S> {
    /// A device for the disk `backend`, with up to `vring_num` rings. Numbers in
    /// its configuration space have the byte order of this machine.
    pub fn new(backend: S, vring_num: usize) -> (blk: VhostUserBlk<S>)
        ensures
            blk@ == (BlkState {
                backend,
                mmap_regions: Seq::empty(),
                vring_num,
                vrings: Map::empty(),
                vring_default_enabled: false,
                owned: false,
                features_acked: false,
                acked_features: 0,
                acked_protocol_features: 0,
                order: blk@.order,
            }),
            blk@.wf(),
    {
        let blk: VhostUserBlk<S> = VhostUserBlk {
            backend,
            mmap_regions: Vec::new(),
            vring_num,
            vrings: HashMap::new(),
            vring_default_enabled: false,
            owned: false,
            features_acked: false,
            acked_features: 0,
            acked_protocol_features: 0,
            order: number::machine_order(),
        };
        assert(blk@.vrings =~= Map::empty());
        blk
    }

    /// The ring with index `index`, to work with.
    pub fn get_vring(&mut self, index: usize) -> (outcome: Result<&mut Vring<S>, Error>)
        ensures
            match outcome {
                Ok(vring) => {
                    &&& old(self)@.vrings.contains_key(index)
                    &&& ring_of(*vring) == old(self)@.vrings[index]
                    &&& final(self)@ == old(self)@.with_ring(index, ring_of(*final(vring)))
                },
                Err(error) => {
                    &&& !old(self)@.vrings.contains_key(index)
                    &&& error == Error::InvalidParam
                    &&& final(self)@ == old(self)@
                },
            },
    {
        broadcast use lemma_ring_changed;

        assert(self.vrings@.get(index).is_none() ==> self.vrings@.remove(index) =~= self.vrings@);
        match self.vrings.entry(index) {
            Entry::Occupied(entry) => Ok(entry.into_mut()),
            Entry::Vacant(_) => Err(Error::InvalidParam),
        }
    }

    /// The first mapped region that reaches to the address `addr` of the process
    /// that set up the device.
    pub fn find_region(&self, addr: u64) -> (outcome: Result<&VhostMmapRegion, Error>)
        ensures
            match first_region(self@.mmap_regions, addr) {
                Some(region) => outcome matches Ok(found) && *found == region,
                None => outcome matches Err(error) && error == Error::InvalidParam,
            },
    {
        assert(self.mmap_regions@.take(0) =~= Seq::empty());
        for i in 0..self.mmap_regions.len()
            invariant
                first_region(self.mmap_regions@.take(i as int), addr).is_none(),
        {
            let region: &VhostMmapRegion = &self.mmap_regions[i];
            proof {
                assert(self.mmap_regions@.take(i + 1).drop_last() =~= self.mmap_regions@.take(
                    i as int,
                ));
            }
            if addr >= region.qemu_virt_addr && addr - region.qemu_virt_addr <= region.memory_size {
                proof {
                    lemma_first_region_stays(self.mmap_regions@, addr, i + 1);
                }
                return Ok(region);
            }
        }
        assert(self.mmap_regions@.take(self.mmap_regions@.len() as int) =~= self.mmap_regions@);
        Err(Error::InvalidParam)
    }

    /// Makes the device owned, unless it is.
    pub fn set_owner(&mut self) -> (outcome: Result<(), Error>)
        ensures
            old(self)@.owner_set(final(self)@, outcome),
            old(self)@.wf() ==> final(self)@.wf(),
    {
        if self.owned {
            return Err(Error::InvalidOperation);
        }
        self.owned = true;
        assert(self@.mmap_regions == old(self)@.mmap_regions);
        Ok(())
    }

    /// Takes the owner away, and forgets what it had acknowledged.
    pub fn reset_owner(&mut self) -> (outcome: Result<(), Error>)
        ensures
            old(self)@.owner_reset(final(self)@, outcome),
            old(self)@.wf() ==> final(self)@.wf(),
    {
        self.owned = false;
        self.features_acked = false;
        self.acked_features = 0;
        self.acked_protocol_features = 0;
        assert(self@.mmap_regions == old(self)@.mmap_regions);
        Ok(())
    }

    /// The features that the device offers.
    pub fn get_features(&mut self) -> (outcome: Result<u64, Error>)
        ensures
            outcome == Ok::<u64, Error>(F_PROTOCOL_FEATURES),
            final(self)@ == old(self)@,
    {
        Ok(virtio_features())
    }

    /// The protocol features that the device offers.
    pub fn get_protocol_features(&mut self) -> (outcome: Result<u64, Error>)
        ensures
            outcome == Ok::<u64, Error>(PROTOCOL_F_MQ | PROTOCOL_F_CONFIG),
            final(self)@ == old(self)@,
    {
        Ok(mq_bit() | config_bit())
    }

    /// Acknowledges protocol features.
    pub fn set_protocol_features(&mut self, features: u64) -> (outcome: Result<(), Error>)
        ensures
            old(self)@.protocol_features_set(features, final(self)@, outcome),
            old(self)@.wf() ==> final(self)@.wf(),
    {
        self.acked_protocol_features = features;
        assert(self@.mmap_regions == old(self)@.mmap_regions);
        Ok(())
    }

    /// The number of rings that the device can have.
    pub fn get_queue_num(&mut self) -> (outcome: Result<u64, Error>)
        ensures
            outcome == Ok::<u64, Error>(old(self)@.vring_num as u64),
            final(self)@ == old(self)@,
    {
        Ok(self.vring_num as u64)
    }
}

impl<S: StorageBackend> VhostUserBlk<S> {
    /// The indices of the rings.
    fn vring_indices(&self) -> (indices: Vec<usize>)
        ensures
            indices@.no_duplicates(),
            indices@.to_set() == self@.vrings.dom(),
    {
        let mut indices: Vec<usize> = Vec::new();
        for index in iter: self.vrings.keys()
            invariant
                indices@ == iter.seq().unref().take(iter.index()),
                iter.seq().no_duplicates(),
                iter.seq().unref().to_set() == self.vrings@.dom(),
                iter.seq().unref().take(iter.seq().len() as int) == iter.seq().unref(),
        {
            indices.push(*index);
        }
        assert(self@.vrings.dom() =~= self.vrings@.dom());
        indices
    }

    /// Acknowledges features. All rings are enabled, unless the feature bit of
    /// protocol features is among them.
    pub fn set_features(&mut self, features: u64) -> (outcome: Result<(), Error>)
        ensures
            old(self)@.features_set(features, final(self)@, outcome),
            old(self)@.wf() ==> final(self)@.wf(),
    {
        if !self.owned {
            return Err(Error::InvalidOperation);
        } else if features & virtio_features() != 0 {
            return Err(Error::InvalidParam);
        }
        self.acked_features = features;
        self.features_acked = true;

        // If VHOST_USER_F_PROTOCOL_FEATURES has not been negotiated,
        // the ring is initialized in an enabled state.
        // If VHOST_USER_F_PROTOCOL_FEATURES has been negotiated,
        // the ring is initialized in a disabled state. Client must not
        // pass data to/from the backend until ring is enabled by
        // VHOST_USER_SET_VRING_ENABLE with parameter 1, or after it has
        // been disabled by VHOST_USER_SET_VRING_ENABLE with parameter 0.
        let vring_enabled: bool = self.acked_features & protocol_features_bit() == 0;
        let ghost before = self@;
        let ghost enabled = rings_enabled(before.vrings, vring_enabled);
        let indices: Vec<usize> = self.vring_indices();
        for i in 0..indices.len()
            invariant
                indices@.no_duplicates(),
                indices@.to_set() == before.vrings.dom(),
                enabled == rings_enabled(before.vrings, vring_enabled),
                self@ == (BlkState { vrings: self@.vrings, ..before }),
                self@.vrings.dom() == before.vrings.dom(),
                forall|k: int|
                    0 <= k < indices@.len() ==> self@.vrings[#[trigger] indices@[k]] == if k < i {
                        enabled[indices@[k]]
                    } else {
                        before.vrings[indices@[k]]
                    },
        {
            let index: usize = indices[i];
            assert(indices@.to_set().contains(index));
            if let Ok(vring) = self.get_vring(index) {
                vring.set_enabled(vring_enabled);
            }
            assert(self@.vrings.dom() =~= before.vrings.dom());
        }
        assert forall|index: usize| self@.vrings.contains_key(index) implies self@.vrings[index]
            == enabled[index] by {
            assert(indices@.to_set().contains(index));
            let k = choose|k: int| 0 <= k < indices@.len() && indices@[k] == index;
            assert(indices@[k] == index);
        }
        assert(self@.vrings =~= enabled);
        self.vring_default_enabled = true;

        assert(self@.mmap_regions == old(self)@.mmap_regions);
        Ok(())
    }
}

impl<S: StorageBackend> VhostUserBlk<S> {
    /// Replaces the mapped regions of guest memory. `mapped` holds the address at
    /// which each of `regions` was mapped, and nothing for one that could not be.
    /// That one fails the request, and the earlier ones are kept.
    pub fn set_mem_table(
        &mut self,
        regions: &Vec<MemoryRegion>,
        mapped: &Vec<Option<u64>>,
    ) -> (outcome: Result<(), Error>)
        requires
            forall|i: int|
                0 <= i < regions@.len() && i < mapped@.len() ==> (
                #[trigger] mapped@[i] matches Some(mmap_addr) ==> mmap_addr
                    + regions@[i].memory_size <= u64::MAX),
        ensures
            old(self)@.regions_set(regions@, mapped@, final(self)@, outcome),
            old(self)@.wf() ==> final(self)@.wf(),
    {
        self.mmap_regions = Vec::new();
        let ghost before = self@;
        assert(regions@.take(0) =~= Seq::empty());
        for i in 0..regions.len()
            invariant
                self@ == (BlkState { mmap_regions: self@.mmap_regions, ..before }),
                self@.mmap_regions == mapped_regions(regions@.take(i as int), mapped@),
                self@.mmap_regions.len() == i,
                old(self)@.wf() ==> self@.wf(),
                before == (BlkState { mmap_regions: Seq::empty(), ..old(self)@ }),
                forall|i: int|
                    0 <= i < regions@.len() && i < mapped@.len() ==> (
                    #[trigger] mapped@[i] matches Some(mmap_addr) ==> mmap_addr
                        + regions@[i].memory_size <= u64::MAX),
        {
            let region: MemoryRegion = regions[i];
            proof {
                assert(regions@.take(i + 1).drop_last() =~= regions@.take(i as int));
            }
            let mmap_addr: Option<u64> = if i < mapped.len() {
                mapped[i]
            } else {
                None
            };
            match mmap_addr {
                Some(mmap_addr) => {
                    self.mmap_regions.push(
                        VhostMmapRegion::new(
                            mmap_addr,
                            region.guest_phys_addr,
                            region.memory_size,
                            region.userspace_addr,
                        ),
                    );
                },
                None => {
                    proof {
                        lemma_mapping_stops(regions@, mapped@, i + 1);
                    }
                    return Err(Error::OperationFailedInSlave);
                },
            }
        }
        assert(regions@.take(regions@.len() as int) =~= regions@);
        Ok(())
    }

    /// Sets the size of the ring with index `index`. If there is none, it is
    /// made.
    pub fn set_vring_num(&mut self, index: u32, num: u32) -> (outcome: Result<(), Error>) where
        S: Clone,

        ensures
            old(self)@.num_set(index, num, final(self)@, outcome),
            old(self)@.wf() ==> final(self)@.wf(),
    {
        broadcast use lemma_ring_changed;

        if num > u16::MAX as u32 {
            return Err(Error::InvalidParam);
        }
        let vring_index: usize = index as usize;
        if !self.vrings.contains_key(&vring_index) {
            self.vrings.insert(vring_index, Vring::new(self.backend.clone()));
        }
        let enabled: bool = self.vring_default_enabled;
        if let Ok(vring) = self.get_vring(vring_index) {
            vring.set_enabled(enabled);
            vring.set_size(num as u16);
        }
        assert(self@.vrings =~= old(self)@.vrings.insert(vring_index, self@.vrings[vring_index]));
        Ok(())
    }

    /// Sets where the parts of the ring with index `index` lie, by their
    /// addresses in the process that set up the device.
    pub fn set_vring_addr(
        &mut self,
        mem: &mut GuestRam,
        index: u32,
        _flags: u32,
        descriptor: u64,
        used: u64,
        available: u64,
        _log: u64,
    ) -> (outcome: Result<(), Error>)
        requires
            old(self)@.wf(),
        ensures
            final(mem).layout() == old(mem).layout(),
            old(self)@.addr_set(
                old(mem).layout(),
                old(mem).log(),
                final(mem).log(),
                index,
                descriptor,
                used,
                available,
                final(self)@,
                outcome,
            ),
            old(self)@.wf() ==> final(self)@.wf(),
    {
        let region: VhostMmapRegion = match self.find_region(descriptor) {
            Ok(region) => *region,
            Err(error) => return Err(error),
        };
        proof {
            law_found_region_reaches(self@.mmap_regions, descriptor);
        }
        let desc_region: VringMmapRegion = VringMmapRegion::new(
            region.mmap_addr,
            region.memory_size,
        );
        let desc_addr: u64 = match region.qva_to_va(descriptor) {
            Ok(addr) => addr,
            Err(error) => return Err(error),
        };

        let region: VhostMmapRegion = match self.find_region(used) {
            Ok(region) => *region,
            Err(error) => return Err(error),
        };
        proof {
            law_found_region_reaches(self@.mmap_regions, used);
        }
        let used_region: VringMmapRegion = VringMmapRegion::new(
            region.mmap_addr,
            region.memory_size,
        );
        let used_addr: u64 = match region.qva_to_va(used) {
            Ok(addr) => addr,
            Err(error) => return Err(error),
        };

        let region: VhostMmapRegion = match self.find_region(available) {
            Ok(region) => *region,
            Err(error) => return Err(error),
        };
        proof {
            law_found_region_reaches(self@.mmap_regions, available);
        }
        let avail_region: VringMmapRegion = VringMmapRegion::new(
            region.mmap_addr,
            region.memory_size,
        );
        let avail_addr: u64 = match region.qva_to_va(available) {
            Ok(addr) => addr,
            Err(error) => return Err(error),
        };

        let ghost before = self@;
        match self.get_vring(index as usize) {
            Ok(vring) => {
                let outcome: Result<(), Error> = vring.set_mem_table(
                    mem,
                    desc_region,
                    desc_addr,
                    used_region,
                    used_addr,
                    avail_region,
                    avail_addr,
                );
                assert(outcome.is_err() ==> self@.vrings =~= before.vrings);
                outcome
            },
            Err(error) => Err(error),
        }
    }
}

impl<S: StorageBackend> VhostUserBlk<S> {
    /// Goes on taking requests of the ring with index `index` at index `base`.
    pub fn set_vring_base(&mut self, index: u32, base: u32) -> (outcome: Result<(), Error>)
        ensures
            old(self)@.base_set(index, base, final(self)@, outcome),
            old(self)@.wf() ==> final(self)@.wf(),
    {
        if base > u16::MAX as u32 {
            return Err(Error::InvalidParam);
        }
        match self.get_vring(index as usize) {
            Ok(vring) => {
                vring.set_base_index(base as u16);
                Ok(())
            },
            Err(error) => Err(error),
        }
    }

    /// Stops the ring with index `index`, and gives the index of its next request
    /// to take, with the message that stops its being served.
    pub fn get_vring_base(&mut self, index: u32) -> (outcome: Result<
        (VringBase, VubMessage),
        Error,
    >)
        ensures
            old(self)@.base_told(index, final(self)@, outcome),
            old(self)@.wf() ==> final(self)@.wf(),
    {
        match self.get_vring(index as usize) {
            Ok(vring) => {
                vring.set_started(false);
                Ok(
                    (
                        VringBase { index, num: vring.get_base_index() as u32 },
                        VubMessage::DisableVring(DisableVringMsg { index: index as usize }),
                    ),
                )
            },
            Err(error) => Err(error),
        }
    }

    /// Sets the kick file descriptor of the ring with index `index`, and gives
    /// what is left to do: the one it replaces is to be closed, and an enabled
    /// ring is to be served.
    pub fn set_vring_kick(&mut self, index: u8, fd: Option<i32>) -> (outcome: Result<
        KickChange,
        Error,
    >)
        requires
            fd.is_some() || !old(self)@.vrings.contains_key(index as usize)
                || !old(self)@.vrings[index as usize].state.enabled,
        ensures
            old(self)@.kick_set(index, fd, final(self)@, outcome),
            old(self)@.wf() ==> final(self)@.wf(),
    {
        match self.get_vring(index as usize) {
            Ok(vring) => {
                let close: Option<i32> = vring.set_fd(fd, VringFd::Kick);
                let message: Option<VubMessage> = if vring.is_enabled() {
                    let kick_fd: i32 = vring.get_fd(VringFd::Kick).unwrap();
                    Some(
                        VubMessage::EnableVring(
                            EnableVringMsg { index: index as usize, fd: kick_fd },
                        ),
                    )
                } else {
                    None
                };
                Ok(KickChange { close, message })
            },
            Err(error) => Err(error),
        }
    }

    /// Sets the call file descriptor of the ring with index `index`, and gives the
    /// one it replaces, which is to be closed.
    pub fn set_vring_call(&mut self, index: u8, fd: Option<i32>) -> (outcome: Result<
        Option<i32>,
        Error,
    >)
        ensures
            old(self)@.call_set(index, fd, final(self)@, outcome),
            old(self)@.wf() ==> final(self)@.wf(),
    {
        match self.get_vring(index as usize) {
            Ok(vring) => Ok(vring.set_fd(fd, VringFd::Call)),
            Err(error) => Err(error),
        }
    }

    /// Sets the error file descriptor of the ring with index `index`, and gives the
    /// one it replaces, which is to be closed.
    pub fn set_vring_err(&mut self, index: u8, fd: Option<i32>) -> (outcome: Result<
        Option<i32>,
        Error,
    >)
        ensures
            old(self)@.err_set(index, fd, final(self)@, outcome),
            old(self)@.wf() ==> final(self)@.wf(),
    {
        match self.get_vring(index as usize) {
            Ok(vring) => Ok(vring.set_fd(fd, VringFd::Error)),
            Err(error) => Err(error),
        }
    }

    /// Enables or disables the ring with index `index`. Only a device whose
    /// feature bit of protocol features was acknowledged does so.
    pub fn set_vring_enable(&mut self, index: u32, enable: bool) -> (outcome: Result<(), Error>)
        ensures
            old(self)@.enable_set(index, enable, final(self)@, outcome),
            old(self)@.wf() ==> final(self)@.wf(),
    {
        // This request should be handled only when VHOST_USER_F_PROTOCOL_FEATURES
        // has been negotiated.
        if self.acked_features & protocol_features_bit() == 0 {
            return Err(Error::InvalidOperation);
        }
        match self.get_vring(index as usize) {
            Ok(vring) => {
                // Slave must not pass data to/from the backend until ring is
                // enabled by VHOST_USER_SET_VRING_ENABLE with parameter 1,
                // or after it has been disabled by VHOST_USER_SET_VRING_ENABLE
                // with parameter 0.
                vring.set_enabled(enable);
                Ok(())
            },
            Err(error) => Err(error),
        }
    }

    /// The configuration space, for a driver that asks for all of it.
    pub fn get_config(&mut self, buf: &[u8], _flags: u32) -> (outcome: Result<Vec<u8>, Error>)
        ensures
            final(self)@ == old(self)@,
            match outcome {
                Ok(config) => old(self)@.config_told(buf@.len() as int, Ok(config@)),
                Err(error) => old(self)@.config_told(buf@.len() as int, Err(error)),
            },
    {
        if buf.len() != CONFIG_SIZE {
            return Err(Error::InvalidParam);
        }
        Ok(self.backend.get_config().to_bytes(self.order))
    }

    /// Accepts a new configuration space, and changes nothing.
    pub fn set_config(&mut self, buf: &[u8], offset: u32, _flags: u32) -> (outcome: Result<
        (),
        Error,
    >)
        ensures
            final(self)@ == old(self)@,
            outcome == old(self)@.config_accepted(buf@.len() as int, offset),
    {
        if self.acked_features & config_bit() == 0 {
            return Err(Error::InvalidOperation);
        } else if buf.len() != CONFIG_SIZE || offset as usize > buf.len() {
            return Err(Error::InvalidParam);
        }
        Ok(())
    }
}

/// The region that is found for an address reaches to it, and no earlier one
/// does. None is found only where none reaches to it.
pub proof fn law_found_region_reaches(regions: Seq<VhostMmapRegion>, addr: u64)
    ensures
        match first_region(regions, addr) {
            Some(region) => exists|i: int|
                0 <= i < regions.len() && #[trigger] regions[i] == region && region.reaches(addr)
                    && forall|j: int| 0 <= j < i ==> !(#[trigger] regions[j]).reaches(addr),
            None => forall|i: int|
                0 <= i < regions.len() ==> !(#[trigger] regions[i]).reaches(addr),
        },
    decreases regions.len(),
{
    if regions.len() > 0 {
        let earlier = regions.drop_last();
        law_found_region_reaches(earlier, addr);
        assert forall|i: int| 0 <= i < earlier.len() implies #[trigger] regions[i]
            == earlier[i] by {}
        if let Some(region) = first_region(earlier, addr) {
            let i = choose|i: int|
                0 <= i < earlier.len() && #[trigger] earlier[i] == region && region.reaches(addr)
                    && forall|j: int| 0 <= j < i ==> !(#[trigger] earlier[j]).reaches(addr);
            assert(regions[i] == region);
        } else {
            assert(regions[regions.len() - 1] == regions.last());
        }
    }
}

/// Once a region could not be mapped, no later one is looked at.
proof fn lemma_mapping_stops(regions: Seq<MemoryRegion>, mapped: Seq<Option<u64>>, n: int)
    requires
        0 <= n <= regions.len(),
        mapped_regions(regions.take(n), mapped).len() < n,
    ensures
        mapped_regions(regions, mapped) == mapped_regions(regions.take(n), mapped),
    decreases regions.len(),
{
    if n == regions.len() {
        assert(regions.take(n) =~= regions);
    } else {
        assert(regions.drop_last().take(n) =~= regions.take(n));
        lemma_mapping_stops(regions.drop_last(), mapped, n);
    }
}

/// What was found among the first regions is found among all of them.
proof fn lemma_first_region_stays(regions: Seq<VhostMmapRegion>, addr: u64, n: int)
    requires
        0 <= n <= regions.len(),
        first_region(regions.take(n), addr).is_some(),
    ensures
        first_region(regions, addr) == first_region(regions.take(n), addr),
    decreases regions.len(),
{
    if n == regions.len() {
        assert(regions.take(n) =~= regions);
    } else {
        assert(regions.drop_last().take(n) =~= regions.take(n));
        lemma_first_region_stays(regions.drop_last(), addr, n);
    }
}

} // verus!
