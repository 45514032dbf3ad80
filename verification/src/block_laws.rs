//! What holds of the device across several requests.
use crate::backend::{StorageBackend, VirtioBlkConfig};
use crate::block;
use crate::block::{BlkState, KickChange, MemoryRegion, VhostMmapRegion, VringBase};
use crate::error::Error;
use crate::memory;
use crate::memory::{Access, Layout};
use crate::message::VubMessage;
use crate::number;
use crate::number::ByteOrder;
use crate::vring::{VringFd, VringMemTable, VringMmapRegion, VringState};
use vstd::prelude::*;

verus! {

/// A request that concerns one ring changes that ring only.
pub proof fn law_ring_change_is_local<S: StorageBackend>(
    blk: BlkState<S>,
    index: usize,
    state: VringState,
    other: usize,
)
    requires
        other != index,
    ensures
        blk.with_ring_state(index, state).vrings.contains_key(other) == blk.vrings.contains_key(
            other,
        ),
        blk.vrings.contains_key(other) ==> blk.with_ring_state(index, state).vrings[other]
            == blk.vrings[other],
{
}

/// The base index that was set is the one that is told, unless requests were
/// taken in between.
pub proof fn law_base_reads_back<S: StorageBackend>(blk: BlkState<S>, index: usize, base: u16)
    requires
        blk.vrings.contains_key(index),
    ensures
        blk.with_ring_state(
            index,
            blk.vrings[index].state.with_base_index(base),
        ).vrings[index].state.last_avail_idx == base,
{
}

/// Once features are acknowledged, all rings are enabled.
pub proof fn law_acknowledged_rings_are_enabled<S: StorageBackend>(
    blk: BlkState<S>,
    features: u64,
    index: usize,
)
    requires
        features & block::F_PROTOCOL_FEATURES == 0,
        blk.vrings.contains_key(index),
    ensures
        block::rings_enabled(
            blk.vrings,
            features & block::F_PROTOCOL_FEATURES == 0,
        )[index].state.enabled,
{
}

/// An address is mapped into the mapping of its region, or just past its end,
/// and addresses keep their distance.
pub proof fn law_translation_stays_in_mapping(region: VhostMmapRegion, addr: u64, other: u64)
    requires
        region.fits(),
        region.reaches(addr),
        region.reaches(other),
    ensures
        region.mmap_addr <= region.translated(addr) <= region.mmap_addr + region.memory_size,
        region.translated(addr) - region.translated(other) == addr - other,
{
}

/// The parts of a ring lie in the mappings that they are said to lie in, or just
/// past the end of these.
pub proof fn law_ring_lies_in_its_mappings<S: StorageBackend>(
    blk: BlkState<S>,
    descriptor: u64,
    used: u64,
    available: u64,
)
    requires
        blk.wf(),
    ensures
        blk.ring_table(descriptor, used, available) matches Some(table) ==> {
            &&& table.desc_region.mmap_addr <= table.desc_addr <= table.desc_region.mmap_addr
                + table.desc_region.size
            &&& table.used_region.mmap_addr <= table.used_addr <= table.used_region.mmap_addr
                + table.used_region.size
            &&& table.avail_region.mmap_addr <= table.avail_addr <= table.avail_region.mmap_addr
                + table.avail_region.size
        },
{
    block::law_found_region_reaches(blk.mmap_regions, descriptor);
    block::law_found_region_reaches(blk.mmap_regions, used);
    block::law_found_region_reaches(blk.mmap_regions, available);
}

/// The regions that are kept are the first ones that could be mapped, each with
/// its own mapping. Only the first one that could not be mapped ends them.
pub proof fn law_regions_are_mapped_in_order(
    regions: Seq<MemoryRegion>,
    mapped: Seq<Option<u64>>,
)
    ensures
        block::mapped_regions(regions, mapped).len() <= regions.len(),
        forall|i: int|
            0 <= i < block::mapped_regions(regions, mapped).len() ==> i < mapped.len() && (
            #[trigger] mapped[i]) == Some(block::mapped_regions(regions, mapped)[i].mmap_addr)
                && block::mapped_regions(regions, mapped)[i] == (VhostMmapRegion {
                mmap_addr: mapped[i].unwrap(),
                guest_phys_addr: regions[i].guest_phys_addr,
                memory_size: regions[i].memory_size,
                qemu_virt_addr: regions[i].userspace_addr,
            }),
        ({
            let n = block::mapped_regions(regions, mapped).len();
            n < regions.len() ==> n >= mapped.len() || mapped[n as int].is_none()
        }),
    decreases regions.len(),
{
    if regions.len() > 0 {
        law_regions_are_mapped_in_order(regions.drop_last(), mapped);
    }
}

/// The configuration space starts with the capacity of the disk.
pub proof fn law_config_tells_capacity(config: VirtioBlkConfig, order: ByteOrder)
    ensures
        number::value(order, config.bytes(order).subrange(0, 8)) == config.capacity,
{
    law_config_holds_every_field(config, order);
}

/// The configuration space holds every field of the configuration at its place, one
/// after the other, and ends with the unused bytes.
#[verifier::rlimit(50)]
pub proof fn law_config_holds_every_field(config: VirtioBlkConfig, order: ByteOrder)
    ensures
        config.bytes(order).len() == 60,
        number::value(order, config.bytes(order).subrange(0, 8)) == config.capacity,
        number::value(order, config.bytes(order).subrange(8, 12)) == config.size_max,
        number::value(order, config.bytes(order).subrange(12, 16)) == config.seg_max,
        number::value(order, config.bytes(order).subrange(16, 18)) == config.geometry.cylinders,
        number::value(order, config.bytes(order).subrange(18, 19)) == config.geometry.heads,
        number::value(order, config.bytes(order).subrange(19, 20)) == config.geometry.sectors,
        number::value(order, config.bytes(order).subrange(20, 24)) == config.blk_size,
        number::value(order, config.bytes(order).subrange(24, 25)) == config.physical_block_exp,
        number::value(order, config.bytes(order).subrange(25, 26)) == config.alignment_offset,
        number::value(order, config.bytes(order).subrange(26, 28)) == config.min_io_size,
        number::value(order, config.bytes(order).subrange(28, 32)) == config.opt_io_size,
        number::value(order, config.bytes(order).subrange(32, 33)) == config.wce,
        number::value(order, config.bytes(order).subrange(33, 34)) == config.unused,
        number::value(order, config.bytes(order).subrange(34, 36)) == config.num_queues,
        number::value(order, config.bytes(order).subrange(36, 40)) == config.max_discard_sectors,
        number::value(order, config.bytes(order).subrange(40, 44)) == config.max_discard_seg,
        number::value(order, config.bytes(order).subrange(44, 48))
            == config.discard_sector_alignment,
        number::value(order, config.bytes(order).subrange(48, 52))
            == config.max_write_zeroes_sectors,
        number::value(order, config.bytes(order).subrange(52, 56)) == config.max_write_zeroes_seg,
        number::value(order, config.bytes(order).subrange(56, 57)) == config.write_zeroes_may_unmap,
        config.bytes(order).subrange(57, 60) == config.unused1@,
{
    let bytes = config.bytes(order);
    number::lemma_byte_spans();
    config.lemma_bytes_len(order);
    number::lemma_encoded_len(order, config.capacity as nat, 8);
    number::law_decode_undoes_encode(order, config.capacity as nat, 8);
    assert(bytes.subrange(0, 8) =~= number::encoded(order, config.capacity as nat, 8));
    number::lemma_encoded_len(order, config.size_max as nat, 4);
    number::law_decode_undoes_encode(order, config.size_max as nat, 4);
    assert(bytes.subrange(8, 12) =~= number::encoded(order, config.size_max as nat, 4));
    number::lemma_encoded_len(order, config.seg_max as nat, 4);
    number::law_decode_undoes_encode(order, config.seg_max as nat, 4);
    assert(bytes.subrange(12, 16) =~= number::encoded(order, config.seg_max as nat, 4));
    number::lemma_encoded_len(order, config.geometry.cylinders as nat, 2);
    number::law_decode_undoes_encode(order, config.geometry.cylinders as nat, 2);
    assert(bytes.subrange(16, 18) =~= number::encoded(order, config.geometry.cylinders as nat, 2));
    number::lemma_encoded_len(order, config.geometry.heads as nat, 1);
    number::law_decode_undoes_encode(order, config.geometry.heads as nat, 1);
    assert(bytes.subrange(18, 19) =~= number::encoded(order, config.geometry.heads as nat, 1));
    number::lemma_encoded_len(order, config.geometry.sectors as nat, 1);
    number::law_decode_undoes_encode(order, config.geometry.sectors as nat, 1);
    assert(bytes.subrange(19, 20) =~= number::encoded(order, config.geometry.sectors as nat, 1));
    number::lemma_encoded_len(order, config.blk_size as nat, 4);
    number::law_decode_undoes_encode(order, config.blk_size as nat, 4);
    assert(bytes.subrange(20, 24) =~= number::encoded(order, config.blk_size as nat, 4));
    number::lemma_encoded_len(order, config.physical_block_exp as nat, 1);
    number::law_decode_undoes_encode(order, config.physical_block_exp as nat, 1);
    assert(bytes.subrange(24, 25) =~= number::encoded(order, config.physical_block_exp as nat, 1));
    number::lemma_encoded_len(order, config.alignment_offset as nat, 1);
    number::law_decode_undoes_encode(order, config.alignment_offset as nat, 1);
    assert(bytes.subrange(25, 26) =~= number::encoded(order, config.alignment_offset as nat, 1));
    number::lemma_encoded_len(order, config.min_io_size as nat, 2);
    number::law_decode_undoes_encode(order, config.min_io_size as nat, 2);
    assert(bytes.subrange(26, 28) =~= number::encoded(order, config.min_io_size as nat, 2));
    number::lemma_encoded_len(order, config.opt_io_size as nat, 4);
    number::law_decode_undoes_encode(order, config.opt_io_size as nat, 4);
    assert(bytes.subrange(28, 32) =~= number::encoded(order, config.opt_io_size as nat, 4));
    number::lemma_encoded_len(order, config.wce as nat, 1);
    number::law_decode_undoes_encode(order, config.wce as nat, 1);
    assert(bytes.subrange(32, 33) =~= number::encoded(order, config.wce as nat, 1));
    number::lemma_encoded_len(order, config.unused as nat, 1);
    number::law_decode_undoes_encode(order, config.unused as nat, 1);
    assert(bytes.subrange(33, 34) =~= number::encoded(order, config.unused as nat, 1));
    number::lemma_encoded_len(order, config.num_queues as nat, 2);
    number::law_decode_undoes_encode(order, config.num_queues as nat, 2);
    assert(bytes.subrange(34, 36) =~= number::encoded(order, config.num_queues as nat, 2));
    number::lemma_encoded_len(order, config.max_discard_sectors as nat, 4);
    number::law_decode_undoes_encode(order, config.max_discard_sectors as nat, 4);
    assert(bytes.subrange(36, 40) =~= number::encoded(order, config.max_discard_sectors as nat, 4));
    number::lemma_encoded_len(order, config.max_discard_seg as nat, 4);
    number::law_decode_undoes_encode(order, config.max_discard_seg as nat, 4);
    assert(bytes.subrange(40, 44) =~= number::encoded(order, config.max_discard_seg as nat, 4));
    number::lemma_encoded_len(order, config.discard_sector_alignment as nat, 4);
    number::law_decode_undoes_encode(order, config.discard_sector_alignment as nat, 4);
    assert(bytes.subrange(44, 48) =~= number::encoded(
        order,
        config.discard_sector_alignment as nat,
        4,
    ));
    number::lemma_encoded_len(order, config.max_write_zeroes_sectors as nat, 4);
    number::law_decode_undoes_encode(order, config.max_write_zeroes_sectors as nat, 4);
    assert(bytes.subrange(48, 52) =~= number::encoded(
        order,
        config.max_write_zeroes_sectors as nat,
        4,
    ));
    number::lemma_encoded_len(order, config.max_write_zeroes_seg as nat, 4);
    number::law_decode_undoes_encode(order, config.max_write_zeroes_seg as nat, 4);
    assert(bytes.subrange(52, 56) =~= number::encoded(
        order,
        config.max_write_zeroes_seg as nat,
        4,
    ));
    number::lemma_encoded_len(order, config.write_zeroes_may_unmap as nat, 1);
    number::law_decode_undoes_encode(order, config.write_zeroes_may_unmap as nat, 1);
    assert(bytes.subrange(56, 57) =~= number::encoded(
        order,
        config.write_zeroes_may_unmap as nat,
        1,
    ));
    assert(bytes.subrange(57, 60) =~= config.unused1@);
}

/// Whether `part` lies in the mapping of `region` as far as `addr` lies into the region
/// itself, and `region` is the first of `regions` that goes from its first address to
/// just past its end around `addr`.
pub open spec fn keeps_its_offset(
    regions: Seq<VhostMmapRegion>,
    i: int,
    addr: u64,
    mapping: VringMmapRegion,
    part: u64,
) -> bool {
    &&& 0 <= i < regions.len()
    &&& regions[i].qemu_virt_addr <= addr <= regions[i].qemu_virt_addr + regions[i].memory_size
    &&& forall|j: int|
        0 <= j < i ==> !((#[trigger] regions[j]).qemu_virt_addr <= addr
            <= regions[j].qemu_virt_addr + regions[j].memory_size)
    &&& mapping.mmap_addr == regions[i].mmap_addr
    &&& mapping.size == regions[i].memory_size
    &&& part - regions[i].mmap_addr == addr - regions[i].qemu_virt_addr
}

/// Once a ring's addresses are set, each of its three parts lies as far into the mapping
/// of its region as the given address lies into that region. The used ring's index, two
/// bytes into it, is where returning goes on. Other rings, and the rest of this one, stay.
pub proof fn law_ring_parts_keep_their_offsets<S: StorageBackend>(
    blk: BlkState<S>,
    layout: Layout,
    before: Seq<Access>,
    after: Seq<Access>,
    index: u32,
    descriptor: u64,
    used: u64,
    available: u64,
    next: BlkState<S>,
)
    requires
        blk.wf(),
        blk.addr_set(
            layout,
            before,
            after,
            index,
            descriptor,
            used,
            available,
            next,
            Ok(()),
        ),
    ensures
        blk.vrings.contains_key(index as usize),
        ({
            let ring = next.vrings[index as usize];
            let old_ring = blk.vrings[index as usize];
            &&& ring.state.mem_table matches Some(table)
            &&& exists|i: int|
                #[trigger] keeps_its_offset(
                    blk.mmap_regions,
                    i,
                    descriptor,
                    table.desc_region,
                    table.desc_addr,
                )
            &&& exists|i: int|
                #[trigger] keeps_its_offset(
                    blk.mmap_regions,
                    i,
                    used,
                    table.used_region,
                    table.used_addr,
                )
            &&& exists|i: int|
                #[trigger] keeps_its_offset(
                    blk.mmap_regions,
                    i,
                    available,
                    table.avail_region,
                    table.avail_addr,
                )
            &&& after.len() == before.len() + 1
            &&& after.drop_last() == before
            &&& after.last() is Load
            &&& after.last()->Load_addr == table.used_addr + 2
            &&& after.last()->Load_bytes.len() == 2
            &&& ring.state.next_used == number::value(layout.order, after.last()->Load_bytes)
            &&& ring.state == (VringState {
                mem_table: Some(table),
                next_used: ring.state.next_used,
                ..old_ring.state
            })
            &&& ring.disk == old_ring.disk
            &&& next == (BlkState { vrings: blk.vrings.insert(index as usize, ring), ..blk })
        }),
{
    let table = blk.ring_table(descriptor, used, available).unwrap();
    lemma_offset(blk.mmap_regions, descriptor);
    lemma_offset(blk.mmap_regions, used);
    lemma_offset(blk.mmap_regions, available);
    assert(after.drop_last() =~= before);
    number::lemma_byte_spans();
    number::lemma_value_bound(layout.order, after.last()->Load_bytes);
    let ring = next.vrings[index as usize];
    assert(ring.state.mem_table == Some(table));
    assert(ring.state.next_used == number::value(layout.order, after.last()->Load_bytes));
    assert(next.vrings =~= blk.vrings.insert(index as usize, ring));
    assert(next == (BlkState { vrings: blk.vrings.insert(index as usize, ring), ..blk }));
    assert(ring.disk == blk.vrings[index as usize].disk);
    let d = block::first_region(blk.mmap_regions, descriptor).unwrap();
    let u = block::first_region(blk.mmap_regions, used).unwrap();
    let v = block::first_region(blk.mmap_regions, available).unwrap();
    assert(table.desc_region == block::mapping(d) && table.desc_addr == d.translated(
        descriptor,
    ) as u64);
    assert(table.used_region == block::mapping(u) && table.used_addr == u.translated(used) as u64);
    assert(table.avail_region == block::mapping(v) && table.avail_addr == v.translated(
        available,
    ) as u64);
}

/// The first region that reaches to an address keeps the address's offset.
proof fn lemma_offset(regions: Seq<VhostMmapRegion>, addr: u64)
    requires
        forall|i: int| 0 <= i < regions.len() ==> (#[trigger] regions[i]).fits(),
    ensures
        block::first_region(regions, addr) matches Some(region) ==> exists|i: int|
            #[trigger] keeps_its_offset(
                regions,
                i,
                addr,
                block::mapping(region),
                region.translated(addr) as u64,
            ),
        block::first_region(regions, addr).is_none() ==> forall|i: int|
            0 <= i < regions.len() ==> !((#[trigger] regions[i]).qemu_virt_addr <= addr
                <= regions[i].qemu_virt_addr + regions[i].memory_size),
{
    block::law_found_region_reaches(regions, addr);
    if let Some(region) = block::first_region(regions, addr) {
        let i = choose|i: int|
            0 <= i < regions.len() && #[trigger] regions[i] == region && region.reaches(addr)
                && forall|j: int| 0 <= j < i ==> !(#[trigger] regions[j]).reaches(addr);
        assert forall|j: int| 0 <= j < i implies !((#[trigger] regions[j]).qemu_virt_addr <= addr
            <= regions[j].qemu_virt_addr + regions[j].memory_size) by {
            assert(!regions[j].reaches(addr));
        }
        assert(keeps_its_offset(
            regions,
            i,
            addr,
            block::mapping(region),
            region.translated(addr) as u64,
        ));
    } else {
        assert forall|i: int| 0 <= i < regions.len() implies !((
        #[trigger] regions[i]).qemu_virt_addr <= addr <= regions[i].qemu_virt_addr
            + regions[i].memory_size) by {
            assert(!regions[i].reaches(addr));
        }
    }
}

/// Setting a ring's addresses is refused, and changes nothing, only if one of them lies
/// in no region, there is no such ring, or the used ring's index cannot be read.
pub proof fn law_ring_addresses_are_refused_for_a_reason<S: StorageBackend>(
    blk: BlkState<S>,
    layout: Layout,
    before: Seq<Access>,
    after: Seq<Access>,
    index: u32,
    descriptor: u64,
    used: u64,
    available: u64,
    next: BlkState<S>,
    error: Error,
)
    requires
        blk.wf(),
        blk.addr_set(
            layout,
            before,
            after,
            index,
            descriptor,
            used,
            available,
            next,
            Err(error),
        ),
    ensures
        error == Error::InvalidParam,
        next == blk,
        after == before,
        ({
            ||| lies_nowhere(blk.mmap_regions, descriptor)
            ||| lies_nowhere(blk.mmap_regions, used)
            ||| lies_nowhere(blk.mmap_regions, available)
            ||| !blk.vrings.contains_key(index as usize)
            ||| exists|i: int, mapping: VringMmapRegion, part: u64|
                #[trigger] keeps_its_offset(blk.mmap_regions, i, used, mapping, part)
                    && !memory::reachable(layout.regions, part + 2, 2)
        }),
{
    lemma_offset(blk.mmap_regions, descriptor);
    lemma_offset(blk.mmap_regions, used);
    lemma_offset(blk.mmap_regions, available);
}

/// Whether no region goes from its first address to just past its end around `addr`.
pub open spec fn lies_nowhere(regions: Seq<VhostMmapRegion>, addr: u64) -> bool {
    forall|i: int|
        0 <= i < regions.len() ==> !((#[trigger] regions[i]).qemu_virt_addr <= addr
            <= regions[i].qemu_virt_addr + regions[i].memory_size)
}

/// The device can be owned once, and again only after its owner was taken away, which
/// also forgets what was acknowledged.
pub proof fn law_one_owner_at_a_time<S: StorageBackend>(
    blk: BlkState<S>,
    owned: BlkState<S>,
    first: Result<(), Error>,
    again: BlkState<S>,
    second: Result<(), Error>,
    free: BlkState<S>,
    reset: Result<(), Error>,
    last: BlkState<S>,
    third: Result<(), Error>,
)
    requires
        blk.owner_set(owned, first),
        owned.owner_set(again, second),
        again.owner_reset(free, reset),
        free.owner_set(last, third),
    ensures
        first.is_ok() == !blk.owned,
        owned.owned,
        owned == (BlkState { owned: true, ..blk }),
        second == Err::<(), Error>(Error::InvalidOperation),
        again == owned,
        reset.is_ok(),
        !free.owned && !free.features_acked,
        free.acked_features == 0 && free.acked_protocol_features == 0,
        free.vrings == blk.vrings && free.mmap_regions == blk.mmap_regions,
        free.vring_default_enabled == blk.vring_default_enabled,
        third.is_ok(),
        last.owned,
{
}

/// Features are acknowledged exactly by an owner and without the bit for protocol
/// features, the one with value two to the power thirty. Then they are kept as given,
/// and every ring, present or later, is enabled; nothing else of a ring changes.
pub proof fn law_features_enable_every_ring<S: StorageBackend>(
    blk: BlkState<S>,
    features: u64,
    next: BlkState<S>,
    outcome: Result<(), Error>,
)
    requires
        blk.features_set(features, next, outcome),
    ensures
        outcome.is_ok() <==> blk.owned && features as int / 0x4000_0000 % 2 == 0,
        !blk.owned ==> outcome == Err::<(), Error>(Error::InvalidOperation),
        blk.owned && outcome.is_err() ==> outcome == Err::<(), Error>(Error::InvalidParam),
        outcome.is_err() ==> next == blk,
        outcome.is_ok() ==> {
            &&& next.acked_features == features
            &&& next.features_acked
            &&& next.vring_default_enabled
            &&& next.vrings.dom() == blk.vrings.dom()
            &&& next == (BlkState {
                acked_features: next.acked_features,
                features_acked: next.features_acked,
                vring_default_enabled: next.vring_default_enabled,
                vrings: next.vrings,
                ..blk
            })
            &&& forall|index: usize| #[trigger]
                blk.vrings.contains_key(index) ==> {
                    &&& next.vrings[index].state.enabled
                    &&& next.vrings[index].state == (VringState {
                        enabled: true,
                        ..blk.vrings[index].state
                    })
                    &&& next.vrings[index].disk == blk.vrings[index].disk
                }
        },
{
    assert((features & 0x4000_0000 == 0) == (features / 0x4000_0000 % 2 == 0)) by (bit_vector);
    assert(outcome.is_ok() ==> next.vrings.dom() =~= blk.vrings.dom());
}

/// Acknowledged protocol features are kept as given, and nothing else changes.
pub proof fn law_protocol_features_are_kept<S: StorageBackend>(
    blk: BlkState<S>,
    features: u64,
    next: BlkState<S>,
    outcome: Result<(), Error>,
)
    requires
        blk.protocol_features_set(features, next, outcome),
    ensures
        outcome.is_ok(),
        next.acked_protocol_features == features,
        next == (BlkState { acked_protocol_features: next.acked_protocol_features, ..blk }),
{
}

/// A ring gets every size below 65536, and no other. A ring that was there keeps all but
/// its size and whether it is enabled; a new one starts from nothing with a clone of the
/// disk. Other rings stay.
pub proof fn law_size_is_kept<S: StorageBackend + Clone>(
    blk: BlkState<S>,
    index: u32,
    num: u32,
    next: BlkState<S>,
    outcome: Result<(), Error>,
    other: usize,
)
    requires
        blk.num_set(index, num, next, outcome),
    ensures
        outcome.is_ok() <==> num < 0x1_0000,
        outcome.is_err() ==> next == blk && outcome == Err::<(), Error>(Error::InvalidParam),
        outcome.is_ok() ==> {
            let ring = next.vrings[index as usize];
            &&& next.vrings.contains_key(index as usize)
            &&& ring.state.size == num
            &&& ring.state.enabled == blk.vring_default_enabled
            &&& blk.vrings.contains_key(index as usize) ==> ring.state == (VringState {
                size: ring.state.size,
                enabled: ring.state.enabled,
                ..blk.vrings[index as usize].state
            }) && ring.disk == blk.vrings[index as usize].disk
            &&& !blk.vrings.contains_key(index as usize) ==> {
                &&& cloned(blk.backend, ring.disk)
                &&& ring.state.mem_table.is_none()
                &&& ring.state.last_avail_idx == 0
                &&& ring.state.shadow_avail_idx == 0
                &&& ring.state.next_used == 0
                &&& ring.state.kick_fd.is_none()
                &&& ring.state.call_fd.is_none()
                &&& ring.state.err_fd.is_none()
                &&& !ring.state.started
            }
            &&& other != index ==> next.vrings.contains_key(other) == blk.vrings.contains_key(other)
            &&& other != index && blk.vrings.contains_key(other) ==> next.vrings[other]
                == blk.vrings[other]
            &&& next == (BlkState { vrings: next.vrings, ..blk })
        },
{
}

/// The base index that was set is the one that is told when the ring is stopped, which
/// is also told to the thread that serves the rings. A base of 65536 or more, or a ring
/// that is not there, is refused. Nothing but the ring's indices and its being started
/// changes.
pub proof fn law_base_index_comes_back<S: StorageBackend>(
    blk: BlkState<S>,
    index: u32,
    base: u32,
    next: BlkState<S>,
    set: Result<(), Error>,
    last: BlkState<S>,
    told: Result<(VringBase, VubMessage), Error>,
)
    requires
        blk.base_set(index, base, next, set),
        next.base_told(index, last, told),
    ensures
        set.is_ok() <==> base < 0x1_0000 && blk.vrings.contains_key(index as usize),
        set matches Err(error) ==> error == Error::InvalidParam && next == blk,
        told.is_ok() <==> next.vrings.contains_key(index as usize),
        told matches Err(error) ==> error == Error::InvalidParam && last == next,
        told matches Ok((place, message)) ==> {
            &&& place.index == index
            &&& place.num == next.vrings[index as usize].state.last_avail_idx
            &&& set.is_ok() ==> place.num == base
            &&& message matches VubMessage::DisableVring(stopped)
            &&& stopped.index == index
            &&& last.vrings[index as usize].state == (VringState {
                started: false,
                ..next.vrings[index as usize].state
            })
        },
        set.is_ok() ==> {
            let state = next.vrings[index as usize].state;
            &&& state.last_avail_idx == base
            &&& state.shadow_avail_idx == base
            &&& state == (VringState {
                last_avail_idx: state.last_avail_idx,
                shadow_avail_idx: state.shadow_avail_idx,
                ..blk.vrings[index as usize].state
            })
            &&& next.vrings[index as usize].disk == blk.vrings[index as usize].disk
        },
        next.mmap_regions == blk.mmap_regions && next.owned == blk.owned,
        next.acked_features == blk.acked_features,
{
}

/// A kick file descriptor is the one that the next one replaces, and so has to be closed
/// then. If the ring is enabled, and only then, its thread is told the new one.
pub proof fn law_kick_is_replaced<S: StorageBackend>(
    blk: BlkState<S>,
    index: u8,
    fd: Option<i32>,
    next: BlkState<S>,
    set: Result<KickChange, Error>,
    other: Option<i32>,
    last: BlkState<S>,
    again: Result<KickChange, Error>,
)
    requires
        blk.kick_set(index, fd, next, set),
        next.kick_set(index, other, last, again),
        other.is_some(),
    ensures
        set.is_ok() <==> blk.vrings.contains_key(index as usize),
        set matches Err(error) ==> error == Error::InvalidParam && next == blk,
        again matches Ok(change) ==> {
            let state = blk.vrings[index as usize].state;
            &&& change.close == fd
            &&& change.message.is_some() == state.enabled
            &&& change.message matches Some(message) ==> {
                &&& message matches VubMessage::EnableVring(start)
                &&& start.index == index
                &&& Some(start.fd) == other
            }
            &&& last.vrings[index as usize].state == (VringState { kick_fd: other, ..state })
            &&& last.vrings[index as usize].disk == blk.vrings[index as usize].disk
        },
{
}

/// Call and error file descriptors are each the one that the next of its kind replaces.
pub proof fn law_call_and_error_are_replaced<S: StorageBackend>(
    blk: BlkState<S>,
    index: u8,
    call: Option<i32>,
    called: BlkState<S>,
    first: Result<Option<i32>, Error>,
    err: Option<i32>,
    erred: BlkState<S>,
    second: Result<Option<i32>, Error>,
    last: BlkState<S>,
    replaced: Result<Option<i32>, Error>,
    end: BlkState<S>,
    also: Result<Option<i32>, Error>,
)
    requires
        blk.call_set(index, call, called, first),
        called.err_set(index, err, erred, second),
        erred.call_set(index, None, last, replaced),
        last.err_set(index, None, end, also),
    ensures
        first.is_ok() <==> blk.vrings.contains_key(index as usize),
        first matches Err(error) ==> error == Error::InvalidParam && called == blk,
        second matches Err(error) ==> error == Error::InvalidParam && erred == called,
        first matches Ok(close) ==> {
            let state = blk.vrings[index as usize].state;
            &&& close == state.call_fd
            &&& second == Ok::<Option<i32>, Error>(state.err_fd)
            &&& replaced == Ok::<Option<i32>, Error>(call)
            &&& also == Ok::<Option<i32>, Error>(err)
            &&& erred.vrings[index as usize].state == (VringState {
                call_fd: call,
                err_fd: err,
                ..state
            })
            &&& erred.vrings[index as usize].disk == blk.vrings[index as usize].disk
        },
{
}

/// A ring is enabled or disabled as asked exactly if it is there and the bit for protocol
/// features was acknowledged.
pub proof fn law_enabling_needs_the_bit<S: StorageBackend>(
    blk: BlkState<S>,
    index: u32,
    enable: bool,
    next: BlkState<S>,
    outcome: Result<(), Error>,
)
    requires
        blk.enable_set(index, enable, next, outcome),
    ensures
        blk.acked_features as int / 0x4000_0000 % 2 == 0 ==> outcome == Err::<(), Error>(
            Error::InvalidOperation,
        ),
        blk.acked_features as int / 0x4000_0000 % 2 == 1 ==> {
            &&& outcome.is_ok() <==> blk.vrings.contains_key(index as usize)
            &&& outcome matches Err(error) ==> error == Error::InvalidParam
        },
        outcome.is_err() ==> next == blk,
        outcome.is_ok() ==> next.vrings[index as usize].state == (VringState {
            enabled: enable,
            ..blk.vrings[index as usize].state
        }) && next.vrings[index as usize].disk == blk.vrings[index as usize].disk,
{
    let features = blk.acked_features;
    assert((features & 0x4000_0000 == 0) == (features / 0x4000_0000 % 2 == 0)) by (bit_vector);
}

/// Setting where a ring lies keeps the places as given, reads the used ring's index two
/// bytes into it, and goes on returning there. It is refused, and changes nothing, only
/// where that index cannot be read.
pub proof fn law_table_is_kept(
    state: VringState,
    layout: Layout,
    before: Seq<Access>,
    after: Seq<Access>,
    table: VringMemTable,
    next: VringState,
    outcome: Result<(), Error>,
)
    requires
        state.table_set(layout, before, after, table, next, outcome),
    ensures
        outcome.is_ok() <==> memory::reachable(layout.regions, table.used_addr + 2, 2),
        outcome matches Err(error) ==> error == Error::InvalidParam && next == state && after
            == before,
        outcome.is_ok() ==> {
            &&& next.mem_table == Some(table)
            &&& after.len() == before.len() + 1
            &&& after.drop_last() == before
            &&& after.last() is Load
            &&& after.last()->Load_addr == table.used_addr + 2
            &&& after.last()->Load_bytes.len() == 2
            &&& next.next_used == number::value(layout.order, after.last()->Load_bytes)
            &&& next == (VringState {
                mem_table: next.mem_table,
                next_used: next.next_used,
                ..state
            })
        },
{
    if outcome.is_ok() {
        assert(after.drop_last() =~= before);
        number::lemma_byte_spans();
        number::lemma_value_bound(layout.order, after.last()->Load_bytes);
    }
}

/// A file descriptor that was set is there, and the two other kinds are as before.
pub proof fn law_fds_are_apart(state: VringState, fd: Option<i32>)
    ensures
        state.with_fd(fd, VringFd::Kick) == (VringState { kick_fd: fd, ..state }),
        state.with_fd(fd, VringFd::Call) == (VringState { call_fd: fd, ..state }),
        state.with_fd(fd, VringFd::Error) == (VringState { err_fd: fd, ..state }),
        state.fd(VringFd::Kick) == state.kick_fd,
        state.fd(VringFd::Call) == state.call_fd,
        state.fd(VringFd::Error) == state.err_fd,
{
}

/// Setting the regions fails exactly if one of them could not be mapped. What is kept are
/// the regions before that one, each with its own mapping, and nothing else changes.
pub proof fn law_regions_are_replaced<S: StorageBackend>(
    blk: BlkState<S>,
    regions: Seq<MemoryRegion>,
    mapped: Seq<Option<u64>>,
    next: BlkState<S>,
    outcome: Result<(), Error>,
    i: int,
)
    requires
        blk.regions_set(regions, mapped, next, outcome),
    ensures
        next == (BlkState { mmap_regions: next.mmap_regions, ..blk }),
        outcome.is_ok() <==> next.mmap_regions.len() == regions.len(),
        outcome matches Err(error) ==> error == Error::OperationFailedInSlave,
        next.mmap_regions.len() <= regions.len(),
        outcome.is_err() ==> {
            let n = next.mmap_regions.len() as int;
            n >= mapped.len() || mapped[n].is_none()
        },
        0 <= i < next.mmap_regions.len() ==> {
            &&& i < mapped.len()
            &&& Some(next.mmap_regions[i].mmap_addr) == mapped[i]
            &&& next.mmap_regions[i].guest_phys_addr == regions[i].guest_phys_addr
            &&& next.mmap_regions[i].memory_size == regions[i].memory_size
            &&& next.mmap_regions[i].qemu_virt_addr == regions[i].userspace_addr
        },
{
    law_regions_are_mapped_in_order(regions, mapped);
    assert(0 <= i < next.mmap_regions.len() ==> mapped[i] == Some(
        next.mmap_regions[i].mmap_addr,
    ));
}

/// The configuration space is told exactly to those who ask for its sixty bytes, and
/// holds the configuration of the disk.
pub proof fn law_config_is_told_in_full<S: StorageBackend>(
    blk: BlkState<S>,
    len: int,
    outcome: Result<Seq<u8>, Error>,
)
    requires
        blk.config_told(len, outcome),
    ensures
        outcome.is_ok() <==> len == 60,
        outcome matches Err(error) ==> error == Error::InvalidParam,
        outcome matches Ok(bytes) ==> {
            &&& bytes.len() == 60
            &&& number::value(blk.order, bytes.subrange(0, 8)) == blk.backend.config().capacity
            &&& number::value(blk.order, bytes.subrange(8, 12)) == blk.backend.config().size_max
            &&& number::value(blk.order, bytes.subrange(12, 16)) == blk.backend.config().seg_max
            &&& number::value(blk.order, bytes.subrange(20, 24)) == blk.backend.config().blk_size
            &&& number::value(blk.order, bytes.subrange(34, 36))
                == blk.backend.config().num_queues
            &&& bytes == blk.backend.config().bytes(blk.order)
        },
{
    law_config_holds_every_field(blk.backend.config(), blk.order);
}

/// A new configuration space is accepted exactly if the tenth bit of the features was
/// acknowledged, it has sixty bytes, and its offset is not beyond those.
pub proof fn law_config_is_accepted_by_the_bit<S: StorageBackend>(
    blk: BlkState<S>,
    len: int,
    offset: u32,
)
    ensures
        blk.config_accepted(len, offset).is_ok() <==> blk.acked_features as int / 0x200 % 2 == 1
            && len == 60 && offset <= 60,
        blk.config_accepted(len, offset) == Err::<(), Error>(Error::InvalidOperation)
            <==> blk.acked_features as int / 0x200 % 2 == 0,
        blk.config_accepted(len, offset) matches Err(error) ==> error == Error::InvalidOperation
            || error == Error::InvalidParam,
{
    let features = blk.acked_features;
    assert((features & 0x200 == 0) == (features / 0x200 % 2 == 0)) by (bit_vector);
}

} // verus!
