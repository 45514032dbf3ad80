//! What holds of virtqueues across several calls.
use crate::memory;
use crate::memory::{Access, Layout};
use crate::number;
use crate::queue;
use crate::queue::{AvailIter, Descriptor, DescriptorChain, Queue};
use vstd::prelude::*;

verus! {

/// Whether `next` can be what `next_descriptor` gives for `chain`.
pub open spec fn follows(chain: DescriptorChain, next: DescriptorChain) -> bool {
    &&& chain.continues()
    &&& exists|layout: Layout, before: Seq<Access>, after: Seq<Access>|
        #[trigger] DescriptorChain::fetched(
            layout,
            before,
            after,
            chain.desc_table,
            chain.queue_size,
            chain.next,
            (chain.ttl - 1) as u16,
            Some(next),
        )
}

/// Walking a chain from its head, whatever the driver writes meanwhile, visits
/// at most as many descriptors as the table has: even a chain that the driver
/// closed into a cycle comes to an end.
pub proof fn law_chain_is_bounded(walk: Seq<DescriptorChain>)
    requires
        walk.len() > 0,
        0 < walk[0].ttl == walk[0].queue_size,
        forall|i: int| 0 <= i < walk.len() - 1 ==> follows(#[trigger] walk[i], walk[i + 1]),
    ensures
        walk.len() <= walk[0].queue_size,
{
    lemma_walk(walk, walk.len() - 1);
}

/// Each step of a walk uses up one of the descriptors to go.
proof fn lemma_walk(walk: Seq<DescriptorChain>, n: int)
    requires
        0 <= n < walk.len(),
        forall|i: int| 0 <= i < walk.len() - 1 ==> follows(#[trigger] walk[i], walk[i + 1]),
        walk[0].ttl > 0,
    ensures
        walk[n].ttl == walk[0].ttl - n,
        walk[n].ttl > 0,
    decreases n,
{
    if n > 0 {
        lemma_walk(walk, n - 1);
        assert(follows(walk[n - 1], walk[n]));
    }
}

/// Every chain that is handed out, as a head or as a later descriptor, has its
/// index in the table, stays inside guest memory, and names a next descriptor
/// in the table if it has one.
pub proof fn law_chains_are_valid(
    layout: Layout,
    before: Seq<Access>,
    after: Seq<Access>,
    desc_table: u64,
    queue_size: u16,
    index: u16,
    ttl: u16,
    chain: DescriptorChain,
)
    requires
        DescriptorChain::fetched(
            layout,
            before,
            after,
            desc_table,
            queue_size,
            index,
            ttl,
            Some(chain),
        ),
        ttl <= queue_size,
    ensures
        chain.index == index < queue_size == chain.queue_size,
        chain.valid(layout),
{
}

/// Every step of the iterator uses up one of the heads that are left, and with
/// none left nothing is given and nothing is read.
pub proof fn law_iterator_ends(
    iter: AvailIter<'_>,
    next: AvailIter<'_>,
    layout: Layout,
    before: Seq<Access>,
    after: Seq<Access>,
    head: Option<DescriptorChain>,
)
    requires
        iter.stepped(next, layout, before, after, head),
    ensures
        iter.pending() > 0 ==> next.pending() == iter.pending() - 1,
        iter.pending() == 0 ==> next.pending() == 0 && head.is_none() && after == before,
{
}

/// While every head is a valid chain, the queue's position is the iterator's, and
/// with none left both are at the driver's index.
pub proof fn law_position_follows_iterator(
    iter: AvailIter<'_>,
    next: AvailIter<'_>,
    layout: Layout,
    before: Seq<Access>,
    after: Seq<Access>,
    head: DescriptorChain,
    position: u16,
)
    requires
        iter.stepped(next, layout, before, after, Some(head)),
        position == iter.next_index,
    ensures
        queue::wrap16(position + 1) == next.next_index,
        next.pending() == 0 ==> queue::wrap16(position + 1) == next.last_index,
{
}

/// Whether `iters` are the states of an iterator, one step after the other: step
/// `i` gives `heads[i]`, leads from the record `logs[i]` to the next one, and moves
/// the queue's position from `positions[i]` on if it gives a head.
pub open spec fn walks(
    layout: Layout,
    iters: Seq<AvailIter<'_>>,
    logs: Seq<Seq<Access>>,
    heads: Seq<Option<DescriptorChain>>,
    positions: Seq<u16>,
) -> bool {
    &&& iters.len() == heads.len() + 1
    &&& logs.len() == heads.len() + 1
    &&& positions.len() == heads.len() + 1
    &&& forall|i: int|
        0 <= i < heads.len() ==> {
            &&& iters[i].stepped(iters[i + 1], layout, logs[i], logs[i + 1], #[trigger] heads[i])
            &&& positions[i + 1] == if heads[i].is_some() {
                queue::wrap16(positions[i] + 1)
            } else {
                positions[i]
            }
        }
}

/// A full pass of an iterator takes every head that the driver has offered, one
/// after the other in the order of the available ring, and then has none left.
/// If all of them are valid chains, it leaves the queue's position at the driver's
/// index.
pub proof fn law_full_pass_takes_every_head(
    layout: Layout,
    iters: Seq<AvailIter<'_>>,
    logs: Seq<Seq<Access>>,
    heads: Seq<Option<DescriptorChain>>,
    positions: Seq<u16>,
)
    requires
        walks(layout, iters, logs, heads, positions),
        heads.len() == iters[0].pending(),
        positions[0] == iters[0].next_index,
    ensures
        forall|i: int|
            0 <= i < heads.len() ==> {
                &&& (#[trigger] iters[i]).next_index == queue::wrap16(iters[0].next_index + i)
                &&& iters[i].took(layout, logs[i], logs[i + 1], heads[i])
            },
        iters.last().pending() == 0,
        (forall|i: int| 0 <= i < heads.len() ==> (#[trigger] heads[i]).is_some())
            ==> positions.last() == iters[0].last_index,
{
    assert forall|i: int| 0 <= i < heads.len() implies {
        &&& (#[trigger] iters[i]).next_index == queue::wrap16(iters[0].next_index + i)
        &&& iters[i].took(layout, logs[i], logs[i + 1], heads[i])
    } by {
        lemma_pass(layout, iters, logs, heads, positions, i);
        let head = heads[i];
        assert(iters[i].stepped(iters[i + 1], layout, logs[i], logs[i + 1], head));
    }
    lemma_pass(layout, iters, logs, heads, positions, heads.len() as int);
}

/// How far an iterator is after `n` steps.
proof fn lemma_pass(
    layout: Layout,
    iters: Seq<AvailIter<'_>>,
    logs: Seq<Seq<Access>>,
    heads: Seq<Option<DescriptorChain>>,
    positions: Seq<u16>,
    n: int,
)
    requires
        walks(layout, iters, logs, heads, positions),
        0 <= n <= heads.len() == iters[0].pending(),
        positions[0] == iters[0].next_index,
    ensures
        iters[n].next_index == queue::wrap16(iters[0].next_index + n),
        iters[n].last_index == iters[0].last_index,
        iters[n].pending() == iters[0].pending() - n,
        (forall|i: int| 0 <= i < heads.len() ==> (#[trigger] heads[i]).is_some())
            ==> positions[n] == iters[n].next_index,
    decreases n,
{
    if n > 0 {
        lemma_pass(layout, iters, logs, heads, positions, n - 1);
        let head = heads[n - 1];
        assert(iters[n - 1].stepped(iters[n], layout, logs[n - 1], logs[n], head));
    }
}

/// Whether loads of the same bytes gave the same in `first` and in `second`.
pub open spec fn agree(first: Seq<Access>, second: Seq<Access>) -> bool {
    forall|i: int, j: int|
        0 <= i < first.len() && 0 <= j < second.len() ==> (
        #[trigger] first[i] matches Access::Load { addr: a, bytes: x } ==> (
        #[trigger] second[j] matches Access::Load { addr: b, bytes: y } ==> a == b && x.len()
            == y.len() ==> x == y))
}

/// Once the queue went back one position, the next head is the one that was taken
/// before, unless the driver wrote to it in between.
pub proof fn law_going_back_repeats_the_head(
    queue: Queue,
    layout: Layout,
    iter: AvailIter<'_>,
    next: AvailIter<'_>,
    before: Seq<Access>,
    after: Seq<Access>,
    head: DescriptorChain,
    taken: Queue,
    back: Queue,
    again: AvailIter<'_>,
    last: AvailIter<'_>,
    from: Seq<Access>,
    to: Seq<Access>,
    repeated: Option<DescriptorChain>,
)
    requires
        iter.next_index == queue.next_avail,
        iter.stepped(next, layout, before, after, Some(head)),
        taken == (Queue { next_avail: queue::wrap16(queue.next_avail + 1), ..queue }),
        back == taken.one_back(),
        again.next_index == back.next_avail,
        again.desc_table == iter.desc_table,
        again.avail_ring == iter.avail_ring,
        again.queue_size == iter.queue_size,
        again.pending() > 0,
        again.stepped(last, layout, from, to, repeated),
        agree(after.skip(before.len() as int), to.skip(from.len() as int)),
    ensures
        repeated == Some(head),
{
    law_go_back_undoes_next(queue, taken, back);
    let first = after.skip(before.len() as int);
    let second = to.skip(from.len() as int);
    let mid = after.take(before.len() as int + 1);
    let mid2 = to.take(from.len() as int + 1);
    assert(first[0] == mid.last());
    assert(second[0] == mid2.last());
    assert(queue::loaded(mid) == queue::loaded(mid2));
    assert(after.len() == before.len() + 2);
    assert(to.len() == from.len() + 2);
    assert(first[1] == after.last());
    assert(second[1] == to.last());
    assert(queue::loaded(after) == queue::loaded(to));
}

/// Going back one position undoes what taking one head did to the queue.
pub proof fn law_go_back_undoes_next(queue: Queue, taken: Queue, back: Queue)
    requires
        taken == (Queue { next_avail: queue::wrap16(queue.next_avail + 1), ..queue }),
        back == taken.one_back(),
    ensures
        back == queue,
{
}

/// Reading the driver's index gives back what was written to it last, if the
/// driver did not write to it in between. It lies two bytes into the available ring
/// and is two bytes wide.
pub proof fn law_last_index_reads_back(
    queue: Queue,
    layout: Layout,
    value: u16,
    before: Seq<Access>,
    written: Seq<Access>,
    after: Seq<Access>,
    read: u16,
)
    requires
        queue.avail_ring + 2 <= u64::MAX,
        queue.index_written(layout, before, written, value),
        queue.index_read(layout, written, after, read),
        memory::undisturbed(after),
    ensures
        read == value,
        written.len() == before.len() + 1,
        written.last() is Store,
        written.last()->Store_addr == queue.avail_ring + 2,
        written.last()->Store_bytes.len() == 2,
        number::value(layout.order, written.last()->Store_bytes) == value,
        after.len() == before.len() + 2,
        after.last() is Load,
        after.last()->Load_addr == queue.avail_ring + 2,
        after.last()->Load_bytes.len() == 2,
        read == number::value(layout.order, after.last()->Load_bytes),
{
    let bytes = number::encoded(layout.order, value as nat, 2);
    let n = after.len() - 1;
    number::lemma_encoded_len(layout.order, value as nat, 2);
    number::lemma_byte_spans();
    number::law_decode_undoes_encode(layout.order, value as nat, 2);
    assert(after[n - 1] == (Access::Store { addr: (queue.avail_ring + 2) as u64, bytes }));
    assert forall|k: int| 0 <= k < 2 implies queue::loaded(after)[k] == bytes[k] by {
        assert(memory::stored_byte(after, n, (queue.avail_ring + 2) + k) == Some(bytes[k]));
    }
    assert(queue::loaded(after) =~= bytes);
}

/// Whether the region that holds `start` also holds the address `size` bytes
/// further.
pub open spec fn in_one_region(layout: Layout, start: u64, size: int) -> bool {
    memory::region_at(layout.regions, start as int) matches Some(region) && memory::apart(
        layout.regions,
        region,
    ) && memory::holds(region, start + size)
}

/// Whether each ring lies in one region.
pub open spec fn rings_in_one_region(queue: Queue, layout: Layout) -> bool {
    &&& in_one_region(layout, queue.desc_table, 16 * queue.size)
    &&& in_one_region(layout, queue.avail_ring, 6 + 2 * queue.size)
    &&& in_one_region(layout, queue.used_ring, 6 + 8 * queue.size)
}

/// A valid queue each of whose rings lies in one region can be worked on: the
/// driver's index, the used elements and the used index can be accessed.
pub proof fn law_valid_queue_is_mapped(queue: Queue, layout: Layout)
    requires
        queue.valid(layout),
        rings_in_one_region(queue, layout),
    ensures
        queue.avail_index_mapped(layout),
        queue.used_mapped(layout),
{
    memory::lemma_same_region(layout.regions, queue.used_ring as int, queue.used_elem());
    memory::lemma_same_region(layout.regions, queue.used_ring as int, queue.used_ring + 2);
}

/// An iterator over such a queue can read every head, unless the queue is so
/// large that an entry's offset exceeds the width of a ring index.
pub proof fn law_valid_queue_is_readable(
    queue: Queue,
    iter: AvailIter<'_>,
    layout: Layout,
)
    requires
        queue.valid(layout),
        rings_in_one_region(queue, layout),
        queue.size <= 0x4000,
        iter.desc_table == queue.desc_table,
        iter.avail_ring == queue.avail_ring,
        iter.queue_size == queue.ring_size(),
    ensures
        iter.readable(layout),
{
}

/// After `add_used` the driver finds the head, its length and the new index in
/// the used ring.
pub proof fn law_used_element_is_published(
    queue: Queue,
    layout: Layout,
    before: Seq<Access>,
    desc_index: u16,
    len: u32,
)
    requires
        queue.ring_size() > 0,
        queue.used_elem() + 8 <= u64::MAX,
    ensures
        ({
            let log = before + queue.used_accesses(layout.order, desc_index, len);
            let n = log.len() as int;
            &&& memory::stored(
                log,
                n,
                queue.used_elem(),
                number::encoded(layout.order, desc_index as nat, 4),
            )
            &&& memory::stored(
                log,
                n,
                queue.used_elem() + 4,
                number::encoded(layout.order, len as nat, 4),
            )
            &&& memory::stored(
                log,
                n,
                queue.used_ring + 2,
                number::encoded(layout.order, queue::wrap16(queue.next_used + 1) as nat, 2),
            )
        }),
{
    reveal_with_fuel(memory::stored_byte, 5);
    number::lemma_encoded_len(layout.order, desc_index as nat, 4);
    number::lemma_encoded_len(layout.order, len as nat, 4);
    number::lemma_encoded_len(layout.order, queue::wrap16(queue.next_used + 1) as nat, 2);
}

/// The elements of one lap around a used ring whose size is offered and a power of
/// two lie in different places, each inside the ring.
pub proof fn law_used_elements_do_not_collide(queue: Queue, later: Queue, distance: int)
    requires
        0 < queue.size <= queue.max_size,
        queue::power_of_two(queue.size),
        0 < distance < queue.size,
        later == (Queue { next_used: queue::wrap16(queue.next_used + distance), ..queue }),
    ensures
        later.used_elem() + 8 <= queue.used_elem() || queue.used_elem() + 8 <= later.used_elem(),
        queue.used_ring + 4 <= later.used_elem(),
        later.used_elem() + 8 <= queue.used_ring + 4 + 8 * queue.size,
{
    let size = queue.size as int;
    let sum = queue.next_used + distance;
    lemma_size_divides_index_range(queue.size);
    let laps = 0x1_0000int / size;
    vstd::arithmetic::div_mod::lemma_fundamental_div_mod(0x1_0000, size);
    assert(laps > 0) by (nonlinear_arith)
        requires
            size > 0,
            size * laps == 0x1_0000,
    ;
    vstd::arithmetic::div_mod::lemma_mod_mod(sum, size, laps);
    assert(sum % 0x1_0000 % size == sum % size);
    if sum % size == queue.next_used as int % size {
        vstd::arithmetic::div_mod::lemma_sub_mod_noop(sum, queue.next_used as int, size);
        vstd::arithmetic::div_mod::lemma_small_mod(0, size as nat);
        vstd::arithmetic::div_mod::lemma_small_mod(distance as nat, size as nat);
        assert(false);
    }
}

/// The size of a valid queue divides the range of a ring index, so the index
/// may wrap around.
proof fn lemma_size_divides_index_range(size: u16)
    requires
        size > 0,
        queue::power_of_two(size),
    ensures
        0x1_0000int % size as int == 0,
{
    let k = choose|k: nat| #[trigger] vstd::arithmetic::power2::pow2(k) == size;
    vstd::arithmetic::power2::lemma2_to64();
    if k >= 16 {
        if k > 16 {
            vstd::arithmetic::power2::lemma_pow2_strictly_increases(16, k);
        }
        assert(false);
    }
    vstd::arithmetic::power2::lemma_pow2_adds((16 - k) as nat, k);
    vstd::arithmetic::div_mod::lemma_mod_multiples_basic(
        vstd::arithmetic::power2::pow2((16 - k) as nat) as int,
        size as int,
    );
}

/// Every chain that is handed out carries just what the driver wrote: its fields are the
/// numbers in the sixteen bytes that were read at its index's place in the table.
pub proof fn law_chain_carries_what_was_written(
    layout: Layout,
    before: Seq<Access>,
    after: Seq<Access>,
    desc_table: u64,
    queue_size: u16,
    index: u16,
    ttl: u16,
    chain: DescriptorChain,
)
    requires
        DescriptorChain::fetched(
            layout,
            before,
            after,
            desc_table,
            queue_size,
            index,
            ttl,
            Some(chain),
        ),
    ensures
        after.len() == before.len() + 1,
        after.drop_last() == before,
        after.last() is Load,
        index < queue_size,
        memory::region_at(layout.regions, desc_table as int) matches Some(region) && desc_table
            + 16 * index + 16 < region.0 + region.1,
        after.last()->Load_addr == desc_table + 16 * index,
        after.last()->Load_bytes.len() == 16,
        ({
            let bytes = after.last()->Load_bytes;
            &&& chain.addr == number::value(layout.order, bytes.subrange(0, 8))
            &&& chain.len == number::value(layout.order, bytes.subrange(8, 12))
            &&& chain.flags == number::value(layout.order, bytes.subrange(12, 14))
            &&& chain.next == number::value(layout.order, bytes.subrange(14, 16))
            &&& chain.desc_table == desc_table
            &&& chain.queue_size == queue_size
            &&& chain.index == index
            &&& chain.ttl == ttl
        }),
{
    assert(after.drop_last() =~= before);
    lemma_descriptor_bytes(layout, after.last()->Load_bytes);
}

/// The fields of a descriptor are the numbers in its bytes.
proof fn lemma_descriptor_bytes(layout: Layout, bytes: Seq<u8>)
    requires
        bytes.len() == 16,
    ensures
        ({
            let desc = Descriptor::of(layout.order, bytes);
            &&& desc.addr == number::value(layout.order, bytes.subrange(0, 8))
            &&& desc.len == number::value(layout.order, bytes.subrange(8, 12))
            &&& desc.flags == number::value(layout.order, bytes.subrange(12, 14))
            &&& desc.next == number::value(layout.order, bytes.subrange(14, 16))
        }),
{
    number::lemma_byte_spans();
    number::lemma_value_bound(layout.order, bytes.subrange(0, 8));
    number::lemma_value_bound(layout.order, bytes.subrange(8, 12));
    number::lemma_value_bound(layout.order, bytes.subrange(12, 14));
    number::lemma_value_bound(layout.order, bytes.subrange(14, 16));
}

/// A descriptor is handed out unless its index is not in the table, the table's region
/// ends with it, its buffer ends outside memory, or it goes on at an index that is not
/// in the table. A chain of one descriptor does not go on.
pub proof fn law_chain_is_refused_for_a_reason(
    layout: Layout,
    before: Seq<Access>,
    after: Seq<Access>,
    desc_table: u64,
    queue_size: u16,
    index: u16,
    ttl: u16,
)
    requires
        DescriptorChain::fetched(
            layout,
            before,
            after,
            desc_table,
            queue_size,
            index,
            ttl,
            None,
        ),
    ensures
        ({
            let bytes = after.last()->Load_bytes;
            let addr = number::value(layout.order, bytes.subrange(0, 8));
            let len = number::value(layout.order, bytes.subrange(8, 12));
            let flags = number::value(layout.order, bytes.subrange(12, 14));
            let next = number::value(layout.order, bytes.subrange(14, 16));
            ||| index >= queue_size && after == before
            ||| after == before && (memory::region_at(
                layout.regions,
                desc_table as int,
            ) matches Some(region) ==> desc_table + 16 * index + 16 >= region.0 + region.1)
            ||| addr + len > u64::MAX
            ||| memory::region_at(layout.regions, (addr + len) as int).is_none()
            ||| flags % 2 == 1 && queue_size > 1 && next >= queue_size
        }),
{
    if index < queue_size && queue::slot_inside(layout, desc_table, index as int) {
        let bytes = after.last()->Load_bytes;
        lemma_descriptor_bytes(layout, bytes);
        let flags = Descriptor::of(layout.order, bytes).flags;
        assert((flags & 1 != 0) == (flags % 2 == 1)) by (bit_vector);
    }
}

/// A chain goes on exactly if the lowest bit of its flags is set and it has a descriptor
/// to go. What is handed out ends in memory, and goes on inside the table.
pub proof fn law_valid_chain_ends_in_memory(chain: DescriptorChain, layout: Layout)
    ensures
        chain.continues() <==> chain.flags % 2 == 1 && chain.ttl > 1,
        chain.valid(layout) <==> {
            &&& chain.addr + chain.len <= u64::MAX
            &&& memory::region_at(layout.regions, chain.addr + chain.len).is_some()
            &&& chain.flags % 2 == 1 && chain.ttl > 1 ==> chain.next < chain.queue_size
        },
{
    let flags = chain.flags;
    assert((flags & 1 != 0) == (flags % 2 == 1)) by (bit_vector);
}

/// The flag of a buffer that the device writes is the second lowest bit.
pub proof fn law_write_flag_is_the_second_bit(flags: u16)
    ensures
        (flags & queue::VIRTQ_DESC_F_WRITE != 0) == (flags / 2 % 2 == 1),
{
    assert((flags & 2 != 0) == (flags / 2 % 2 == 1)) by (bit_vector);
}

/// The next head is named by the two bytes in the entry of the available ring that
/// differs from the iterator's index by whole laps, and taking it moves that index on
/// by one.
pub proof fn law_head_comes_from_its_entry(
    iter: AvailIter<'_>,
    next: AvailIter<'_>,
    layout: Layout,
    before: Seq<Access>,
    after: Seq<Access>,
    head: Option<DescriptorChain>,
    entry: int,
)
    requires
        iter.stepped(next, layout, before, after, head),
        iter.last_index != iter.next_index,
        0 <= entry < iter.queue_size,
        (iter.next_index - entry) % iter.queue_size as int == 0,
    ensures
        after.len() > before.len(),
        after.take(before.len() as int) == before,
        after[before.len() as int] is Load,
        after[before.len() as int]->Load_addr == iter.avail_ring + 4 + 2 * entry,
        after[before.len() as int]->Load_bytes.len() == 2,
        next.next_index == (iter.next_index + 1) % 0x1_0000,
        head matches Some(chain) ==> {
            let index = number::value(layout.order, after[before.len() as int]->Load_bytes);
            &&& chain.index == index
            &&& chain.ttl == iter.queue_size
            &&& after.len() == before.len() + 2
            &&& after.last() is Load
            &&& after.last()->Load_addr == iter.desc_table + 16 * index
            &&& after.last()->Load_bytes.len() == 16
            &&& chain.addr == number::value(
                layout.order,
                after.last()->Load_bytes.subrange(0, 8),
            )
            &&& chain.len == number::value(
                layout.order,
                after.last()->Load_bytes.subrange(8, 12),
            )
            &&& chain.flags == number::value(
                layout.order,
                after.last()->Load_bytes.subrange(12, 14),
            )
            &&& chain.next == number::value(
                layout.order,
                after.last()->Load_bytes.subrange(14, 16),
            )
        },
        head.is_none() ==> DescriptorChain::fetched(
            layout,
            after.take(before.len() as int + 1),
            after,
            iter.desc_table,
            iter.queue_size,
            number::value(layout.order, after[before.len() as int]->Load_bytes) as u16,
            iter.queue_size,
            None,
        ),
{
    let size = iter.queue_size as int;
    number::lemma_remainder(iter.next_index as int, entry, size);
    let n = before.len() as int;
    let mid = after.take(n + 1);
    assert(mid.last() == after[n]);
    assert forall|i: int| 0 <= i < n implies after.take(n)[i] == before[i] by {
        assert(mid[i] == after[i]);
    }
    assert(after.take(n) =~= before);
    number::lemma_byte_spans();
    number::lemma_value_bound(layout.order, after[n]->Load_bytes);
    if let Some(chain) = head {
        law_chain_carries_what_was_written(
            layout,
            mid,
            after,
            iter.desc_table,
            iter.queue_size,
            number::value(layout.order, after[n]->Load_bytes) as u16,
            iter.queue_size,
            chain,
        );
    }
}

/// The heads left are those between the iterator's index and the driver's.
pub proof fn law_pending_is_the_distance(iter: AvailIter<'_>)
    ensures
        0 <= iter.pending() < 0x1_0000,
        (iter.next_index + iter.pending()) % 0x1_0000 == iter.last_index,
        iter.pending() == 0 <==> iter.next_index == iter.last_index,
{
}

/// Wrapping around leaves an index that differs by whole turns.
pub proof fn law_wrapping_drops_whole_turns(value: int)
    ensures
        0 <= queue::wrap16(value) <= u16::MAX,
        (value - queue::wrap16(value)) % 0x1_0000 == 0,
{
}

/// The rings have the size that the driver selected, or at most what is offered.
pub proof fn law_ring_size_is_the_smaller(queue: Queue)
    ensures
        queue.ring_size() <= queue.size,
        queue.ring_size() <= queue.max_size,
        queue.ring_size() == queue.size || queue.ring_size() == queue.max_size,
{
}

/// A queue is accepted exactly if it is ready, has a size that is offered and a power of
/// two, a descriptor table of sixteen bytes for each entry at a multiple of sixteen, an
/// available ring of two bytes each and six more at an even address, and a used ring of
/// eight bytes each and six more at a multiple of four, all of which end in memory.
pub proof fn law_accepted_queue_is_set_up(queue: Queue, layout: Layout)
    ensures
        queue.valid(layout) <==> {
            &&& queue.ready
            &&& 0 < queue.size <= queue.max_size
            &&& exists|k: nat| #[trigger] vstd::arithmetic::power2::pow2(k) == queue.size
            &&& queue.desc_table as int % 16 == 0
            &&& queue.avail_ring as int % 2 == 0
            &&& queue.used_ring as int % 4 == 0
            &&& queue.desc_table + 16 * queue.size <= u64::MAX
            &&& memory::region_at(layout.regions, queue.desc_table + 16 * queue.size).is_some()
            &&& queue.avail_ring + 6 + 2 * queue.size <= u64::MAX
            &&& memory::region_at(
                layout.regions,
                queue.avail_ring + 6 + 2 * queue.size,
            ).is_some()
            &&& queue.used_ring + 6 + 8 * queue.size <= u64::MAX
            &&& memory::region_at(
                layout.regions,
                queue.used_ring + 6 + 8 * queue.size,
            ).is_some()
        },
{
    assert(queue.avail_ring + (6 + 2 * queue.size) == queue.avail_ring + 6 + 2 * queue.size);
    assert(queue.used_ring + (6 + 8 * queue.size) == queue.used_ring + 6 + 8 * queue.size);
}

/// A head is put into the used ring by four steps: its index goes to the element that
/// differs from the queue's used index by whole laps, its length right after it, then
/// comes a fence, and then the ring's index, two bytes into it, moves past the element.
pub proof fn law_use_is_four_steps(
    queue: Queue,
    layout: Layout,
    desc_index: u16,
    len: u32,
    entry: int,
)
    requires
        queue.used_ring + 4 + 8 * queue.ring_size() <= u64::MAX,
        0 <= entry < queue.ring_size(),
        (queue.next_used - entry) % queue.ring_size() as int == 0,
    ensures
        ({
            let accesses = queue.used_accesses(layout.order, desc_index, len);
            let at = queue.used_ring + 4 + 8 * entry;
            &&& accesses.len() == 4
            &&& accesses[0] is Store
            &&& accesses[0]->Store_addr == at
            &&& accesses[0]->Store_bytes.len() == 4
            &&& number::value(layout.order, accesses[0]->Store_bytes) == desc_index
            &&& accesses[1] is Store
            &&& accesses[1]->Store_addr == at + 4
            &&& accesses[1]->Store_bytes.len() == 4
            &&& number::value(layout.order, accesses[1]->Store_bytes) == len
            &&& accesses[2] is Fence
            &&& accesses[3] is Store
            &&& accesses[3]->Store_addr == queue.used_ring + 2
            &&& accesses[3]->Store_bytes.len() == 2
            &&& number::value(layout.order, accesses[3]->Store_bytes) == (queue.next_used + 1)
                % 0x1_0000
        }),
{
    let size = queue.ring_size() as int;
    number::lemma_remainder(queue.next_used as int, entry, size);
    let index = queue::wrap16(queue.next_used + 1) as nat;
    number::lemma_byte_spans();
    number::lemma_encoded_len(layout.order, desc_index as nat, 4);
    number::lemma_encoded_len(layout.order, len as nat, 4);
    number::lemma_encoded_len(layout.order, index, 2);
    number::law_decode_undoes_encode(layout.order, desc_index as nat, 4);
    number::law_decode_undoes_encode(layout.order, len as nat, 4);
    number::law_decode_undoes_encode(layout.order, index, 2);
}

/// Going back moves the position down by one, below zero to the last index, and nothing
/// else.
pub proof fn law_going_back_is_one_step(queue: Queue)
    ensures
        queue.next_avail > 0 ==> queue.one_back().next_avail == queue.next_avail - 1,
        queue.next_avail == 0 ==> queue.one_back().next_avail == 65535,
        queue.one_back() == (Queue { next_avail: queue.one_back().next_avail, ..queue }),
{
}

/// A buffer is for the device to write exactly if the second lowest bit of its flags is
/// set.
pub proof fn law_device_writes_by_the_flag(chain: DescriptorChain)
    ensures
        chain.for_the_device() <==> chain.flags as int / 2 % 2 == 1,
{
    law_write_flag_is_the_second_bit(chain.flags);
}

/// The next descriptor of a chain is the one that the present one names, read at its
/// place in the same table, and has one descriptor fewer to go. A chain that does not go
/// on gives none, and nothing is read.
pub proof fn law_chain_goes_on_where_it_says(
    chain: DescriptorChain,
    layout: Layout,
    before: Seq<Access>,
    after: Seq<Access>,
    next: Option<DescriptorChain>,
)
    requires
        chain.advanced(layout, before, after, next),
    ensures
        chain.flags % 2 == 0 || chain.ttl <= 1 ==> next.is_none() && after == before,
        next matches Some(found) ==> {
            let bytes = after.last()->Load_bytes;
            &&& found.index == chain.next
            &&& found.ttl == chain.ttl - 1
            &&& found.desc_table == chain.desc_table
            &&& found.queue_size == chain.queue_size
            &&& after.drop_last() == before
            &&& after.last() is Load
            &&& after.last()->Load_addr == chain.desc_table + 16 * chain.next
            &&& bytes.len() == 16
            &&& found.addr == number::value(layout.order, bytes.subrange(0, 8))
            &&& found.len == number::value(layout.order, bytes.subrange(8, 12))
            &&& found.flags == number::value(layout.order, bytes.subrange(12, 14))
            &&& found.next == number::value(layout.order, bytes.subrange(14, 16))
        },
        chain.flags % 2 == 1 && chain.ttl > 1 && next.is_none() ==> DescriptorChain::fetched(
            layout,
            before,
            after,
            chain.desc_table,
            chain.queue_size,
            chain.next,
            (chain.ttl - 1) as u16,
            None,
        ),
{
    law_valid_chain_ends_in_memory(chain, layout);
    if let Some(found) = next {
        law_chain_carries_what_was_written(
            layout,
            before,
            after,
            chain.desc_table,
            chain.queue_size,
            chain.next,
            (chain.ttl - 1) as u16,
            found,
        );
    }
}

/// A head that is in the table is put into the used ring's next element, and the queue
/// goes on with the one after it. Any other head is ignored.
pub proof fn law_used_head_is_put_into_the_ring(
    queue: Queue,
    layout: Layout,
    before: Seq<Access>,
    after: Seq<Access>,
    desc_index: u16,
    len: u32,
    next: Queue,
    entry: int,
)
    requires
        queue.head_used(layout, before, after, desc_index, len, next),
        queue.used_ring + 4 + 8 * queue.ring_size() <= u64::MAX,
        queue.ring_size() > 0 ==> 0 <= entry < queue.ring_size() && (queue.next_used - entry)
            % queue.ring_size() as int == 0,
    ensures
        desc_index >= queue.size || desc_index >= queue.max_size ==> next == queue && after
            == before,
        desc_index < queue.size && desc_index < queue.max_size ==> {
            let n = before.len() as int;
            let at = queue.used_ring + 4 + 8 * entry;
            &&& next == (Queue { next_used: next.next_used, ..queue })
            &&& next.next_used == (queue.next_used + 1) % 0x1_0000
            &&& after.len() == n + 4
            &&& after.take(n) == before
            &&& after[n] is Store && after[n]->Store_addr == at
            &&& after[n]->Store_bytes.len() == 4
            &&& number::value(layout.order, after[n]->Store_bytes) == desc_index
            &&& after[n + 1] is Store && after[n + 1]->Store_addr == at + 4
            &&& after[n + 1]->Store_bytes.len() == 4
            &&& number::value(layout.order, after[n + 1]->Store_bytes) == len
            &&& after[n + 2] is Fence
            &&& after[n + 3] is Store && after[n + 3]->Store_addr == queue.used_ring + 2
            &&& after[n + 3]->Store_bytes.len() == 2
            &&& number::value(layout.order, after[n + 3]->Store_bytes) == next.next_used
        },
{
    if desc_index < queue.ring_size() {
        law_use_is_four_steps(queue, layout, desc_index, len, entry);
        assert(after.take(before.len() as int) =~= before);
    }
}

} // verus!
