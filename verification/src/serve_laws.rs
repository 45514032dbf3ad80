//! What serving a ring comes to, told by the records of memory and disk alone.
use crate::backend::DiskOp;
use crate::error::Error;
use crate::memory;
use crate::memory::{Access, Layout};
use crate::number;
use crate::queue::Descriptor;
use crate::vring::{
    ExecuteError, Point, Request, RequestType, Round, Run, Trace, VringFault, VringState,
};
use vstd::prelude::*;

verus! {

/// A flag of the least significant bit tells whether the number is odd.
proof fn lemma_low_bit(flags: u16)
    ensures
        (flags as u32 & 1 == 0) == (flags % 2 == 0),
{
    assert((flags as u32 & 1 == 0) == (flags % 2 == 0)) by (bit_vector);
}

/// The head of the chain with index `idx` is read, two bytes wide, from the entry
/// of the available ring that differs from `idx` by whole laps. It is taken if it is
/// at most the ring's size.
pub proof fn law_head_is_read_from_its_entry(
    state: VringState,
    layout: Layout,
    before: Seq<Access>,
    after: Seq<Access>,
    idx: u16,
    entry: int,
    outcome: Result<u16, VringFault>,
)
    requires
        state.head_read(layout, before, after, idx, outcome),
        state.mem_table.is_some(),
        0 <= entry < state.size,
        (idx - entry) % state.size as int == 0,
        2 * entry <= u16::MAX,
    ensures
        ({
            let at = state.mem_table.unwrap().avail_addr + 4 + 2 * entry;
            if memory::reachable(layout.regions, at, 2) {
                let head = number::value(layout.order, after.last()->Load_bytes);
                &&& after.len() == before.len() + 1
                &&& before == after.drop_last()
                &&& after.last() is Load
                &&& after.last()->Load_addr == at
                &&& after.last()->Load_bytes.len() == 2
                &&& head <= state.size ==> outcome == Ok::<u16, VringFault>(head as u16)
                &&& head > state.size ==> outcome == Err::<u16, VringFault>(
                    VringFault::BogusHead(head as u16),
                )
            } else {
                after == before && outcome == Err::<u16, VringFault>(VringFault::Unmapped)
            }
        }),
{
    number::lemma_remainder(idx as int, entry, state.size as int);
    if memory::reachable(layout.regions, state.avail_slot(idx), 2) {
        number::lemma_byte_spans();
        number::lemma_value_bound(layout.order, after.last()->Load_bytes);
        assert(before =~= after.drop_last());
    }
}

/// A ring refuses an index only if it has no entries, or if the entry's offset does
/// not fit into the width of an index.
pub proof fn law_entries_are_refused_for_their_offset(
    state: VringState,
    layout: Layout,
    before: Seq<Access>,
    after: Seq<Access>,
    idx: u16,
    entry: int,
    outcome: Result<u16, VringFault>,
)
    requires
        state.head_read(layout, before, after, idx, outcome),
        state.size > 0 ==> 0 <= entry < state.size && (idx - entry) % state.size as int == 0,
    ensures
        outcome == Err::<u16, VringFault>(VringFault::BadSize) <==> state.size == 0 || 2 * entry
            > u16::MAX,
        outcome == Err::<u16, VringFault>(VringFault::BadSize) ==> after == before,
{
    if state.size > 0 {
        number::lemma_remainder(idx as int, entry, state.size as int);
    }
}

/// Heads whose indices are less than a lap apart are read from different places, also
/// where the index has come around. The ring's size has to divide the range of the
/// index.
pub proof fn law_heads_of_a_lap_are_read_apart(
    state: VringState,
    layout: Layout,
    before: Seq<Access>,
    after: Seq<Access>,
    idx: u16,
    outcome: Result<u16, VringFault>,
    from: Seq<Access>,
    to: Seq<Access>,
    later: u16,
    next: Result<u16, VringFault>,
    distance: int,
)
    requires
        state.size > 0,
        0x1_0000int % state.size as int == 0,
        0 < distance < state.size,
        (later - idx - distance) % 0x1_0000 == 0,
        state.head_read(layout, before, after, idx, outcome),
        state.head_read(layout, from, to, later, next),
        outcome.is_ok(),
        next.is_ok(),
    ensures
        after.last()->Load_addr != to.last()->Load_addr,
{
    let size = state.size as int;
    let laps = 0x1_0000int / size;
    vstd::arithmetic::div_mod::lemma_fundamental_div_mod(0x1_0000, size);
    assert(laps > 0) by (nonlinear_arith)
        requires
            size > 0,
            size * laps == 0x1_0000,
    ;
    let turns = (later - idx - distance) / 0x1_0000;
    assert(later - idx - distance == 0x1_0000 * turns);
    assert(later - (idx + distance) == size * (laps * turns)) by (nonlinear_arith)
        requires
            later - idx - distance == 0x1_0000 * turns,
            size * laps == 0x1_0000,
    ;
    vstd::arithmetic::div_mod::lemma_mod_multiples_vanish(
        laps * turns,
        idx + distance,
        size,
    );
    assert(later as int % size == (idx + distance) % size);
    if later as int % size == idx as int % size {
        vstd::arithmetic::div_mod::lemma_sub_mod_noop(idx + distance, idx as int, size);
        vstd::arithmetic::div_mod::lemma_small_mod(0, size as nat);
        vstd::arithmetic::div_mod::lemma_small_mod(distance as nat, size as nat);
        assert(false);
    }
}

/// A descriptor is read from its place in the table, sixteen bytes after the one
/// before it, and is what those bytes hold.
pub proof fn law_descriptor_is_read_from_its_place(
    state: VringState,
    layout: Layout,
    before: Seq<Access>,
    after: Seq<Access>,
    idx: u16,
    outcome: Result<Descriptor, VringFault>,
)
    requires
        state.desc_read(layout, before, after, idx, outcome),
        state.mem_table.is_some(),
    ensures
        ({
            let at = state.mem_table.unwrap().desc_addr + 16 * idx;
            if memory::reachable(layout.regions, at, 16) {
                let bytes = after.last()->Load_bytes;
                &&& before == after.drop_last()
                &&& after.len() == before.len() + 1
                &&& after.last() is Load
                &&& after.last()->Load_addr == at
                &&& bytes.len() == 16
                &&& outcome matches Ok(desc)
                &&& desc.addr == number::value(layout.order, bytes.subrange(0, 8))
                &&& desc.len == number::value(layout.order, bytes.subrange(8, 12))
                &&& desc.flags == number::value(layout.order, bytes.subrange(12, 14))
                &&& desc.next == number::value(layout.order, bytes.subrange(14, 16))
            } else {
                after == before && outcome == Err::<Descriptor, VringFault>(VringFault::Unmapped)
            }
        }),
{
    if memory::reachable(layout.regions, state.desc_slot(idx), 16) {
        assert(before =~= after.drop_last());
        lemma_descriptor_fields(layout, after.last()->Load_bytes);
    }
}

/// The fields of a descriptor are the numbers in its bytes.
proof fn lemma_descriptor_fields(layout: Layout, bytes: Seq<u8>)
    requires
        bytes.len() == 16,
    ensures
        ({
            let desc = Descriptor::of(layout.order, bytes);
            &&& desc.addr == number::value(layout.order, bytes.subrange(0, 8))
            &&& desc.len == number::value(layout.order, bytes.subrange(8, 12))
            &&& desc.flags == number::value(layout.order, bytes.subrange(12, 14))
            &&& desc.next == number::value(layout.order, bytes.subrange(14, 16))
        }),
{
    number::lemma_byte_spans();
    number::lemma_value_bound(layout.order, bytes.subrange(0, 8));
    number::lemma_value_bound(layout.order, bytes.subrange(8, 12));
    number::lemma_value_bound(layout.order, bytes.subrange(12, 14));
    number::lemma_value_bound(layout.order, bytes.subrange(14, 16));
}

/// The driver's index is asked for only when all requests known of are taken. Then it
/// is read, two bytes wide and two bytes into the available ring, and the ring is
/// empty if it is the index of the next request to take.
pub proof fn law_emptiness_is_told_by_the_index(
    state: VringState,
    layout: Layout,
    before: Seq<Access>,
    after: Seq<Access>,
    next: VringState,
    outcome: Result<bool, VringFault>,
)
    requires
        state.empty_checked(layout, before, after, next, outcome),
        state.mem_table.is_some(),
    ensures
        next == (VringState { shadow_avail_idx: next.shadow_avail_idx, ..state }),
        ({
            let at = state.mem_table.unwrap().avail_addr + 2;
            if state.shadow_avail_idx != state.last_avail_idx {
                after == before && next == state && outcome == Ok::<bool, VringFault>(false)
            } else if memory::reachable(layout.regions, at, 2) {
                let index = number::value(layout.order, after.last()->Load_bytes);
                &&& before == after.drop_last()
                &&& after.len() == before.len() + 1
                &&& after.last() is Load
                &&& after.last()->Load_addr == at
                &&& after.last()->Load_bytes.len() == 2
                &&& next.shadow_avail_idx == index
                &&& outcome == Ok::<bool, VringFault>(index == state.last_avail_idx)
            } else {
                after == before && next == state && outcome == Err::<bool, VringFault>(
                    VringFault::Unmapped,
                )
            }
        }),
{
    if state.shadow_avail_idx == state.last_avail_idx && memory::reachable(
        layout.regions,
        state.mem_table.unwrap().avail_addr + 2,
        2,
    ) {
        number::lemma_byte_spans();
        number::lemma_value_bound(layout.order, after.last()->Load_bytes);
        assert(before =~= after.drop_last());
    }
}

/// The type of a request is the number in the first four bytes of its header: zero
/// asks to read, one to write, four to flush and eight for the identification.
pub proof fn law_type_is_the_first_number(
    layout: Layout,
    before: Seq<Access>,
    after: Seq<Access>,
    addr: int,
    outcome: Result<RequestType, VringFault>,
)
    requires
        crate::vring::type_read(layout, before, after, addr, outcome),
    ensures
        memory::reachable(layout.regions, addr, 4) ==> {
            &&& before == after.drop_last()
            &&& after.len() == before.len() + 1
            &&& after.last() is Load
            &&& after.last()->Load_addr == addr
            &&& after.last()->Load_bytes.len() == 4
            &&& outcome matches Ok(request_type)
            &&& types_agree(
                request_type,
                number::value(layout.order, after.last()->Load_bytes),
            )
        },
        !memory::reachable(layout.regions, addr, 4) ==> after == before && outcome == Err::<
            RequestType,
            VringFault,
        >(VringFault::Unmapped),
{
    if memory::reachable(layout.regions, addr, 4) {
        assert(before =~= after.drop_last());
        number::lemma_byte_spans();
        number::lemma_value_bound(layout.order, after.last()->Load_bytes);
    }
}

/// Whether a request with this type is what the number asks for.
pub open spec fn types_agree(request_type: RequestType, asked: nat) -> bool {
    match request_type {
        RequestType::In => asked == 0,
        RequestType::Out => asked == 1,
        RequestType::Flush => asked == 4,
        RequestType::GetDeviceID => asked == 8,
        RequestType::Unsupported(t) => asked == t && t != 0 && t != 1 && t != 4 && t != 8,
    }
}

/// The sector of a request is the number in the eight bytes after the first eight of
/// its header.
pub proof fn law_sector_is_the_second_number(
    layout: Layout,
    before: Seq<Access>,
    after: Seq<Access>,
    addr: int,
    outcome: Result<u64, VringFault>,
)
    requires
        crate::vring::sector_read(layout, before, after, addr, outcome),
    ensures
        memory::reachable(layout.regions, addr + 8, 8) ==> {
            &&& before == after.drop_last()
            &&& after.len() == before.len() + 1
            &&& after.last() is Load
            &&& after.last()->Load_addr == addr + 8
            &&& after.last()->Load_bytes.len() == 8
            &&& outcome matches Ok(sector)
            &&& sector == number::value(layout.order, after.last()->Load_bytes)
        },
        !memory::reachable(layout.regions, addr + 8, 8) ==> after == before && outcome == Err::<
            u64,
            VringFault,
        >(VringFault::Unmapped),
{
    if memory::reachable(layout.regions, addr + 8, 8) {
        assert(before =~= after.drop_last());
        number::lemma_byte_spans();
        number::lemma_value_bound(layout.order, after.last()->Load_bytes);
    }
}

/// The bytes that access `i` of a record read.
pub open spec fn read_at(log: Seq<Access>, i: int) -> Seq<u8> {
    log[i]->Load_bytes
}

/// Whether access `i` of a record reads `len` bytes at `addr`.
pub open spec fn reads(log: Seq<Access>, i: int, addr: int, len: int) -> bool {
    log[i] is Load && log[i]->Load_addr == addr && log[i]->Load_bytes.len() == len
}

/// A request that was taken is what the driver wrote. Its head is read from the entry
/// of the available ring that differs from the index by whole laps, and names the
/// head descriptor. That one's buffer is the header, with the type and the sector, and
/// its successor is the descriptor of the data, or, without a successor of its own, of
/// the status of a flush. The descriptor after the data is that of the status.
pub proof fn law_request_is_what_was_written(
    state: VringState,
    layout: Layout,
    log: Seq<Access>,
    from: int,
    request: Request,
    head: u16,
    entry: int,
)
    requires
        0 <= from <= log.len(),
        state.mem_table.is_some(),
        state.request_taken(layout, log, from as nat, Seq::empty(), Ok((request, head))),
        0 <= entry < state.size,
        (state.last_avail_idx - entry) % state.size as int == 0,
    ensures
        ({
            let table = state.mem_table.unwrap();
            let base = table.desc_region.mmap_addr;
            let first = read_at(log, from + 1);
            let header = base + number::value(layout.order, first.subrange(0, 8));
            let second = read_at(log, from + 4);
            let third = read_at(log, from + 5);
            &&& reads(log, from, table.avail_addr + 4 + 2 * entry, 2)
            &&& head == number::value(layout.order, read_at(log, from))
            &&& head <= state.size
            &&& reads(log, from + 1, table.desc_addr + 16 * head, 16)
            &&& reads(log, from + 2, header, 4)
            &&& types_agree(
                request.request_type,
                number::value(layout.order, read_at(log, from + 2)),
            )
            &&& reads(log, from + 3, header + 8, 8)
            &&& request.sector == number::value(layout.order, read_at(log, from + 3))
            &&& reads(
                log,
                from + 4,
                table.desc_addr + 16 * number::value(layout.order, first.subrange(14, 16)),
                16,
            )
            &&& if number::value(layout.order, second.subrange(12, 14)) % 2 == 0 {
                &&& log.len() == from + 5
                &&& request.request_type == RequestType::Flush
                &&& request.data_len == 0
                &&& request.status_addr == base + number::value(
                    layout.order,
                    second.subrange(0, 8),
                )
            } else {
                &&& log.len() == from + 6
                &&& reads(
                    log,
                    from + 5,
                    table.desc_addr + 16 * number::value(layout.order, second.subrange(14, 16)),
                    16,
                )
                &&& request.data_addr == base + number::value(layout.order, second.subrange(0, 8))
                &&& request.data_len == number::value(layout.order, second.subrange(8, 12))
                &&& request.status_addr == base + number::value(
                    layout.order,
                    third.subrange(0, 8),
                )
            }
        }),
{
    number::lemma_remainder(state.last_avail_idx as int, entry, state.size as int);
    lemma_request_steps(state, layout, log, from, Ok((request, head)));
}

/// Taking a request fails for one of five reasons only: the ring has no place for
/// the entry, the head is beyond its size, a chain of two descriptors is no flush, an
/// access that is due cannot be made, or an address does not fit.
pub proof fn law_taking_fails_for_a_reason(
    state: VringState,
    layout: Layout,
    log: Seq<Access>,
    from: int,
    fault: VringFault,
    entry: int,
)
    requires
        0 <= from <= log.len(),
        state.mem_table.is_some(),
        state.request_taken(layout, log, from as nat, Seq::empty(), Err(fault)),
        state.size > 0 ==> 0 <= entry < state.size && (state.last_avail_idx - entry)
            % state.size as int == 0,
    ensures
        ({
            let o = layout.order;
            let n = log.len() - from;
            let table = state.mem_table.unwrap();
            let base = table.desc_region.mmap_addr;
            let first = read_at(log, from + 1);
            let header = base + number::value(o, first.subrange(0, 8));
            let second = read_at(log, from + 4);
            let goes_on = number::value(o, second.subrange(12, 14)) % 2 == 1;
            let third = read_at(log, from + 5);
            match fault {
                VringFault::BadSize => n == 0 && (state.size == 0 || 2 * entry > u16::MAX),
                VringFault::BogusHead(head) => n == 1 && head == number::value(
                    o,
                    read_at(log, from),
                ) && head > state.size,
                VringFault::BadChain(_) => n == 5 && !goes_on && number::value(
                    o,
                    read_at(log, from + 2),
                ) != 4,
                VringFault::Overrun => false,
                VringFault::Unmapped => {
                    ||| n == 0 && !memory::reachable(
                        layout.regions,
                        table.avail_addr + 4 + 2 * entry,
                        2,
                    )
                    ||| n == 1 && !memory::reachable(
                        layout.regions,
                        table.desc_addr + 16 * number::value(o, read_at(log, from)),
                        16,
                    )
                    ||| n == 2 && !memory::reachable(layout.regions, header, 4)
                    ||| n == 3 && !memory::reachable(layout.regions, header + 8, 8)
                    ||| n == 4 && !memory::reachable(
                        layout.regions,
                        table.desc_addr + 16 * number::value(o, first.subrange(14, 16)),
                        16,
                    )
                    ||| n == 5 && goes_on && !memory::reachable(
                        layout.regions,
                        table.desc_addr + 16 * number::value(o, second.subrange(14, 16)),
                        16,
                    )
                    ||| n >= 5 && base + number::value(o, second.subrange(0, 8)) > u64::MAX
                    ||| n == 6 && base + number::value(o, third.subrange(0, 8)) > u64::MAX
                },
            }
        }),
{
    if state.size > 0 {
        number::lemma_remainder(state.last_avail_idx as int, entry, state.size as int);
    }
    lemma_request_steps(state, layout, log, from, Err(fault));
}

/// What each access of taking a request reads, as far as it was got.
proof fn lemma_request_steps(
    state: VringState,
    layout: Layout,
    log: Seq<Access>,
    from: int,
    outcome: Result<(Request, u16), VringFault>,
)
    requires
        0 <= from <= log.len(),
        state.mem_table.is_some(),
        state.request_taken(layout, log, from as nat, Seq::empty(), outcome),
    ensures
        ({
            let o = layout.order;
            let n = log.len() - from;
            let table = state.mem_table.unwrap();
            let base = table.desc_region.mmap_addr;
            let slot = table.avail_addr + 4 + 2 * (state.last_avail_idx as int
                % state.size as int);
            let head = number::value(o, read_at(log, from));
            let first = read_at(log, from + 1);
            let header = base + number::value(o, first.subrange(0, 8));
            let asked = number::value(o, read_at(log, from + 2));
            let successor = table.desc_addr + 16 * number::value(o, first.subrange(14, 16));
            let second = read_at(log, from + 4);
            let goes_on = number::value(o, second.subrange(12, 14)) % 2 == 1;
            let last = table.desc_addr + 16 * number::value(o, second.subrange(14, 16));
            let third = read_at(log, from + 5);
            &&& 0 <= n <= 6
            &&& n > 0 ==> reads(log, from, slot, 2)
            &&& n > 1 ==> head <= state.size && reads(
                log,
                from + 1,
                table.desc_addr + 16 * head,
                16,
            )
            &&& n > 2 ==> reads(log, from + 2, header, 4)
            &&& n > 3 ==> reads(log, from + 3, header + 8, 8)
            &&& n > 4 ==> reads(log, from + 4, successor, 16)
            &&& n > 5 ==> goes_on && reads(log, from + 5, last, 16)
            &&& match outcome {
                Ok((request, index)) => {
                    &&& n == if goes_on {
                        6int
                    } else {
                        5
                    }
                    &&& index == head
                    &&& types_agree(request.request_type, asked)
                    &&& request.sector == number::value(o, read_at(log, from + 3))
                    &&& !goes_on ==> {
                        &&& request.request_type == RequestType::Flush
                        &&& request.data_len == 0
                        &&& request.status_addr == base + number::value(o, second.subrange(0, 8))
                    }
                    &&& goes_on ==> {
                        &&& request.data_addr == base + number::value(o, second.subrange(0, 8))
                        &&& request.data_len == number::value(o, second.subrange(8, 12))
                        &&& request.status_addr == base + number::value(o, third.subrange(0, 8))
                    }
                },
                Err(VringFault::BadSize) => n == 0 && !state.has_entry(state.last_avail_idx),
                Err(VringFault::BogusHead(index)) => n == 1 && index == head && head > state.size,
                Err(VringFault::BadChain(error)) => {
                    &&& n == 5
                    &&& !goes_on
                    &&& asked != 4
                    &&& error == Error::OperationFailedInSlave
                },
                Err(VringFault::Overrun) => false,
                Err(VringFault::Unmapped) => {
                    &&& n == 0 ==> !memory::reachable(layout.regions, slot, 2)
                    &&& n == 1 ==> !memory::reachable(
                        layout.regions,
                        table.desc_addr + 16 * head,
                        16,
                    )
                    &&& n == 2 ==> !memory::reachable(layout.regions, header, 4)
                    &&& n == 3 ==> !memory::reachable(layout.regions, header + 8, 8)
                    &&& n == 4 ==> !memory::reachable(layout.regions, successor, 16)
                    &&& n == 5 && goes_on ==> !memory::reachable(layout.regions, last, 16)
                    &&& n == 5 && !goes_on ==> base + number::value(o, second.subrange(0, 8))
                        > u64::MAX
                    &&& n == 6 ==> base + number::value(o, second.subrange(0, 8)) > u64::MAX || base
                        + number::value(o, third.subrange(0, 8)) > u64::MAX
                },
            }
        }),
{
    reveal_with_fuel(VringState::request_taken, 8);
    number::lemma_byte_spans();
    let n = log.len() - from;
    if state.has_entry(state.last_avail_idx) && n > 0 {
        number::lemma_value_bound(layout.order, read_at(log, from));
    }
    if n > 1 {
        lemma_descriptor_fields_if(layout, read_at(log, from + 1));
    }
    if n > 2 {
        number::lemma_value_bound(layout.order, read_at(log, from + 2));
    }
    if n > 3 {
        number::lemma_value_bound(layout.order, read_at(log, from + 3));
    }
    if n > 4 {
        let second = read_at(log, from + 4);
        lemma_descriptor_fields_if(layout, second);
        lemma_low_bit(Descriptor::of(layout.order, second).flags);
    }
    if n > 5 {
        lemma_descriptor_fields_if(layout, read_at(log, from + 5));
    }
}

/// The fields of a descriptor are the numbers in its bytes, if those are sixteen.
proof fn lemma_descriptor_fields_if(layout: Layout, bytes: Seq<u8>)
    ensures
        bytes.len() == 16 ==> ({
            let desc = Descriptor::of(layout.order, bytes);
            &&& desc.addr == number::value(layout.order, bytes.subrange(0, 8))
            &&& desc.len == number::value(layout.order, bytes.subrange(8, 12))
            &&& desc.flags == number::value(layout.order, bytes.subrange(12, 14))
            &&& desc.next == number::value(layout.order, bytes.subrange(14, 16))
        }),
{
    if bytes.len() == 16 {
        lemma_descriptor_fields(layout, bytes);
    }
}

/// Whether the operations of carrying out a request start with going to its sector,
/// and end there if that fails.
pub open spec fn sought(
    request: Request,
    before: Trace,
    after: Trace,
    outcome: Result<u32, ExecuteError>,
) -> bool {
    let n = before.ops.len() as int;
    &&& after.ops.len() > n
    &&& after.ops.take(n) == before.ops
    &&& after.ops[n] is Seek
    &&& after.ops[n]->sector == request.sector
    &&& after.ops[n]->position matches Err(error) ==> {
        &&& after.ops.len() == n + 1
        &&& after.log == before.log
        &&& outcome == Err::<u32, ExecuteError>(ExecuteError::Seek(error))
    }
}

/// Carrying out a request starts with going to its sector.
proof fn lemma_executed_ops(
    request: Request,
    layout: Layout,
    accepts: spec_fn(u64, u64) -> bool,
    before: Trace,
    after: Trace,
    outcome: Result<u32, ExecuteError>,
)
    requires
        request.executed(layout, accepts, before, after, outcome),
        accepts(request.sector, request.data_len as u64),
    ensures
        sought(request, before, after, outcome),
{
    let n = before.ops.len() as int;
    let reached = after.ops.take(n + 1);
    assert(reached.last() == after.ops[n]);
    assert forall|i: int| 0 <= i < n implies after.ops.take(n)[i] == before.ops[i] by {
        assert(reached[i] == after.ops[i]);
    }
    assert(after.ops.take(n) =~= before.ops);
    if after.ops[n]->position.is_err() {
        assert(after.ops == reached);
    }
}

/// A write whose sectors the image has and whose data can be accessed is carried out,
/// whatever its length: the disk gets the bytes that were read in memory at the
/// request's address, and the write succeeds exactly if the disk's does.
pub proof fn law_write_is_carried_out(
    request: Request,
    layout: Layout,
    accepts: spec_fn(u64, u64) -> bool,
    before: Trace,
    after: Trace,
    outcome: Result<u32, ExecuteError>,
)
    requires
        request.executed(layout, accepts, before, after, outcome),
        request.request_type == RequestType::Out,
        accepts(request.sector, request.data_len as u64),
        request.data_len > 0 ==> memory::reachable(
            layout.regions,
            request.data_addr as int,
            request.data_len as int,
        ),
    ensures
        ({
            let n = before.ops.len() as int;
            let op = after.ops[n + 1];
            &&& sought(request, before, after, outcome)
            &&& after.ops[n]->position.is_ok() ==> {
                &&& after.ops.len() == n + 2
                &&& op is Write
                &&& op->Write_bytes.len() == request.data_len
                &&& request.data_len == 0 ==> after.log == before.log
                &&& request.data_len > 0 ==> after.log == before.log.push(
                    Access::Load { addr: request.data_addr, bytes: op->Write_bytes },
                )
                &&& op->Write_outcome.is_ok() ==> outcome == Ok::<u32, ExecuteError>(0)
                &&& op->Write_outcome matches Err(error) ==> outcome == Err::<u32, ExecuteError>(
                    ExecuteError::Write(error),
                )
            }
        }),
{
    lemma_executed_ops(request, layout, accepts, before, after, outcome);
    assert(after.ops[before.ops.len() as int]->position.is_ok() ==> after.ops.len()
        == before.ops.len() + 2);
}

/// A read whose sectors the image has and whose data can be accessed is carried out,
/// whatever its length: memory gets the bytes that the disk gave, at the request's
/// address, and the read succeeds with that length exactly if the disk's does.
pub proof fn law_read_is_carried_out(
    request: Request,
    layout: Layout,
    accepts: spec_fn(u64, u64) -> bool,
    before: Trace,
    after: Trace,
    outcome: Result<u32, ExecuteError>,
)
    requires
        request.executed(layout, accepts, before, after, outcome),
        request.request_type == RequestType::In,
        accepts(request.sector, request.data_len as u64),
        request.data_len > 0 ==> memory::reachable(
            layout.regions,
            request.data_addr as int,
            request.data_len as int,
        ),
    ensures
        ({
            let n = before.ops.len() as int;
            let op = after.ops[n + 1];
            &&& sought(request, before, after, outcome)
            &&& after.ops[n]->position.is_ok() ==> {
                &&& after.ops.len() == n + 2
                &&& op is Read
                &&& op->Read_bytes.len() == request.data_len
                &&& op->Read_outcome.is_ok() ==> {
                    &&& outcome == Ok::<u32, ExecuteError>(request.data_len)
                    &&& request.data_len == 0 ==> after.log == before.log
                    &&& request.data_len > 0 ==> after.log == before.log.push(
                        Access::Store { addr: request.data_addr, bytes: op->Read_bytes },
                    )
                }
                &&& op->Read_outcome matches Err(error) ==> {
                    &&& outcome == Err::<u32, ExecuteError>(ExecuteError::Read(error))
                    &&& after.log == before.log
                }
            }
        }),
{
    lemma_executed_ops(request, layout, accepts, before, after, outcome);
}

/// A flush whose sector the image has reaches the disk, and succeeds exactly if the
/// disk's does. Memory is not touched.
pub proof fn law_flush_is_carried_out(
    request: Request,
    layout: Layout,
    accepts: spec_fn(u64, u64) -> bool,
    before: Trace,
    after: Trace,
    outcome: Result<u32, ExecuteError>,
)
    requires
        request.executed(layout, accepts, before, after, outcome),
        request.request_type == RequestType::Flush,
        accepts(request.sector, request.data_len as u64),
    ensures
        ({
            let n = before.ops.len() as int;
            let op = after.ops[n + 1];
            &&& sought(request, before, after, outcome)
            &&& after.ops[n]->position.is_ok() ==> {
                &&& after.ops.len() == n + 2
                &&& op is Flush
                &&& after.log == before.log
                &&& op->Flush_outcome.is_ok() ==> outcome == Ok::<u32, ExecuteError>(0)
                &&& op->Flush_outcome matches Err(error) ==> outcome == Err::<u32, ExecuteError>(
                    ExecuteError::Flush(error),
                )
            }
        }),
{
    lemma_executed_ops(request, layout, accepts, before, after, outcome);
}

/// A request for the identification succeeds without touching memory or disk any
/// further.
pub proof fn law_identification_succeeds(
    request: Request,
    layout: Layout,
    accepts: spec_fn(u64, u64) -> bool,
    before: Trace,
    after: Trace,
    outcome: Result<u32, ExecuteError>,
)
    requires
        request.executed(layout, accepts, before, after, outcome),
        request.request_type == RequestType::GetDeviceID,
        accepts(request.sector, request.data_len as u64),
    ensures
        ({
            let n = before.ops.len() as int;
            let op = after.ops[n + 1];
            &&& sought(request, before, after, outcome)
            &&& after.ops[n]->position.is_ok() ==> {
                &&& after.ops.len() == n + 1
                &&& after.log == before.log
                &&& outcome == Ok::<u32, ExecuteError>(0)
            }
        }),
{
    lemma_executed_ops(request, layout, accepts, before, after, outcome);
    assert(after.ops[before.ops.len() as int]->position.is_ok() ==> after.ops
        == after.ops.take(before.ops.len() as int + 1));
}

/// A request of an unknown type is refused under its number, without touching memory
/// or disk any further.
pub proof fn law_unknown_request_is_refused(
    request: Request,
    layout: Layout,
    accepts: spec_fn(u64, u64) -> bool,
    before: Trace,
    after: Trace,
    outcome: Result<u32, ExecuteError>,
    asked: u32,
)
    requires
        request.executed(layout, accepts, before, after, outcome),
        request.request_type == RequestType::Unsupported(asked),
        accepts(request.sector, request.data_len as u64),
    ensures
        sought(request, before, after, outcome),
        after.ops[before.ops.len() as int]->position.is_ok() ==> {
            &&& after.ops.len() == before.ops.len() + 1
            &&& after.log == before.log
            &&& outcome == Err::<u32, ExecuteError>(ExecuteError::Unsupported(asked))
        },
{
    lemma_executed_ops(request, layout, accepts, before, after, outcome);
    assert(after.ops[before.ops.len() as int]->position.is_ok() ==> after.ops == after.ops.take(
        before.ops.len() as int + 1,
    ));
}

/// A read or write fails as a bad request, without touching its data or the sectors,
/// only if the image does not have those or the data cannot be accessed.
pub proof fn law_bad_request_has_its_reason(
    request: Request,
    layout: Layout,
    accepts: spec_fn(u64, u64) -> bool,
    before: Trace,
    after: Trace,
    outcome: Result<u32, ExecuteError>,
)
    requires
        request.executed(layout, accepts, before, after, outcome),
        outcome matches Err(ExecuteError::BadRequest(_)),
    ensures
        outcome == Err::<u32, ExecuteError>(ExecuteError::BadRequest(Error::InvalidParam)),
        after.log == before.log,
        after.ops.len() <= before.ops.len() + 1,
        !accepts(request.sector, request.data_len as u64) || {
            &&& request.request_type == RequestType::In || request.request_type
                == RequestType::Out
            &&& request.data_len > 0
            &&& !memory::reachable(
                layout.regions,
                request.data_addr as int,
                request.data_len as int,
            )
        },
{
    if accepts(request.sector, request.data_len as u64) {
        lemma_executed_ops(request, layout, accepts, before, after, outcome);
    }
}

/// The status that the driver is told is zero for success, two for an unknown request
/// and one for any other failure. A failed request comes back with one byte, a
/// successful one with what was put into memory.
pub proof fn law_status_numbers(outcome: Result<u32, ExecuteError>)
    ensures
        match outcome {
            Ok(len) => crate::vring::status_of(outcome) == 0 && crate::vring::used_len(outcome)
                == len,
            Err(ExecuteError::Unsupported(_)) => crate::vring::status_of(outcome) == 2
                && crate::vring::used_len(outcome) == 1,
            Err(_) => crate::vring::status_of(outcome) == 1 && crate::vring::used_len(outcome)
                == 1,
        },
{
}

/// Where and what the parts of a request are, as read by the accesses of a record from
/// `c` on: its type, its sector, its data and the place of its status. `end` is the
/// access after those.
pub struct Parts {
    pub asked: nat,
    pub sector: nat,
    pub data_addr: nat,
    pub data_len: nat,
    pub status_addr: nat,
    pub end: int,
}

/// The parts of the request that the accesses of `log` from `c` on read, whose
/// descriptors lie in the mapping at `base`.
pub open spec fn parts(layout: Layout, base: nat, log: Seq<Access>, c: int) -> Parts {
    let second = read_at(log, c + 4);
    let asked = number::value(layout.order, read_at(log, c + 2));
    let sector = number::value(layout.order, read_at(log, c + 3));
    let addr = base + number::value(layout.order, second.subrange(0, 8));
    if number::value(layout.order, second.subrange(12, 14)) % 2 == 0 {
        Parts { asked, sector, data_addr: 0, data_len: 0, status_addr: addr, end: c + 5 }
    } else {
        Parts {
            asked,
            sector,
            data_addr: addr,
            data_len: number::value(layout.order, second.subrange(8, 12)),
            status_addr: base + number::value(
                layout.order,
                read_at(log, c + 5).subrange(0, 8),
            ),
            end: c + 6,
        }
    }
}

/// The status that the last access of a record tells the driver.
pub open spec fn told(layout: Layout, log: Seq<Access>) -> nat {
    number::value(layout.order, log.last()->Store_bytes)
}

/// Whether the last access of a record stores four bytes at `addr`.
pub open spec fn tells_at(log: Seq<Access>, addr: nat) -> bool {
    log.last() is Store && log.last()->Store_addr == addr && log.last()->Store_bytes.len() == 4
}

/// A request that was worked on was taken from the ring's entry for its index. Its
/// status is the last thing stored, at the address that its chain gives.
pub proof fn law_status_goes_where_the_chain_says(
    round: Round,
    layout: Layout,
    accepts: spec_fn(u64, u64) -> bool,
    from: Point,
    to: Point,
    head: u16,
    len: u32,
    entry: int,
)
    requires
        round.leads(layout, accepts, from, to, Ok(Some((head, len)))),
        from.state.mem_table.is_some(),
        0 <= entry < from.state.size,
        (from.state.last_avail_idx - entry) % from.state.size as int == 0,
    ensures
        ({
            let table = from.state.mem_table.unwrap();
            let log = to.trace.log;
            let c = round.checked.trace.log.len() as int;
            let p = parts(layout, table.desc_region.mmap_addr as nat, log, c);
            &&& c == from.trace.log.len() || c == from.trace.log.len() + 1
            &&& log.take(from.trace.log.len() as int) == from.trace.log
            &&& reads(log, c, table.avail_addr + 4 + 2 * entry, 2)
            &&& head == number::value(layout.order, read_at(log, c))
            &&& reads(log, c + 1, table.desc_addr + 16 * head, 16)
            &&& tells_at(log, p.status_addr)
            &&& told(layout, log) <= 2
            &&& to.state.last_avail_idx == (from.state.last_avail_idx + 1) % 0x1_0000
        }),
{
    lemma_round_parts(round, layout, accepts, from, to, head, len, entry);
}

/// What a round read, and how its request was carried out.
proof fn lemma_round_parts(
    round: Round,
    layout: Layout,
    accepts: spec_fn(u64, u64) -> bool,
    from: Point,
    to: Point,
    head: u16,
    len: u32,
    entry: int,
)
    requires
        round.leads(layout, accepts, from, to, Ok(Some((head, len)))),
        from.state.mem_table.is_some(),
        0 <= entry < from.state.size,
        (from.state.last_avail_idx - entry) % from.state.size as int == 0,
    ensures
        round.request matches Ok((request, index)) && index == head,
        ({
            let request = round.request.unwrap().0;
            let table = from.state.mem_table.unwrap();
            let log = to.trace.log;
            let c = round.checked.trace.log.len() as int;
            let p = parts(layout, table.desc_region.mmap_addr as nat, log, c);
            let status = crate::vring::status_of(round.executed);
            &&& c == from.trace.log.len() || c == from.trace.log.len() + 1
            &&& log.take(from.trace.log.len() as int) == from.trace.log
            &&& reads(log, c, table.avail_addr + 4 + 2 * entry, 2)
            &&& head == number::value(layout.order, read_at(log, c))
            &&& reads(log, c + 1, table.desc_addr + 16 * head, 16)
            &&& types_agree(request.request_type, p.asked)
            &&& request.sector == p.sector
            &&& request.data_len == p.data_len
            &&& p.data_len > 0 ==> request.data_addr == p.data_addr
            &&& round.taken.trace.log.len() == p.end
            &&& round.taken.trace.ops == from.trace.ops
            &&& request.executed(
                layout,
                accepts,
                round.taken.trace,
                Trace { log: log.drop_last(), ops: to.trace.ops },
                round.executed,
            )
            &&& round.taken.trace.log.is_prefix_of(log.drop_last())
            &&& tells_at(log, p.status_addr)
            &&& told(layout, log) == status
            &&& len == crate::vring::used_len(round.executed)
            &&& to.state.last_avail_idx == (from.state.last_avail_idx + 1) % 0x1_0000
        }),
{
    let (request, index) = round.request.unwrap();
    let c = round.checked.trace.log.len() as int;
    let taken = round.taken.trace.log;
    let log = to.trace.log;
    law_request_is_what_was_written(
        round.checked.state,
        layout,
        taken,
        c,
        request,
        head,
        entry,
    );
    crate::vring_laws::law_request_has_the_offered_head(
        round.checked.state,
        layout,
        taken,
        c as nat,
        request,
        head,
    );
    crate::vring_laws::lemma_executed_adds(
        request,
        layout,
        accepts,
        round.taken.trace,
        round.work,
        round.executed,
    );
    assert(log.drop_last() =~= round.work.log);
    assert forall|i: int| 0 <= i < taken.len() implies #[trigger] log[i] == taken[i] by {
        assert(round.work.log[i] == taken[i]);
    }
    assert forall|i: int| 0 <= i < c implies #[trigger] log[i]
        == round.checked.trace.log[i] by {
        assert(taken[i] == round.checked.trace.log[i]);
    }
    assert(log.take(from.trace.log.len() as int) =~= from.trace.log);
    let status = crate::vring::status_of(round.executed) as nat;
    number::lemma_encoded_len(layout.order, status, 4);
    number::lemma_byte_spans();
    number::law_decode_undoes_encode(layout.order, status, 4);
}

/// Whether the records show that a request with these parts was carried out: `ops` goes
/// on from `earlier`, and `log` ends with the status of the request. It comes back with
/// the length `len`.
pub open spec fn carried_out(
    layout: Layout,
    accepts: spec_fn(u64, u64) -> bool,
    p: Parts,
    earlier: Seq<DiskOp>,
    ops: Seq<DiskOp>,
    log: Seq<Access>,
    len: int,
) -> bool {
    let n = earlier.len() as int;
    let op = ops[n + 1];
    let mapped = p.data_len == 0 || memory::reachable(
        layout.regions,
        p.data_addr as int,
        p.data_len as int,
    );
    &&& ops.len() >= n
    &&& ops.take(n) == earlier
    &&& if !accepts(p.sector as u64, p.data_len as u64) {
        ops.len() == n && log.len() == p.end + 1 && told(layout, log) == 1 && len == 1
    } else {
        &&& ops.len() > n
        &&& ops[n] is Seek
        &&& ops[n]->sector == p.sector
        &&& if ops[n]->position.is_err() || (p.asked <= 1 && !mapped) {
            ops.len() == n + 1 && log.len() == p.end + 1 && told(layout, log) == 1 && len == 1
        } else if p.asked == 0 {
            &&& ops.len() == n + 2
            &&& op is Read
            &&& op->Read_bytes.len() == p.data_len
            &&& op->Read_outcome.is_ok() ==> told(layout, log) == 0 && len == p.data_len
            &&& op->Read_outcome.is_err() ==> told(layout, log) == 1 && len == 1
            &&& if op->Read_outcome.is_ok() && p.data_len > 0 {
                &&& log.len() == p.end + 2
                &&& log[p.end] is Store
                &&& log[p.end]->Store_addr == p.data_addr
                &&& log[p.end]->Store_bytes == op->Read_bytes
            } else {
                log.len() == p.end + 1
            }
        } else if p.asked == 1 {
            &&& ops.len() == n + 2
            &&& op is Write
            &&& op->Write_bytes.len() == p.data_len
            &&& op->Write_outcome.is_ok() ==> told(layout, log) == 0 && len == 0
            &&& op->Write_outcome.is_err() ==> told(layout, log) == 1 && len == 1
            &&& if p.data_len > 0 {
                &&& log.len() == p.end + 2
                &&& log[p.end] is Load
                &&& log[p.end]->Load_addr == p.data_addr
                &&& log[p.end]->Load_bytes == op->Write_bytes
            } else {
                log.len() == p.end + 1
            }
        } else if p.asked == 4 {
            &&& ops.len() == n + 2
            &&& op is Flush
            &&& op->Flush_outcome.is_ok() ==> told(layout, log) == 0 && len == 0
            &&& op->Flush_outcome.is_err() ==> told(layout, log) == 1 && len == 1
            &&& log.len() == p.end + 1
        } else if p.asked == 8 {
            ops.len() == n + 1 && log.len() == p.end + 1 && told(layout, log) == 0 && len == 0
        } else {
            ops.len() == n + 1 && log.len() == p.end + 1 && told(layout, log) == 2 && len == 1
        }
    }
}

/// A request that was worked on was carried out on the disk and in memory, as its parts
/// ask, between its being taken and its status.
pub proof fn law_request_is_carried_out(
    round: Round,
    layout: Layout,
    accepts: spec_fn(u64, u64) -> bool,
    from: Point,
    to: Point,
    head: u16,
    len: u32,
    entry: int,
)
    requires
        round.leads(layout, accepts, from, to, Ok(Some((head, len)))),
        from.state.mem_table.is_some(),
        0 <= entry < from.state.size,
        (from.state.last_avail_idx - entry) % from.state.size as int == 0,
    ensures
        carried_out(
            layout,
            accepts,
            parts(
                layout,
                from.state.mem_table.unwrap().desc_region.mmap_addr as nat,
                to.trace.log,
                round.checked.trace.log.len() as int,
            ),
            from.trace.ops,
            to.trace.ops,
            to.trace.log,
            len as int,
        ),
{
    lemma_round_parts(round, layout, accepts, from, to, head, len, entry);
    let request = round.request.unwrap().0;
    let before = round.taken.trace;
    let after = Trace { log: to.trace.log.drop_last(), ops: to.trace.ops };
    let outcome = round.executed;
    let n = before.ops.len() as int;
    law_status_numbers(outcome);
    if !accepts(request.sector, request.data_len as u64) {
        assert(after.ops.take(n) =~= before.ops);
    } else {
        lemma_executed_ops(request, layout, accepts, before, after, outcome);
        let mapped = request.data_len == 0 || memory::reachable(
            layout.regions,
            request.data_addr as int,
            request.data_len as int,
        );
        match request.request_type {
            RequestType::In => {
                if mapped {
                    law_read_is_carried_out(request, layout, accepts, before, after, outcome);
                }
            },
            RequestType::Out => {
                if mapped {
                    law_write_is_carried_out(request, layout, accepts, before, after, outcome);
                }
            },
            RequestType::Flush => {
                law_flush_is_carried_out(request, layout, accepts, before, after, outcome);
            },
            RequestType::GetDeviceID => {
                law_identification_succeeds(request, layout, accepts, before, after, outcome);
            },
            RequestType::Unsupported(asked) => {
                law_unknown_request_is_refused(
                    request,
                    layout,
                    accepts,
                    before,
                    after,
                    outcome,
                    asked,
                );
            },
        }
        assert(after.ops.len() == n + 1 ==> after.ops == after.ops.take(n + 1));
    }
}

/// Whatever requests the driver has offered are served one after the other, each from
/// the ring's entry for its index: between two moments of the record its parts are
/// read, it is carried out, and its status is stored. Nothing of that is undone later.
pub proof fn law_every_offered_request_is_served(
    run: Run,
    layout: Layout,
    accepts: spec_fn(u64, u64) -> bool,
    from: Point,
    to: Point,
    any: bool,
    k: int,
    entry: int,
)
    requires
        run.leads(layout, accepts, from, to, Ok(any)),
        from.state.mem_table.is_some(),
        0 <= k < run.used.len(),
        0 <= entry < from.state.size,
        ((from.state.last_avail_idx + k) % 0x1_0000 - entry) % from.state.size as int == 0,
    ensures
        ({
            let table = from.state.mem_table.unwrap();
            let log = run.points[k + 1].trace.log;
            let ops = run.points[k + 1].trace.ops;
            let c = run.rounds[k].checked.trace.log.len() as int;
            let p = parts(layout, table.desc_region.mmap_addr as nat, log, c);
            &&& run.points[0] == from
            &&& run.points[k].trace.log.len() <= c <= run.points[k].trace.log.len() + 1
            &&& run.points[k].trace.log.is_prefix_of(log)
            &&& reads(log, c, table.avail_addr + 4 + 2 * entry, 2)
            &&& run.used[k].0 == number::value(layout.order, read_at(log, c))
            &&& reads(log, c + 1, table.desc_addr + 16 * run.used[k].0, 16)
            &&& tells_at(log, p.status_addr)
            &&& carried_out(
                layout,
                accepts,
                p,
                run.points[k].trace.ops,
                ops,
                log,
                run.used[k].1 as int,
            )
            &&& log.is_prefix_of(run.stop.trace.log)
            &&& ops.is_prefix_of(to.trace.ops)
            &&& run.stop.trace.log.is_prefix_of(to.trace.log)
        }),
{
    crate::vring_laws::law_requests_are_taken_in_order(run, layout, accepts, from, k);
    let round = run.rounds[k];
    let (head, len) = run.used[k];
    let (p, q) = (run.points[k], run.points[k + 1]);
    lemma_round_parts(round, layout, accepts, p, q, head, len, entry);
    law_request_is_carried_out(round, layout, accepts, p, q, head, len, entry);
    crate::vring_laws::lemma_points_grow(run, layout, accepts, from, k, k + 1);
    let n = run.used.len() as int;
    crate::vring_laws::lemma_points_grow(run, layout, accepts, from, k + 1, n);
    let reached = run.points[n].trace;
    assert(reached.log.is_prefix_of(run.stop.trace.log));
    crate::vring_laws::lemma_prefixes(q.trace.log, reached.log, run.stop.trace.log);
    assert(run.stop.trace.ops == reached.ops);
}

/// A flush that is told to have been carried out was: the disk was asked to flush, and
/// did, between the flush's being taken and its status. If the disk failed to, the
/// driver is told so.
pub proof fn law_flush_reaches_the_disk(
    run: Run,
    layout: Layout,
    accepts: spec_fn(u64, u64) -> bool,
    from: Point,
    to: Point,
    any: bool,
    k: int,
    entry: int,
)
    requires
        run.leads(layout, accepts, from, to, Ok(any)),
        from.state.mem_table.is_some(),
        0 <= k < run.used.len(),
        0 <= entry < from.state.size,
        ((from.state.last_avail_idx + k) % 0x1_0000 - entry) % from.state.size as int == 0,
        // The type that was read is that of a flush.
        number::value(
            layout.order,
            to.trace.log[run.rounds[k].checked.trace.log.len() as int + 2]->Load_bytes,
        ) == 4,
    ensures
        ({
            let first = run.points[k].trace.ops.len() as int;
            let last = run.points[k + 1].trace.ops.len() as int;
            let status = to.trace.log[run.points[k + 1].trace.log.len() - 1];
            &&& status is Store
            &&& number::value(layout.order, status->Store_bytes) == 0 ==> exists|i: int|
                first <= i < last && (#[trigger] to.trace.ops[i]) is Flush
                    && to.trace.ops[i]->Flush_outcome.is_ok()
            &&& forall|i: int|
                first <= i < last && (#[trigger] to.trace.ops[i]) is Flush
                    && to.trace.ops[i]->Flush_outcome.is_err() ==> number::value(
                    layout.order,
                    status->Store_bytes,
                ) == 1
        }),
{
    law_every_offered_request_is_served(run, layout, accepts, from, to, any, k, entry);
    let log = run.points[k + 1].trace.log;
    let ops = run.points[k + 1].trace.ops;
    let c = run.rounds[k].checked.trace.log.len() as int;
    let first = run.points[k].trace.ops.len() as int;
    let base = from.state.mem_table.unwrap().desc_region.mmap_addr as nat;
    let p = parts(layout, base, log, c);
    assert forall|i: int| 0 <= i < log.len() implies #[trigger] to.trace.log[i] == log[i] by {
        assert(run.stop.trace.log[i] == log[i]);
    }
    assert forall|i: int| 0 <= i < ops.len() implies #[trigger] to.trace.ops[i] == ops[i] by {}
    assert(p.end <= log.len() - 1);
    assert(to.trace.log[c + 2] == log[c + 2]);
    assert(p.asked == 4);
    assert(to.trace.ops[first] == ops[first] || ops.len() == first);
    assert(told(layout, log) == 0 ==> to.trace.ops[first + 1] is Flush);
}

/// Work ends without a request exactly because the driver's index, read just then, is
/// that of the next request to take. Nothing else is done.
pub proof fn law_work_ends_at_the_index(
    round: Round,
    layout: Layout,
    accepts: spec_fn(u64, u64) -> bool,
    from: Point,
    to: Point,
)
    requires
        round.leads(layout, accepts, from, to, Ok(None)),
        from.state.mem_table.is_some(),
    ensures
        from.state.shadow_avail_idx == from.state.last_avail_idx,
        to.state == from.state,
        to.trace.ops == from.trace.ops,
        to.trace.log.len() == from.trace.log.len() + 1,
        to.trace.log.drop_last() == from.trace.log,
        reads(
            to.trace.log,
            from.trace.log.len() as int,
            from.state.mem_table.unwrap().avail_addr + 2,
            2,
        ),
        number::value(layout.order, to.trace.log.last()->Load_bytes)
            == from.state.last_avail_idx,
{
    law_emptiness_is_told_by_the_index(
        from.state,
        layout,
        from.trace.log,
        to.trace.log,
        to.state,
        round.empty,
    );
}

/// Work on a request ends in a fault only if the driver's index cannot be read, the
/// request cannot be taken, or its status cannot be stored.
pub proof fn law_work_faults_for_a_reason(
    round: Round,
    layout: Layout,
    accepts: spec_fn(u64, u64) -> bool,
    from: Point,
    to: Point,
    fault: VringFault,
)
    requires
        round.leads(layout, accepts, from, to, Err(fault)),
        from.state.mem_table.is_some(),
    ensures
        ({
            let table = from.state.mem_table.unwrap();
            let c = round.checked.trace.log.len();
            ||| {
                &&& fault == VringFault::Unmapped
                &&& from.state.shadow_avail_idx == from.state.last_avail_idx
                &&& !memory::reachable(layout.regions, table.avail_addr + 2, 2)
                &&& to == from
            }
            ||| {
                &&& to.trace.ops == from.trace.ops
                &&& round.checked.state.last_avail_idx == from.state.last_avail_idx
                &&& round.checked.state.request_taken(
                    layout,
                    to.trace.log,
                    c,
                    Seq::empty(),
                    Err(fault),
                )
            }
            ||| {
                &&& fault == VringFault::Unmapped
                &&& round.request matches Ok((request, head))
                &&& round.checked.state.request_taken(
                    layout,
                    round.taken.trace.log,
                    c,
                    Seq::empty(),
                    Ok((request, head)),
                )
                &&& !memory::reachable(layout.regions, request.status_addr as int, 4)
            }
        }),
{
    law_emptiness_is_told_by_the_index(
        from.state,
        layout,
        from.trace.log,
        round.checked.trace.log,
        round.checked.state,
        round.empty,
    );
    assert(round.empty.is_err() ==> to.trace.log =~= from.trace.log);
}

/// At most 1024 requests are worked on before they are returned, and it takes one more
/// for the driver to have offered too many.
pub proof fn law_batches_have_a_limit(
    run: Run,
    layout: Layout,
    accepts: spec_fn(u64, u64) -> bool,
    from: Point,
    to: Point,
    result: Result<bool, VringFault>,
)
    requires
        run.leads(layout, accepts, from, to, result),
        from.state.mem_table.is_some(),
        from.state.size > 0,
    ensures
        run.used.len() <= 1024,
        result == Err::<bool, VringFault>(VringFault::Overrun) ==> run.used.len() == 1024
            && run.end.is_ok(),
        result.is_ok() ==> run.end == Ok::<Option<(u16, u32)>, VringFault>(None),
        result matches Ok(any) ==> any == (run.used.len() > 0),
{
    if result == Err::<bool, VringFault>(VringFault::Overrun) {
        if let Err(fault) = run.end {
            let n = run.used.len() as int;
            crate::vring_laws::law_requests_are_taken_in_order(run, layout, accepts, from, n);
            law_work_faults_for_a_reason(
                run.last,
                layout,
                accepts,
                run.points[n],
                run.stop,
                fault,
            );
            let state = run.last.checked.state;
            let c = run.last.checked.trace.log.len() as int;
            if state.request_taken(
                layout,
                run.stop.trace.log,
                c as nat,
                Seq::empty(),
                Err(fault),
            ) && run.last.empty == Ok::<bool, VringFault>(false) {
                lemma_request_steps(state, layout, run.stop.trace.log, c, Err(fault));
            }
        } else if run.end == Ok::<Option<(u16, u32)>, VringFault>(None) {
            let n = run.used.len() as int;
            crate::vring_laws::law_requests_are_taken_in_order(run, layout, accepts, from, n);
            law_work_ends_at_the_index(run.last, layout, accepts, run.points[n], run.stop);
            law_returning_fails_for_a_reason(run.stop.state, layout, run.used);
        }
    }
}

/// Returning requests fails only for a ring without entries, or where the entry that is
/// due or the ring's index cannot be written. Those before it were returned.
pub proof fn law_returning_fails_for_a_reason(
    state: VringState,
    layout: Layout,
    used: Seq<(u16, u32)>,
)
    requires
        state.mem_table.is_some(),
    ensures
        state.returned(layout, used).outcome matches Err(fault) ==> exists|k: int|
            0 <= k < used.len() && state.returned(layout, used).accesses.len() == 4 * k
                && #[trigger] cannot_return(state, layout, k, fault),
    decreases used.len(),
{
    if used.len() > 0 {
        let earlier = used.drop_last();
        law_returning_fails_for_a_reason(state, layout, earlier);
        let before = state.returned(layout, earlier);
        if before.outcome.is_ok() {
            crate::vring_laws::lemma_returned_state(state, layout, earlier);
            if let Err(fault) = state.returned(layout, used).outcome {
                let k = used.len() - 1;
                assert(cannot_return(state, layout, k, fault));
            }
        } else {
            let fault = before.outcome->Err_0;
            let k = choose|k: int|
                0 <= k < earlier.len() && before.accesses.len() == 4 * k
                    && #[trigger] cannot_return(state, layout, k, fault);
            assert(cannot_return(state, layout, k, fault));
        }
    }
}

/// Whether the ring has no entries, or the entry of request `k` of a batch, or the used
/// ring's index, cannot be written.
pub open spec fn cannot_return(
    state: VringState,
    layout: Layout,
    k: int,
    fault: VringFault,
) -> bool {
    let used_addr = state.mem_table.unwrap().used_addr;
    let at = used_addr + 4 + 8 * (((state.next_used + k) % 0x1_0000) % state.size as int);
    if state.size == 0 {
        fault == VringFault::BadSize
    } else {
        &&& fault == VringFault::Unmapped
        &&& !memory::reachable(layout.regions, at, 4) || !memory::reachable(
            layout.regions,
            at + 4,
            4,
        ) || !memory::reachable(layout.regions, used_addr + 2, 2)
    }
}

/// Each request of a batch is returned by four steps: its head goes to the entry of the
/// used ring that differs from its index by whole laps, its length right after the head,
/// then comes a fence, and then the index, two bytes into the ring, moves past it.
pub proof fn law_return_is_four_steps(
    state: VringState,
    layout: Layout,
    used: Seq<(u16, u32)>,
    k: int,
    entry: int,
)
    requires
        state.mem_table.is_some(),
        state.returned(layout, used).outcome.is_ok(),
        0 <= k < used.len(),
        0 <= entry < state.size,
        ((state.next_used + k) % 0x1_0000 - entry) % state.size as int == 0,
    ensures
        ({
            let accesses = state.returned(layout, used).accesses;
            let used_addr = state.mem_table.unwrap().used_addr;
            let at = used_addr + 4 + 8 * entry;
            &&& accesses.len() == 4 * used.len()
            &&& accesses[4 * k] is Store
            &&& accesses[4 * k]->Store_addr == at
            &&& accesses[4 * k]->Store_bytes.len() == 4
            &&& number::value(layout.order, accesses[4 * k]->Store_bytes) == used[k].0
            &&& accesses[4 * k + 1] is Store
            &&& accesses[4 * k + 1]->Store_addr == at + 4
            &&& accesses[4 * k + 1]->Store_bytes.len() == 4
            &&& number::value(layout.order, accesses[4 * k + 1]->Store_bytes) == used[k].1
            &&& accesses[4 * k + 2] is Fence
            &&& accesses[4 * k + 3] is Store
            &&& accesses[4 * k + 3]->Store_addr == used_addr + 2
            &&& accesses[4 * k + 3]->Store_bytes.len() == 2
            &&& number::value(layout.order, accesses[4 * k + 3]->Store_bytes) == (state.next_used
                + k + 1) % 0x1_0000
            &&& state.returned(layout, used).state.next_used == (state.next_used + used.len())
                % 0x1_0000
        }),
    decreases used.len(),
{
    let earlier = used.drop_last();
    crate::vring_laws::lemma_returned_state(state, layout, used);
    crate::vring_laws::lemma_returned_state(state, layout, earlier);
    let before = state.returned(layout, earlier);
    let accesses = state.returned(layout, used).accesses;
    if k < used.len() - 1 {
        law_return_is_four_steps(state, layout, earlier, k, entry);
        assert(accesses[4 * k] == before.accesses[4 * k]);
        assert(accesses[4 * k + 1] == before.accesses[4 * k + 1]);
        assert(accesses[4 * k + 2] == before.accesses[4 * k + 2]);
        assert(accesses[4 * k + 3] == before.accesses[4 * k + 3]);
    } else {
        let due = before.state;
        let (head, len) = used.last();
        let more = due.used_accesses(layout.order, head, len);
        assert(accesses == before.accesses + more);
        assert(accesses[4 * k] == more[0]);
        assert(accesses[4 * k + 1] == more[1]);
        assert(accesses[4 * k + 2] == more[2]);
        assert(accesses[4 * k + 3] == more[3]);
        number::lemma_remainder(due.next_used as int, entry, state.size as int);
        let index = due.after_used().next_used as nat;
        number::lemma_byte_spans();
        number::lemma_encoded_len(layout.order, head as nat, 4);
        number::lemma_encoded_len(layout.order, len as nat, 4);
        number::lemma_encoded_len(layout.order, index, 2);
        number::law_decode_undoes_encode(layout.order, head as nat, 4);
        number::law_decode_undoes_encode(layout.order, len as nat, 4);
        number::law_decode_undoes_encode(layout.order, index, 2);
        assert(((state.next_used + k) % 0x1_0000 + 1) % 0x1_0000 == (state.next_used + k + 1)
            % 0x1_0000);
    }
}

/// A request can be returned exactly if the ring has entries, and its entry and the
/// ring's index can be written.
pub proof fn law_request_can_be_returned(state: VringState, layout: Layout, entry: int)
    requires
        state.mem_table.is_some(),
        state.size > 0 ==> 0 <= entry < state.size && (state.next_used - entry)
            % state.size as int == 0,
    ensures
        ({
            let used_addr = state.mem_table.unwrap().used_addr;
            let at = used_addr + 4 + 8 * entry;
            state.used_fault(layout).is_none() <==> {
                &&& state.size > 0
                &&& memory::reachable(layout.regions, at, 4)
                &&& memory::reachable(layout.regions, at + 4, 4)
                &&& memory::reachable(layout.regions, used_addr + 2, 2)
            }
        }),
{
    if state.size > 0 {
        number::lemma_remainder(state.next_used as int, entry, state.size as int);
    }
}

/// After a run the record of memory goes on from that of the work with four steps for
/// each request, and nothing else.
pub proof fn law_run_ends_with_the_returns(
    run: Run,
    layout: Layout,
    accepts: spec_fn(u64, u64) -> bool,
    from: Point,
    to: Point,
    any: bool,
    k: int,
    entry: int,
)
    requires
        run.leads(layout, accepts, from, to, Ok(any)),
        from.state.mem_table.is_some(),
        0 <= k < run.used.len(),
        0 <= entry < from.state.size,
        ((from.state.next_used + k) % 0x1_0000 - entry) % from.state.size as int == 0,
    ensures
        ({
            let n = run.stop.trace.log.len() as int;
            let used_addr = from.state.mem_table.unwrap().used_addr;
            let (id, size, index) = (
                to.trace.log[n + 4 * k],
                to.trace.log[n + 4 * k + 1],
                to.trace.log[n + 4 * k + 3],
            );
            &&& to.trace.log.len() == n + 4 * run.used.len()
            &&& to.trace.ops == run.stop.trace.ops
            &&& id is Store
            &&& id->Store_addr == used_addr + 4 + 8 * entry
            &&& number::value(layout.order, id->Store_bytes) == run.used[k].0
            &&& size is Store
            &&& size->Store_addr == used_addr + 8 + 8 * entry
            &&& number::value(layout.order, size->Store_bytes) == run.used[k].1
            &&& to.trace.log[n + 4 * k + 2] is Fence
            &&& index is Store
            &&& index->Store_addr == used_addr + 2
            &&& number::value(layout.order, index->Store_bytes) == (from.state.next_used + k + 1)
                % 0x1_0000
        }),
{
    let n = run.used.len() as int;
    crate::vring_laws::law_requests_are_taken_in_order(run, layout, accepts, from, n);
    law_work_ends_at_the_index(run.last, layout, accepts, run.points[n], run.stop);
    law_return_is_four_steps(run.stop.state, layout, run.used, k, entry);
}

/// The index of the next request to take moves on by one exactly if a head was read that
/// is at most the ring's size, even if the request then cannot be taken. Nothing else of
/// the ring changes.
pub proof fn law_index_moves_with_the_head(
    state: VringState,
    layout: Layout,
    log: Seq<Access>,
    from: int,
    outcome: Result<(Request, u16), VringFault>,
)
    requires
        0 <= from <= log.len(),
        state.mem_table.is_some(),
        state.request_taken(layout, log, from as nat, Seq::empty(), outcome),
    ensures
        ({
            let next = state.after_request(layout.order, log, from as nat);
            let read = log.len() > from && number::value(layout.order, read_at(log, from))
                <= state.size;
            &&& next == (VringState { last_avail_idx: next.last_avail_idx, ..state })
            &&& read ==> next.last_avail_idx == (state.last_avail_idx + 1) % 0x1_0000
            &&& !read ==> next.last_avail_idx == state.last_avail_idx
            &&& outcome.is_ok() ==> read
        }),
{
    lemma_request_steps(state, layout, log, from, outcome);
}

/// The guest is signalled exactly if something was written.
pub proof fn law_signal_needs_a_write(written: isize)
    ensures
        crate::vring::signalled(written).is_ok() <==> written > 0,
        crate::vring::signalled(written) matches Err(error) ==> error == Error::InvalidParam,
{
}

} // verus!
