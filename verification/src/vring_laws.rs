//! What holds of rings across several calls.
use crate::backend::DiskOp;
use crate::error::Error;
use crate::memory;
use crate::memory::{Access, Layout};
use crate::number;
use crate::queue;
use crate::vring;
use crate::vring::{
    ExecuteError, Point, Request, RequestType, Round, Run, Trace, VringFault, VringFd, VringState,
};
use vstd::prelude::*;

verus! {

/// The file descriptor of each kind is the one that was set last, and setting
/// one leaves the others as they are.
pub proof fn law_fd_reads_back(state: VringState, fd: Option<i32>, set: VringFd, asked: VringFd)
    ensures
        state.with_fd(fd, set).fd(asked) == if asked == set {
            fd
        } else {
            state.fd(asked)
        },
{
}

/// The base index reads back, and a ring that was just given one asks the
/// driver for its index before it takes a request.
pub proof fn law_base_index_reads_back(
    state: VringState,
    base_index: u16,
    layout: Layout,
    before: Seq<Access>,
    after: Seq<Access>,
    next: VringState,
)
    requires
        state.with_base_index(base_index).empty_checked(layout, before, after, next, Ok(false)),
    ensures
        next.last_avail_idx == base_index,
        queue::loads(before, after, state.table().avail_addr + 2, 2),
        number::value(layout.order, queue::loaded(after)) as u16 != base_index,
{
}

/// A request is told to have been carried out if and only if it was, and to be
/// unknown if and only if its type is.
pub proof fn law_status_tells_the_outcome(outcome: Result<u32, ExecuteError>)
    ensures
        vring::status_of(outcome) == vring::VIRTIO_BLK_S_OK <==> outcome.is_ok(),
        vring::status_of(outcome) == vring::VIRTIO_BLK_S_UNSUPP <==> (outcome matches Err(error)
            && error is Unsupported),
        outcome.is_err() ==> vring::used_len(outcome) == 1,
{
}

/// Carrying out a request adds to what was done before, and undoes nothing.
pub proof fn lemma_executed_adds(
    request: Request,
    layout: Layout,
    accepts: spec_fn(u64, u64) -> bool,
    before: Trace,
    after: Trace,
    outcome: Result<u32, ExecuteError>,
)
    requires
        request.executed(layout, accepts, before, after, outcome),
    ensures
        before.log.is_prefix_of(after.log),
        before.ops.is_prefix_of(after.ops),
{
    if accepts(request.sector, request.data_len as u64) {
        let sought = Trace { log: before.log, ops: after.ops.take(before.ops.len() as int + 1) };
        assert(before.ops.is_prefix_of(sought.ops));
        assert forall|i: int| 0 <= i < before.ops.len() implies before.ops[i] == after.ops[i] by {
            assert(sought.ops[i] == after.ops[i]);
        }
        assert(before.ops =~= after.ops.subrange(0, before.ops.len() as int));
    }
}

/// A request of sectors that the image does not have never reaches the disk or
/// the data, and is told to have failed.
pub proof fn law_refused_range_is_untouched(
    request: Request,
    layout: Layout,
    accepts: spec_fn(u64, u64) -> bool,
    before: Trace,
    after: Trace,
    outcome: Result<u32, ExecuteError>,
)
    requires
        request.executed(layout, accepts, before, after, outcome),
        !accepts(request.sector, request.data_len as u64),
    ensures
        after == before,
        outcome == Err::<u32, ExecuteError>(ExecuteError::BadRequest(Error::InvalidParam)),
        vring::status_of(outcome) == vring::VIRTIO_BLK_S_IOERR,
{
}

/// A read that succeeds puts into memory, at the request's address, just the
/// bytes that the disk gave after it went to the request's sector.
pub proof fn law_read_delivers_the_disk(
    request: Request,
    layout: Layout,
    accepts: spec_fn(u64, u64) -> bool,
    before: Trace,
    after: Trace,
    outcome: Result<u32, ExecuteError>,
)
    requires
        request.executed(layout, accepts, before, after, outcome),
        request.request_type == RequestType::In,
        request.data_len > 0,
        outcome.is_ok(),
    ensures
        outcome == Ok::<u32, ExecuteError>(request.data_len),
        after.ops.len() == before.ops.len() + 2,
        after.ops[before.ops.len() as int] matches DiskOp::Seek { sector, position } && sector
            == request.sector && position.is_ok(),
        after.ops.last() matches DiskOp::Read { bytes, outcome: read } && read.is_ok()
            && bytes.len() == request.data_len && after.log == before.log.push(
            Access::Store { addr: request.data_addr, bytes },
        ),
{
    let sought = after.ops.take(before.ops.len() as int + 1);
    assert(sought.last() == after.ops[before.ops.len() as int]);
}

/// A write that succeeds gives the disk, after it went to the request's sector,
/// just the bytes that were found in memory at the request's address.
pub proof fn law_write_delivers_the_memory(
    request: Request,
    layout: Layout,
    accepts: spec_fn(u64, u64) -> bool,
    before: Trace,
    after: Trace,
    outcome: Result<u32, ExecuteError>,
)
    requires
        request.executed(layout, accepts, before, after, outcome),
        request.request_type == RequestType::Out,
        request.data_len > 0,
        outcome.is_ok(),
    ensures
        outcome == Ok::<u32, ExecuteError>(0),
        after.ops.len() == before.ops.len() + 2,
        after.ops[before.ops.len() as int] matches DiskOp::Seek { sector, position } && sector
            == request.sector && position.is_ok(),
        after.ops.last() matches DiskOp::Write { bytes, outcome: written } && written.is_ok()
            && bytes.len() == request.data_len && after.log == before.log.push(
            Access::Load { addr: request.data_addr, bytes },
        ),
{
    let sought = after.ops.take(before.ops.len() as int + 1);
    assert(sought.last() == after.ops[before.ops.len() as int]);
}

/// A request that was taken has the head that the driver put into the available
/// ring, at the index of the next request to take, and takes that index.
pub proof fn law_request_has_the_offered_head(
    state: VringState,
    layout: Layout,
    log: Seq<Access>,
    from: nat,
    request: Request,
    head: u16,
)
    requires
        from <= log.len(),
        state.request_taken(layout, log, from, Seq::empty(), Ok((request, head))),
    ensures
        from < log.len(),
        log[from as int] matches Access::Load { addr, bytes } && addr == state.avail_slot(
            state.last_avail_idx,
        ) && bytes.len() == 2 && head == number::value(layout.order, bytes),
        head <= state.size,
        state.after_request(layout.order, log, from) == (VringState {
            last_avail_idx: queue::wrap16(state.last_avail_idx + 1),
            ..state
        }),
{
    reveal_with_fuel(VringState::request_taken, 8);
    number::lemma_byte_spans();
    if let Access::Load { addr, bytes } = log[from as int] {
        number::lemma_value_bound(layout.order, bytes);
        assert(Seq::<Seq<u8>>::empty().push(bytes)[0] == bytes);
    }
}

/// Taking a request, or failing to, reads six times at most and writes nothing,
/// whatever the driver put into the ring.
pub proof fn law_taking_only_reads(
    state: VringState,
    layout: Layout,
    log: Seq<Access>,
    from: nat,
    outcome: Result<(Request, u16), VringFault>,
)
    requires
        from <= log.len(),
        state.request_taken(layout, log, from, Seq::empty(), outcome),
    ensures
        log.len() <= from + 6,
        forall|i: int| from <= i < log.len() ==> #[trigger] log[i] is Load,
{
    reveal_with_fuel(VringState::request_taken, 8);
}

/// What the work on one request does to the ring.
proof fn lemma_round(
    round: Round,
    layout: Layout,
    accepts: spec_fn(u64, u64) -> bool,
    from: Point,
    to: Point,
    used: (u16, u32),
)
    requires
        round.leads(layout, accepts, from, to, Ok(Some(used))),
    ensures
        to.state == (VringState {
            shadow_avail_idx: to.state.shadow_avail_idx,
            last_avail_idx: queue::wrap16(from.state.last_avail_idx + 1),
            ..from.state
        }),
        from.trace.log.is_prefix_of(to.trace.log),
        from.trace.ops.is_prefix_of(to.trace.ops),
{
    let (request, head) = round.request.unwrap();
    law_request_has_the_offered_head(
        round.checked.state,
        layout,
        round.taken.trace.log,
        round.checked.trace.log.len(),
        request,
        head,
    );
    lemma_executed_adds(
        request,
        layout,
        accepts,
        round.taken.trace,
        round.work,
        round.executed,
    );
    assert(from.trace.log.is_prefix_of(round.checked.trace.log));
    assert(round.work.log.is_prefix_of(to.trace.log));
    lemma_prefixes(from.trace.log, round.checked.trace.log, round.taken.trace.log);
    lemma_prefixes(from.trace.log, round.taken.trace.log, round.work.log);
    lemma_prefixes(from.trace.log, round.work.log, to.trace.log);
}

/// Being a prefix is transitive.
pub proof fn lemma_prefixes<A>(a: Seq<A>, b: Seq<A>, c: Seq<A>)
    requires
        a.is_prefix_of(b),
        b.is_prefix_of(c),
    ensures
        a.is_prefix_of(c),
{
    assert forall|i: int| 0 <= i < a.len() implies a[i] == c[i] by {
        assert(b[i] == c[i]);
    }
    assert(a =~= c.subrange(0, a.len() as int));
}

/// Requests are taken one by one in the order in which they were offered, and
/// working on them changes nothing else of the ring.
pub proof fn law_requests_are_taken_in_order(
    run: Run,
    layout: Layout,
    accepts: spec_fn(u64, u64) -> bool,
    from: Point,
    n: int,
)
    requires
        run.goes(layout, accepts, from),
        0 <= n <= run.used.len(),
    ensures
        run.points[n].state == (VringState {
            shadow_avail_idx: run.points[n].state.shadow_avail_idx,
            last_avail_idx: queue::wrap16(from.state.last_avail_idx + n),
            ..from.state
        }),
        from.trace.log.is_prefix_of(run.points[n].trace.log),
        from.trace.ops.is_prefix_of(run.points[n].trace.ops),
    decreases n,
{
    if n > 0 {
        law_requests_are_taken_in_order(run, layout, accepts, from, n - 1);
        let round = run.rounds[n - 1];
        lemma_round(round, layout, accepts, run.points[n - 1], run.points[n], run.used[n - 1]);
        lemma_prefixes(from.trace.log, run.points[n - 1].trace.log, run.points[n].trace.log);
        lemma_prefixes(from.trace.ops, run.points[n - 1].trace.ops, run.points[n].trace.ops);
        lemma_wrap_step(from.state.last_avail_idx as int, n - 1);
    } else {
        lemma_wrap_step(from.state.last_avail_idx as int, 0);
    }
}

/// Index arithmetic goes step by step.
proof fn lemma_wrap_step(index: int, n: int)
    ensures
        queue::wrap16(queue::wrap16(index + n) + 1) == queue::wrap16(index + n + 1),
        0 <= index <= u16::MAX ==> queue::wrap16(index) == index,
{
    assert(((index + n) % 0x1_0000 + 1) % 0x1_0000 == (index + n + 1) % 0x1_0000)
        by (nonlinear_arith);
}

/// Returning requests moves only the index of the next one to return, by one for
/// each of them.
pub proof fn lemma_returned_state(
    state: VringState,
    layout: Layout,
    used: Seq<(u16, u32)>,
)
    requires
        state.returned(layout, used).outcome.is_ok(),
    ensures
        state.returned(layout, used).state == (VringState {
            next_used: queue::wrap16(state.next_used + used.len()),
            ..state
        }),
        state.returned(layout, used).accesses.len() == 4 * used.len(),
    decreases used.len(),
{
    lemma_wrap_step(state.next_used as int, used.len() - 1);
    if used.len() > 0 {
        lemma_returned_state(state, layout, used.drop_last());
    }
}

/// When requests are returned, each one in turn fills the used ring's next entry
/// with the head of its chain and its length. The ring's index moves past the
/// entry only after that, behind a fence.
pub proof fn law_entries_are_filled_in_order(
    state: VringState,
    layout: Layout,
    used: Seq<(u16, u32)>,
    k: int,
)
    requires
        state.returned(layout, used).outcome.is_ok(),
        0 <= k < used.len(),
    ensures
        state.returned(layout, used).accesses.len() == 4 * used.len(),
        state.returned(layout, used).accesses.subrange(4 * k, 4 * k + 4) == (VringState {
            next_used: queue::wrap16(state.next_used + k),
            ..state
        }).used_accesses(layout.order, used[k].0, used[k].1),
        state.returned(layout, used).state == (VringState {
            next_used: queue::wrap16(state.next_used + used.len()),
            ..state
        }),
    decreases used.len(),
{
    lemma_returned_state(state, layout, used);
    let before = state.returned(layout, used.drop_last());
    let accesses = state.returned(layout, used).accesses;
    lemma_returned_state(state, layout, used.drop_last());
    if k == used.len() - 1 {
        let last = before.state.used_accesses(layout.order, used.last().0, used.last().1);
        assert(accesses == before.accesses + last);
        assert(accesses.subrange(4 * k, 4 * k + 4) =~= last);
    } else {
        law_entries_are_filled_in_order(state, layout, used.drop_last(), k);
        assert(accesses.subrange(4 * k, 4 * k + 4) =~= before.accesses.subrange(4 * k, 4 * k + 4));
    }
}

/// After a request was returned, the driver finds the head of its chain, its
/// length and the new index in the used ring.
pub proof fn law_returned_request_is_published(
    state: VringState,
    layout: Layout,
    before: Seq<Access>,
    desc_index: u16,
    len: u32,
)
    requires
        state.used_fault(layout).is_none(),
    ensures
        ({
            let log = before + state.used_accesses(layout.order, desc_index, len);
            let n = log.len() as int;
            &&& memory::stored(
                log,
                n,
                state.used_slot(),
                number::encoded(layout.order, desc_index as nat, 4),
            )
            &&& memory::stored(
                log,
                n,
                state.used_slot() + 4,
                number::encoded(layout.order, len as nat, 4),
            )
            &&& memory::stored(
                log,
                n,
                state.table().used_addr + 2,
                number::encoded(layout.order, state.after_used().next_used as nat, 2),
            )
        }),
{
    reveal_with_fuel(memory::stored_byte, 5);
    number::lemma_encoded_len(layout.order, desc_index as nat, 4);
    number::lemma_encoded_len(layout.order, len as nat, 4);
    number::lemma_encoded_len(layout.order, state.after_used().next_used as nat, 2);
}

/// In a ring whose size divides the range of its index, requests that are
/// returned fewer than a ring's size apart go to different entries.
pub proof fn law_entries_do_not_collide(state: VringState, i: int, k: int)
    requires
        state.size > 0,
        0x1_0000int % state.size as int == 0,
        0 <= i < k < i + state.size,
    ensures
        (VringState { next_used: queue::wrap16(state.next_used + i), ..state }).used_slot() != (
        VringState { next_used: queue::wrap16(state.next_used + k), ..state }).used_slot(),
{
    let size = state.size as int;
    let a = state.next_used + i;
    let b = state.next_used + k;
    let times = 0x1_0000int / size;
    assert(0x1_0000 == size * times) by {
        vstd::arithmetic::div_mod::lemma_fundamental_div_mod(0x1_0000, size);
    }
    assert(size > 0 && times > 0) by (nonlinear_arith)
        requires
            size > 0,
            0x1_0000 == size * times,
    ;
    vstd::arithmetic::div_mod::lemma_mod_mod(a, size, times);
    vstd::arithmetic::div_mod::lemma_mod_mod(b, size, times);
    if a % size == b % size {
        vstd::arithmetic::div_mod::lemma_fundamental_div_mod(a, size);
        vstd::arithmetic::div_mod::lemma_fundamental_div_mod(b, size);
        let p = a / size;
        let q = b / size;
        assert(b - a == size * (q - p)) by (nonlinear_arith)
            requires
                a == size * p + a % size,
                b == size * q + b % size,
                a % size == b % size,
        ;
        assert(false) by (nonlinear_arith)
            requires
                0 < b - a < size,
                b - a == size * (q - p),
        ;
    }
}

/// What the first accesses stored does not depend on later ones.
proof fn lemma_stored_byte_stays(log: Seq<Access>, more: Seq<Access>, n: int, addr: int)
    requires
        0 <= n <= log.len(),
    ensures
        memory::stored_byte(log + more, n, addr) == memory::stored_byte(log, n, addr),
    decreases n,
{
    if n > 0 {
        lemma_stored_byte_stays(log, more, n - 1, addr);
    }
}

/// Bytes that returning a request does not touch stay as they were stored.
proof fn lemma_untouched_stays(
    state: VringState,
    layout: Layout,
    log: Seq<Access>,
    desc_index: u16,
    len: u32,
    addr: int,
    bytes: Seq<u8>,
)
    requires
        state.used_fault(layout).is_none(),
        memory::stored(log, log.len() as int, addr, bytes),
        state.table().used_addr + 4 <= addr,
        addr + bytes.len() <= state.used_slot() || state.used_slot() + 8 <= addr,
    ensures
        ({
            let after = log + state.used_accesses(layout.order, desc_index, len);
            memory::stored(after, after.len() as int, addr, bytes)
        }),
{
    let more = state.used_accesses(layout.order, desc_index, len);
    let after = log + more;
    number::lemma_encoded_len(layout.order, desc_index as nat, 4);
    number::lemma_encoded_len(layout.order, len as nat, 4);
    number::lemma_encoded_len(layout.order, state.after_used().next_used as nat, 2);
    assert forall|k: int| 0 <= k < bytes.len() implies #[trigger] memory::stored_byte(
        after,
        after.len() as int,
        addr + k,
    ) == Some(bytes[k]) by {
        reveal_with_fuel(memory::stored_byte, 5);
        lemma_stored_byte_stays(log, more, log.len() as int, addr + k);
        assert(memory::stored_byte(log, log.len() as int, addr + k) == Some(bytes[k]));
    }
}

/// After requests were returned, no more of them than the ring has entries, the
/// driver finds the head and the length of each of them in its own entry of the
/// used ring, and the new index. The ring's size has to divide the range of its
/// index.
pub proof fn law_returned_batch_is_published(
    state: VringState,
    layout: Layout,
    before: Seq<Access>,
    used: Seq<(u16, u32)>,
    k: int,
)
    requires
        state.returned(layout, used).outcome.is_ok(),
        used.len() <= state.size,
        0x1_0000int % state.size as int == 0,
        0 <= k < used.len(),
    ensures
        ({
            let log = before + state.returned(layout, used).accesses;
            let n = log.len() as int;
            let entry = VringState { next_used: queue::wrap16(state.next_used + k), ..state };
            &&& memory::stored(
                log,
                n,
                entry.used_slot(),
                number::encoded(layout.order, used[k].0 as nat, 4),
            )
            &&& memory::stored(
                log,
                n,
                entry.used_slot() + 4,
                number::encoded(layout.order, used[k].1 as nat, 4),
            )
            &&& memory::stored(
                log,
                n,
                state.table().used_addr + 2,
                number::encoded(
                    layout.order,
                    queue::wrap16(state.next_used + used.len()) as nat,
                    2,
                ),
            )
        }),
    decreases used.len(),
{
    let earlier = used.drop_last();
    let reached = state.returned(layout, earlier);
    let (desc_index, len) = used.last();
    lemma_returned_state(state, layout, earlier);
    lemma_returned_state(state, layout, used);
    let log = before + reached.accesses;
    let more = reached.state.used_accesses(layout.order, desc_index, len);
    assert(before + state.returned(layout, used).accesses =~= log + more);
    law_returned_request_is_published(reached.state, layout, log, desc_index, len);
    if k < used.len() - 1 {
        law_returned_batch_is_published(state, layout, before, earlier, k);
        law_entries_do_not_collide(state, k, used.len() - 1);
        let entry = VringState { next_used: queue::wrap16(state.next_used + k), ..state };
        number::lemma_encoded_len(layout.order, used[k].0 as nat, 4);
        number::lemma_encoded_len(layout.order, used[k].1 as nat, 4);
        lemma_untouched_stays(
            reached.state,
            layout,
            log,
            desc_index,
            len,
            entry.used_slot(),
            number::encoded(layout.order, used[k].0 as nat, 4),
        );
        lemma_untouched_stays(
            reached.state,
            layout,
            log,
            desc_index,
            len,
            entry.used_slot() + 4,
            number::encoded(layout.order, used[k].1 as nat, 4),
        );
    }
}

/// Working on all requests leaves none of those the driver had told of: what was
/// taken is what was returned, one for one, and the ring is empty as far as its
/// index was last read. Nothing else of the ring changes.
pub proof fn law_every_request_is_returned(
    run: Run,
    layout: Layout,
    accepts: spec_fn(u64, u64) -> bool,
    from: Point,
    to: Point,
    any: bool,
)
    requires
        run.leads(layout, accepts, from, to, Ok(any)),
    ensures
        any <==> run.used.len() > 0,
        to.state == (VringState {
            shadow_avail_idx: to.state.last_avail_idx,
            last_avail_idx: queue::wrap16(from.state.last_avail_idx + run.used.len()),
            next_used: queue::wrap16(from.state.next_used + run.used.len()),
            ..from.state
        }),
        from.trace.log.is_prefix_of(to.trace.log),
        from.trace.ops.is_prefix_of(to.trace.ops),
{
    let n = run.used.len() as int;
    law_requests_are_taken_in_order(run, layout, accepts, from, n);
    lemma_returned_state(run.stop.state, layout, run.used);
    let reached = run.points[n].trace;
    assert(reached.log.is_prefix_of(run.stop.trace.log));
    assert(run.stop.trace.log.is_prefix_of(to.trace.log));
    lemma_prefixes(from.trace.log, reached.log, run.stop.trace.log);
    lemma_prefixes(from.trace.log, run.stop.trace.log, to.trace.log);
}

/// A fault while requests are worked on returns none of them: nothing is done
/// after that work, so the used ring is not written.
pub proof fn law_fault_returns_nothing(
    run: Run,
    layout: Layout,
    accepts: spec_fn(u64, u64) -> bool,
    from: Point,
    to: Point,
    fault: VringFault,
)
    requires
        run.leads(layout, accepts, from, to, Err(fault)),
        run.end != Ok::<Option<(u16, u32)>, VringFault>(None),
    ensures
        to.state.next_used == from.state.next_used,
        to.trace == run.stop.trace,
{
    law_requests_are_taken_in_order(run, layout, accepts, from, run.used.len() as int);
}

/// A ring that was just worked on has nothing to do while the driver's index stays
/// where it is: that index is read, nothing is written, and the ring stays as it
/// is.
pub proof fn law_second_run_is_idle(
    run: Run,
    again: Run,
    layout: Layout,
    accepts: spec_fn(u64, u64) -> bool,
    from: Point,
    to: Point,
    any: bool,
    end: Point,
    result: Result<bool, VringFault>,
)
    requires
        run.leads(layout, accepts, from, to, Ok(any)),
        again.leads(layout, accepts, to, end, result),
        end.trace.log.len() > to.trace.log.len() ==> (
        end.trace.log[to.trace.log.len() as int] matches Access::Load { addr, bytes }
            ==> number::value(layout.order, bytes) as u16 == to.state.last_avail_idx),
    ensures
        result == Ok::<bool, VringFault>(false),
        end.state == to.state,
        end.trace.ops == to.trace.ops,
        queue::loads(to.trace.log, end.trace.log, to.state.table().avail_addr + 2, 2),
{
    law_every_request_is_returned(run, layout, accepts, from, to, any);
    law_requests_are_taken_in_order(run, layout, accepts, from, run.used.len() as int);
    let n = again.used.len() as int;
    let first = if n > 0 {
        again.rounds[0]
    } else {
        again.last
    };
    let at = to.trace.log.len() as int;
    if n > 0 {
        lemma_round_grows(
            first,
            layout,
            accepts,
            to,
            again.points[1],
            Ok(Some(again.used[0])),
        );
        lemma_points_grow(again, layout, accepts, to, 1, n);
        lemma_prefixes(
            first.checked.trace.log,
            again.points[1].trace.log,
            again.points[n].trace.log,
        );
    }
    lemma_round_grows(again.last, layout, accepts, again.points[n], again.stop, again.end);
    if n > 0 {
        lemma_prefixes(
            again.points[n].trace.log,
            again.last.checked.trace.log,
            again.stop.trace.log,
        );
        lemma_prefixes(
            first.checked.trace.log,
            again.points[n].trace.log,
            again.stop.trace.log,
        );
    }
    assert(again.stop.trace.log.is_prefix_of(end.trace.log));
    lemma_prefixes(first.checked.trace.log, again.stop.trace.log, end.trace.log);
    assert(first.checked.trace.log[at] == end.trace.log[at]);
    assert(n == 0);
    assert(end.trace.log =~= again.stop.trace.log);
}

/// The work on one request adds to what was done before asking for it.
proof fn lemma_round_grows(
    round: Round,
    layout: Layout,
    accepts: spec_fn(u64, u64) -> bool,
    from: Point,
    to: Point,
    result: Result<Option<(u16, u32)>, VringFault>,
)
    requires
        round.leads(layout, accepts, from, to, result),
    ensures
        from.trace.log.is_prefix_of(round.checked.trace.log),
        round.checked.trace.log.is_prefix_of(to.trace.log),
{
    assert(from.trace.log.is_prefix_of(round.checked.trace.log));
    if round.empty == Ok::<bool, VringFault>(false) && round.request.is_ok() {
        let (request, head) = round.request.unwrap();
        lemma_executed_adds(
            request,
            layout,
            accepts,
            round.taken.trace,
            round.work,
            round.executed,
        );
        assert(round.work.log.is_prefix_of(to.trace.log));
        lemma_prefixes(round.checked.trace.log, round.taken.trace.log, round.work.log);
        lemma_prefixes(round.checked.trace.log, round.work.log, to.trace.log);
    }
}

/// Each request is answered: its status lies in the record before anything is
/// returned, and it is returned under the head it was offered with.
pub proof fn law_status_comes_before_return(
    run: Run,
    layout: Layout,
    accepts: spec_fn(u64, u64) -> bool,
    from: Point,
    to: Point,
    any: bool,
    k: int,
)
    requires
        run.leads(layout, accepts, from, to, Ok(any)),
        0 <= k < run.used.len(),
    ensures
        run.rounds[k].request matches Ok((request, head)) && run.used[k] == (
            head,
            vring::used_len(run.rounds[k].executed),
        ) && exists|at: int|
            0 <= at < run.stop.trace.log.len() && #[trigger] to.trace.log[at] == (Access::Store {
                addr: request.status_addr,
                bytes: number::encoded(
                    layout.order,
                    vring::status_of(run.rounds[k].executed) as nat,
                    4,
                ),
            }),
        to.trace.log == run.stop.trace.log + run.stop.state.returned(layout, run.used).accesses,
{
    let round = run.rounds[k];
    let (request, head) = round.request.unwrap();
    let at = round.work.log.len() as int;
    lemma_points_grow(run, layout, accepts, from, k + 1, run.used.len() as int);
    let answered = run.points[k + 1].trace.log;
    let reached = run.points[run.used.len() as int].trace.log;
    assert(reached.is_prefix_of(run.stop.trace.log));
    assert(answered[at] == reached[at]);
    assert(reached[at] == run.stop.trace.log[at]);
    assert(to.trace.log[at] == run.stop.trace.log[at]);
}

/// The record only grows from one request to the next.
pub proof fn lemma_points_grow(
    run: Run,
    layout: Layout,
    accepts: spec_fn(u64, u64) -> bool,
    from: Point,
    i: int,
    j: int,
)
    requires
        run.goes(layout, accepts, from),
        0 <= i <= j <= run.used.len(),
    ensures
        run.points[i].trace.log.is_prefix_of(run.points[j].trace.log),
        run.points[i].trace.ops.is_prefix_of(run.points[j].trace.ops),
    decreases j,
{
    if i < j {
        lemma_points_grow(run, layout, accepts, from, i, j - 1);
        let round = run.rounds[j - 1];
        lemma_round(round, layout, accepts, run.points[j - 1], run.points[j], run.used[j - 1]);
        lemma_prefixes(
            run.points[i].trace.log,
            run.points[j - 1].trace.log,
            run.points[j].trace.log,
        );
        lemma_prefixes(
            run.points[i].trace.ops,
            run.points[j - 1].trace.ops,
            run.points[j].trace.ops,
        );
    }
}

} // verus!
