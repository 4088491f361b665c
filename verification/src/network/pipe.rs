//! The mathematics of a directed pipe: a queue of envelopes, each a message
//! with the clock reading from which its reader may see it.

use vstd::prelude::*;

verus! {

/// How many envelopes at the front of `pipe` are due at `now`: the length of
/// the longest run, from the front, of deadlines that `now` has reached.
pub open spec fn spec_ready_count<T>(pipe: Seq<(T, u64)>, now: u64) -> nat
    decreases pipe.len(),
{
    if pipe.len() == 0 || pipe[0].1 > now {
        0
    } else {
        1 + spec_ready_count(pipe.skip(1), now)
    }
}

/// The messages of `pipe` without their deadlines.
pub open spec fn spec_messages<T>(pipe: Seq<(T, u64)>) -> Seq<T> {
    Seq::new(pipe.len(), |i: int| pipe[i].0)
}

/// The messages that a reader takes off `pipe` at `now`.
pub open spec fn spec_delivered<T>(pipe: Seq<(T, u64)>, now: u64) -> Seq<T> {
    spec_messages(pipe.take(spec_ready_count(pipe, now) as int))
}

/// What a reader leaves in `pipe` at `now`.
pub open spec fn spec_remaining<T>(pipe: Seq<(T, u64)>, now: u64) -> Seq<(T, u64)> {
    pipe.skip(spec_ready_count(pipe, now) as int)
}

/// The messages of `batch`, each in an envelope due at `deadline`.
pub open spec fn spec_stamp<T>(batch: Seq<T>, deadline: u64) -> Seq<(T, u64)> {
    Seq::new(batch.len(), |i: int| (batch[i], deadline))
}

/// Every envelope of `pipe` is due at `now`.
pub open spec fn spec_all_due<T>(pipe: Seq<(T, u64)>, now: u64) -> bool {
    forall|i: int| 0 <= i < pipe.len() ==> (#[trigger] pipe[i]).1 <= now
}

/// No envelope of `pipe` is due at `now`.
pub open spec fn spec_none_due<T>(pipe: Seq<(T, u64)>, now: u64) -> bool {
    forall|i: int| 0 <= i < pipe.len() ==> (#[trigger] pipe[i]).1 > now
}

/// The deadlines of `pipe` never go down from the front to the back.
pub open spec fn spec_in_deadline_order<T>(pipe: Seq<(T, u64)>) -> bool {
    forall|i: int, j: int| 0 <= i <= j < pipe.len()
        ==> (#[trigger] pipe[i]).1 <= (#[trigger] pipe[j]).1
}

/// A reader never takes more than there is.
pub proof fn lemma_ready_count_bounded<T>(pipe: Seq<(T, u64)>, now: u64)
    ensures
        spec_ready_count(pipe, now) <= pipe.len(),
    decreases pipe.len(),
{
    if pipe.len() > 0 && pipe[0].1 <= now {
        lemma_ready_count_bounded(pipe.skip(1), now);
    }
}

/// What a reader takes is due, and what it stops at is not.
pub proof fn lemma_ready_prefix<T>(pipe: Seq<(T, u64)>, now: u64)
    ensures
        spec_ready_count(pipe, now) <= pipe.len(),
        forall|i: int| 0 <= i < spec_ready_count(pipe, now) ==> (#[trigger] pipe[i]).1 <= now,
        spec_ready_count(pipe, now) < pipe.len() ==> pipe[spec_ready_count(pipe, now) as int].1
            > now,
    decreases pipe.len(),
{
    if pipe.len() > 0 && pipe[0].1 <= now {
        let rest = pipe.skip(1);
        lemma_ready_prefix(rest, now);
        let n = spec_ready_count(pipe, now);
        assert forall|i: int| 0 <= i < n implies (#[trigger] pipe[i]).1 <= now by {
            if i > 0 {
                assert(pipe[i] == rest[i - 1]);
            }
        }
        if n < pipe.len() {
            assert(pipe[n as int] == rest[n - 1]);
        }
    }
}

/// What a reader has taken it does not find again: right after its turn,
/// nothing is ready at the same clock reading.
pub proof fn lemma_taken_once<T>(pipe: Seq<(T, u64)>, now: u64)
    ensures
        spec_ready_count(spec_remaining(pipe, now), now) == 0,
        spec_delivered(spec_remaining(pipe, now), now) == Seq::<T>::empty(),
{
    lemma_ready_prefix(pipe, now);
    let rest = spec_remaining(pipe, now);
    if rest.len() > 0 {
        assert(rest[0] == pipe[spec_ready_count(pipe, now) as int]);
    }
    assert(spec_delivered(rest, now) =~= Seq::<T>::empty());
}

/// A run of due envelopes in front of envelopes that are not due is what a
/// reader takes, whole and nothing more.
pub proof fn lemma_ready_count_of_due_then_not_due<T>(
    due: Seq<(T, u64)>,
    rest: Seq<(T, u64)>,
    now: u64,
)
    requires
        spec_all_due(due, now),
        spec_none_due(rest, now),
    ensures
        spec_ready_count(due + rest, now) == due.len(),
    decreases due.len(),
{
    let pipe = due + rest;
    if due.len() == 0 {
        assert(pipe == rest);
        if rest.len() > 0 {
            assert(rest[0].1 > now);
        }
    } else {
        assert(pipe[0] == due[0]);
        assert(pipe.skip(1) == due.skip(1) + rest);
        assert forall|i: int| 0 <= i < due.skip(1).len() implies (#[trigger] due.skip(1)[i]).1
            <= now by {
            assert(due.skip(1)[i] == due[i + 1]);
        }
        lemma_ready_count_of_due_then_not_due(due.skip(1), rest, now);
    }
}

/// Putting a message into a pipe puts it behind the messages in it; what
/// a reader takes and what it leaves are, together, what was there.
pub proof fn lemma_nothing_lost<T>(pipe: Seq<(T, u64)>, msg: T, deadline: u64, now: u64)
    ensures
        spec_messages(pipe.push((msg, deadline))) == spec_messages(pipe).push(msg),
        spec_delivered(pipe, now) + spec_messages(spec_remaining(pipe, now)) == spec_messages(
            pipe,
        ),
{
    lemma_ready_count_bounded(pipe, now);
    assert(spec_messages(pipe.push((msg, deadline))) =~= spec_messages(pipe).push(msg));
    assert(spec_delivered(pipe, now) + spec_messages(spec_remaining(pipe, now)) =~= spec_messages(
        pipe,
    ));
}

/// From a pipe in deadline order a reader takes every envelope that is
/// due, and leaves a pipe in deadline order of which none is due.
pub proof fn lemma_reader_takes_all_due<T>(pipe: Seq<(T, u64)>, now: u64)
    requires
        spec_in_deadline_order(pipe),
    ensures
        spec_all_due(pipe.take(spec_ready_count(pipe, now) as int), now),
        spec_none_due(spec_remaining(pipe, now), now),
        spec_in_deadline_order(spec_remaining(pipe, now)),
        forall|i: int|
            0 <= i < pipe.len() ==> ((#[trigger] pipe[i]).1 <= now <==> i < spec_ready_count(
                pipe,
                now,
            )),
{
    lemma_ready_prefix(pipe, now);
    let n = spec_ready_count(pipe, now) as int;
    assert forall|i: int| 0 <= i < pipe.len() implies ((#[trigger] pipe[i]).1 <= now <==> i
        < n) by {
        if i >= n && n < pipe.len() {
            assert(pipe[n].1 <= pipe[i].1);
        }
    }
    let rest = spec_remaining(pipe, now);
    assert forall|i: int| 0 <= i < rest.len() implies (#[trigger] rest[i]).1 > now by {
        assert(rest[i] == pipe[i + n]);
    }
    assert forall|i: int, j: int| 0 <= i <= j < rest.len() implies (#[trigger] rest[i]).1 <= (
    #[trigger] rest[j]).1 by {
        assert(rest[i] == pipe[i + n]);
        assert(rest[j] == pipe[j + n]);
    }
}

/// With no latency a message is seen at once. In a pipe that holds only
/// envelopes that are due, as one whose messages were all sent with no
/// latency does, a message put in with no latency is among those that the
/// reader takes next, at the same clock reading: the reader takes all that
/// the pipe held, the message last, and leaves nothing.
pub proof fn theorem_zero_latency_delivers_at_once<T>(pipe: Seq<(T, u64)>, msg: T, now: u64)
    requires
        spec_all_due(pipe, now),
    ensures
        spec_delivered(pipe.push((msg, now)), now) == spec_messages(pipe).push(msg),
        spec_remaining(pipe.push((msg, now)), now) == Seq::<(T, u64)>::empty(),
{
    let full = pipe.push((msg, now));
    assert(spec_all_due(full, now)) by {
        assert forall|i: int| 0 <= i < full.len() implies (#[trigger] full[i]).1 <= now by {
            if i < pipe.len() {
                assert(full[i] == pipe[i]);
            }
        }
    }
    assert(full + Seq::<(T, u64)>::empty() == full);
    lemma_ready_count_of_due_then_not_due(full, Seq::empty(), now);
    assert(full.take(full.len() as int) == full);
    lemma_nothing_lost(pipe, msg, now, now);
}

/// What happens on a pipe: a message is sent, the clock is set, or the
/// reader takes what is due.
pub enum PipeOp<T> {
    Send(T),
    SetTime(u64),
    Receive,
}

/// A pipe with its clock and its history: everything ever sent through it
/// and everything that the reader ever took, both in order.
pub struct PipeHistory<T> {
    pub pipe: Seq<(T, u64)>,
    pub now: u64,
    pub sent: Seq<T>,
    pub received: Seq<T>,
}

/// The pipe and its history after `op`, on a pipe of the given latency.
pub open spec fn spec_step<T>(latency: u64, h: PipeHistory<T>, op: PipeOp<T>) -> PipeHistory<T> {
    match op {
        PipeOp::Send(msg) => PipeHistory {
            pipe: h.pipe.push((msg, (h.now + latency) as u64)),
            sent: h.sent.push(msg),
            ..h
        },
        PipeOp::SetTime(now) => PipeHistory { now, ..h },
        PipeOp::Receive => PipeHistory {
            pipe: spec_remaining(h.pipe, h.now),
            received: h.received + spec_delivered(h.pipe, h.now),
            ..h
        },
    }
}

/// The pipe and its history after `ops`, on a pipe of the given latency
/// that starts empty with its clock at `start`.
pub open spec fn spec_run<T>(latency: u64, start: u64, ops: Seq<PipeOp<T>>) -> PipeHistory<T>
    decreases ops.len(),
{
    if ops.len() == 0 {
        PipeHistory { pipe: Seq::empty(), now: start, sent: Seq::empty(), received: Seq::empty() }
    } else {
        spec_step(latency, spec_run(latency, start, ops.drop_last()), ops.last())
    }
}

/// The clock never goes back in `ops`, and no deadline goes beyond the
/// largest clock reading.
pub open spec fn spec_clock_keeps_on<T>(latency: u64, start: u64, ops: Seq<PipeOp<T>>) -> bool
    decreases ops.len(),
{
    if ops.len() == 0 {
        start + latency <= u64::MAX
    } else {
        &&& spec_clock_keeps_on(latency, start, ops.drop_last())
        &&& ops.last() matches PipeOp::SetTime(now) ==> {
            &&& spec_run(latency, start, ops.drop_last()).now <= now
            &&& now + latency <= u64::MAX
        }
    }
}

/// Whatever is sent through a pipe and whenever the reader takes, the
/// reader gets the messages that were sent, in the order in which they were
/// sent, none twice and none in place of another: what it has taken so far
/// and what the pipe still holds are, together, what was sent.
pub proof fn theorem_reader_gets_what_was_sent<T>(latency: u64, start: u64, ops: Seq<PipeOp<T>>)
    ensures
        spec_run(latency, start, ops).received + spec_messages(spec_run(latency, start, ops).pipe)
            == spec_run(latency, start, ops).sent,
    decreases ops.len(),
{
    if ops.len() > 0 {
        theorem_reader_gets_what_was_sent(latency, start, ops.drop_last());
        lemma_step_keeps_messages(latency, spec_run(latency, start, ops.drop_last()), ops.last());
    } else {
        assert(spec_run(latency, start, ops).received + spec_messages(
            spec_run(latency, start, ops).pipe,
        ) =~= spec_run(latency, start, ops).sent);
    }
}

/// On a pipe whose clock never goes back, every message is held back for
/// the latency and no longer than until the reader's next turn: the pipe is
/// in deadline order, no deadline is later than the clock reading plus the
/// latency, and right after the reader's turn nothing that is due is left.
pub proof fn theorem_each_message_waits_its_latency<T>(
    latency: u64,
    start: u64,
    ops: Seq<PipeOp<T>>,
)
    requires
        spec_clock_keeps_on(latency, start, ops),
    ensures
        spec_in_deadline_order(spec_run(latency, start, ops).pipe),
        forall|i: int|
            0 <= i < spec_run(latency, start, ops).pipe.len() ==> (#[trigger] spec_run(
                latency,
                start,
                ops,
            ).pipe[i]).1 <= spec_run(latency, start, ops).now + latency,
        spec_run(latency, start, ops).now + latency <= u64::MAX,
        ops.len() > 0 && ops.last() is Receive ==> spec_none_due(
            spec_run(latency, start, ops).pipe,
            spec_run(latency, start, ops).now,
        ),
        ops.len() > 0 && ops.last() is Receive ==> spec_all_due(
            spec_run(latency, start, ops.drop_last()).pipe.take(
                spec_ready_count(
                    spec_run(latency, start, ops.drop_last()).pipe,
                    spec_run(latency, start, ops.drop_last()).now,
                ) as int,
            ),
            spec_run(latency, start, ops.drop_last()).now,
        ),
    decreases ops.len(),
{
    if ops.len() > 0 {
        theorem_each_message_waits_its_latency(latency, start, ops.drop_last());
        let before = spec_run(latency, start, ops.drop_last());
        let after = spec_run(latency, start, ops);
        match ops.last() {
            PipeOp::Send(msg) => {
                assert forall|i: int, j: int| 0 <= i <= j < after.pipe.len() implies (
                #[trigger] after.pipe[i]).1 <= (#[trigger] after.pipe[j]).1 by {
                    if j < before.pipe.len() {
                        assert(after.pipe[i] == before.pipe[i]);
                        assert(after.pipe[j] == before.pipe[j]);
                    } else if i < before.pipe.len() {
                        assert(after.pipe[i] == before.pipe[i]);
                    }
                }
                assert forall|i: int| 0 <= i < after.pipe.len() implies (#[trigger] after.pipe[i]).1
                    <= after.now + latency by {
                    if i < before.pipe.len() {
                        assert(after.pipe[i] == before.pipe[i]);
                    }
                }
            },
            PipeOp::SetTime(now) => {
                assert forall|i: int| 0 <= i < after.pipe.len() implies (#[trigger] after.pipe[i]).1
                    <= after.now + latency by {
                    assert(after.pipe[i] == before.pipe[i]);
                }
            },
            PipeOp::Receive => {
                lemma_reader_takes_all_due(before.pipe, before.now);
                lemma_ready_count_bounded(before.pipe, before.now);
                let n = spec_ready_count(before.pipe, before.now) as int;
                assert forall|i: int| 0 <= i < after.pipe.len() implies (#[trigger] after.pipe[i]).1
                    <= after.now + latency by {
                    assert(after.pipe[i] == before.pipe[i + n]);
                }
            },
        }
    }
}

/// With no latency, whatever was sent before is taken by the reader's next
/// turn, whenever that comes: on a pipe without latency whose clock never
/// goes back, a message that is sent and the reader's turn that follows,
/// with no step of the clock between the two, give the reader all that the
/// pipe held, and the message last.
pub proof fn theorem_zero_latency<T>(start: u64, ops: Seq<PipeOp<T>>, msg: T)
    requires
        spec_clock_keeps_on(0, start, ops),
    ensures
        ({
            let before = spec_run(0, start, ops);
            let after = spec_run(0, start, ops.push(PipeOp::Send(msg)).push(PipeOp::Receive));
            &&& after.received == before.received + spec_messages(before.pipe).push(msg)
            &&& after.received == after.sent
            &&& after.pipe == Seq::<(T, u64)>::empty()
        }),
{
    let before = spec_run(0, start, ops);
    let sending = ops.push(PipeOp::Send(msg));
    let both = sending.push(PipeOp::Receive);
    assert(sending.drop_last() == ops);
    assert(both.drop_last() == sending);
    theorem_each_message_waits_its_latency(0, start, ops);
    assert(spec_all_due(before.pipe, before.now));
    theorem_zero_latency_delivers_at_once(before.pipe, msg, before.now);
    theorem_reader_gets_what_was_sent(0, start, both);
    let mid = spec_run(0, start, sending);
    let after = spec_run(0, start, both);
    assert(mid == spec_step(0, before, PipeOp::Send(msg)));
    assert(after == spec_step(0, mid, PipeOp::Receive));
    assert(mid.pipe == before.pipe.push((msg, before.now)));
    assert(spec_messages(after.pipe) =~= Seq::<T>::empty());
    assert(after.received + Seq::<T>::empty() =~= after.received);
}

/// What happens on a connection: a pipe in each direction, `up` and `down`,
/// on one clock.
pub enum LinkOp<Up, Down> {
    SendUp(Up),
    SendDown(Down),
    SetTime(u64),
    ReceiveUp,
    ReceiveDown,
}

/// What `op` is for the pipe up: nothing, where it is about the pipe down.
pub open spec fn spec_up<Up, Down>(op: LinkOp<Up, Down>) -> Option<PipeOp<Up>> {
    match op {
        LinkOp::SendUp(msg) => Some(PipeOp::Send(msg)),
        LinkOp::SetTime(now) => Some(PipeOp::SetTime(now)),
        LinkOp::ReceiveUp => Some(PipeOp::Receive),
        _ => None,
    }
}

/// What `op` is for the pipe down: nothing, where it is about the pipe up.
pub open spec fn spec_down<Up, Down>(op: LinkOp<Up, Down>) -> Option<PipeOp<Down>> {
    match op {
        LinkOp::SendDown(msg) => Some(PipeOp::Send(msg)),
        LinkOp::SetTime(now) => Some(PipeOp::SetTime(now)),
        LinkOp::ReceiveDown => Some(PipeOp::Receive),
        _ => None,
    }
}

/// The two pipes of a connection, with their histories, after `ops`.
pub open spec fn spec_run_link<Up, Down>(
    latency: u64,
    start: u64,
    ops: Seq<LinkOp<Up, Down>>,
) -> (PipeHistory<Up>, PipeHistory<Down>)
    decreases ops.len(),
{
    if ops.len() == 0 {
        (
            PipeHistory {
                pipe: Seq::empty(),
                now: start,
                sent: Seq::empty(),
                received: Seq::empty(),
            },
            PipeHistory {
                pipe: Seq::empty(),
                now: start,
                sent: Seq::empty(),
                received: Seq::empty(),
            },
        )
    } else {
        let before = spec_run_link(latency, start, ops.drop_last());
        (
            match spec_up(ops.last()) {
                Some(op) => spec_step(latency, before.0, op),
                None => before.0,
            },
            match spec_down(ops.last()) {
                Some(op) => spec_step(latency, before.1, op),
                None => before.1,
            },
        )
    }
}

/// On a connection each direction gets its own messages through, whatever
/// happens in the other: for sends and reader's turns on both pipes in any
/// order, what the reader of a pipe has taken and what the pipe still holds
/// are, together, what was sent through that pipe, in the order of sending.
pub proof fn theorem_connection_keeps_both_directions<Up, Down>(
    latency: u64,
    start: u64,
    ops: Seq<LinkOp<Up, Down>>,
)
    ensures
        ({
            let (up, down) = spec_run_link(latency, start, ops);
            &&& up.received + spec_messages(up.pipe) == up.sent
            &&& down.received + spec_messages(down.pipe) == down.sent
            &&& up.now == down.now
        }),
    decreases ops.len(),
{
    let (up, down) = spec_run_link(latency, start, ops);
    if ops.len() == 0 {
        assert(up.received + spec_messages(up.pipe) =~= up.sent);
        assert(down.received + spec_messages(down.pipe) =~= down.sent);
    } else {
        theorem_connection_keeps_both_directions(latency, start, ops.drop_last());
        let before = spec_run_link(latency, start, ops.drop_last());
        match spec_up(ops.last()) {
            Some(op) => lemma_step_keeps_messages(latency, before.0, op),
            None => {},
        }
        match spec_down(ops.last()) {
            Some(op) => lemma_step_keeps_messages(latency, before.1, op),
            None => {},
        }
    }
}

/// One more send, step of the clock or reader's turn leaves a pipe's
/// history complete.
pub proof fn lemma_step_keeps_messages<T>(latency: u64, before: PipeHistory<T>, op: PipeOp<T>)
    requires
        before.received + spec_messages(before.pipe) == before.sent,
    ensures
        spec_step(latency, before, op).received + spec_messages(
            spec_step(latency, before, op).pipe,
        ) == spec_step(latency, before, op).sent,
{
    let after = spec_step(latency, before, op);
    match op {
        PipeOp::Send(msg) => {
            lemma_nothing_lost(before.pipe, msg, (before.now + latency) as u64, before.now);
            assert(after.received + spec_messages(after.pipe) =~= after.sent);
        },
        PipeOp::SetTime(now) => {},
        PipeOp::Receive => {
            lemma_nothing_lost(before.pipe, arbitrary(), 0, before.now);
            assert(after.received + spec_messages(after.pipe) =~= before.received + (
            spec_delivered(before.pipe, before.now) + spec_messages(
                spec_remaining(before.pipe, before.now),
            )));
        },
    }
}

/// The messages sent in tick `k`: the `k`-th batch, and none once the
/// batches have run out.
pub open spec fn spec_batch<T>(batches: Seq<Seq<T>>, k: int) -> Seq<T> {
    if 0 <= k < batches.len() {
        batches[k]
    } else {
        Seq::empty()
    }
}

/// A pipe driven in ticks, as it is when tick `k` starts. The clock reads
/// `k` in tick `k`. In each tick the batch of the tick is sent, then the
/// reader takes what is due, then the clock goes on by one.
pub open spec fn spec_pipe_at_tick<T>(batches: Seq<Seq<T>>, latency: u64, k: nat) -> Seq<(T, u64)>
    decreases k,
{
    if k == 0 {
        Seq::empty()
    } else {
        spec_remaining(
            spec_pipe_at_tick(batches, latency, (k - 1) as nat) + spec_stamp(
                spec_batch(batches, k - 1),
                (k - 1 + latency) as u64,
            ),
            (k - 1) as u64,
        )
    }
}

/// What the reader takes in tick `k` of a pipe driven in ticks.
pub open spec fn spec_taken_in_tick<T>(batches: Seq<Seq<T>>, latency: u64, k: nat) -> Seq<T> {
    spec_delivered(
        spec_pipe_at_tick(batches, latency, k) + spec_stamp(
            spec_batch(batches, k as int),
            (k + latency) as u64,
        ),
        k as u64,
    )
}

/// The batches of the ticks from `lo` up to but not including `hi`, each
/// stamped with the deadline of its tick.
pub open spec fn spec_window<T>(batches: Seq<Seq<T>>, latency: u64, lo: int, hi: int) -> Seq<
    (T, u64),
>
    decreases hi - lo,
{
    if lo >= hi {
        Seq::empty()
    } else {
        spec_stamp(spec_batch(batches, lo), (lo + latency) as u64) + spec_window(
            batches,
            latency,
            lo + 1,
            hi,
        )
    }
}

proof fn lemma_window_grows<T>(batches: Seq<Seq<T>>, latency: u64, lo: int, hi: int)
    requires
        lo <= hi,
    ensures
        spec_window(batches, latency, lo, hi) + spec_stamp(
            spec_batch(batches, hi),
            (hi + latency) as u64,
        ) == spec_window(batches, latency, lo, hi + 1),
    decreases hi - lo,
{
    let last = spec_stamp(spec_batch(batches, hi), (hi + latency) as u64);
    if lo == hi {
        assert(spec_window(batches, latency, hi + 1, hi + 1) == Seq::<(T, u64)>::empty());
        assert(spec_window(batches, latency, lo, hi) + last =~= last + Seq::<(T, u64)>::empty());
    } else {
        lemma_window_grows(batches, latency, lo + 1, hi);
        let first = spec_stamp(spec_batch(batches, lo), (lo + latency) as u64);
        assert((first + spec_window(batches, latency, lo + 1, hi)) + last =~= first + (
        spec_window(batches, latency, lo + 1, hi) + last));
    }
}

proof fn lemma_window_not_due<T>(batches: Seq<Seq<T>>, latency: u64, lo: int, hi: int, now: u64)
    requires
        0 <= lo,
        hi + latency <= u64::MAX + 1,
        lo + latency > now,
    ensures
        spec_none_due(spec_window(batches, latency, lo, hi), now),
    decreases hi - lo,
{
    if lo < hi {
        lemma_window_not_due(batches, latency, lo + 1, hi, now);
        let first = spec_stamp(spec_batch(batches, lo), (lo + latency) as u64);
        let rest = spec_window(batches, latency, lo + 1, hi);
        let all = first + rest;
        assert forall|i: int| 0 <= i < all.len() implies (#[trigger] all[i]).1 > now by {
            if i < first.len() {
                assert(all[i] == first[i]);
            } else {
                assert(all[i] == rest[i - first.len()]);
            }
        }
    }
}

proof fn lemma_pipe_at_tick<T>(batches: Seq<Seq<T>>, latency: u64, k: nat)
    requires
        k + latency <= u64::MAX,
    ensures
        spec_pipe_at_tick(batches, latency, k) == spec_window(
            batches,
            latency,
            if k >= latency {
                k - latency
            } else {
                0
            },
            k as int,
        ),
        spec_taken_in_tick(batches, latency, k) == if k >= latency {
            spec_batch(batches, k - latency)
        } else {
            Seq::empty()
        },
        spec_remaining(
            spec_pipe_at_tick(batches, latency, k) + spec_stamp(
                spec_batch(batches, k as int),
                (k + latency) as u64,
            ),
            k as u64,
        ) == spec_window(
            batches,
            latency,
            if k + 1 >= latency {
                k + 1 - latency
            } else {
                0
            },
            k as int + 1,
        ),
    decreases k,
{
    if k > 0 {
        lemma_pipe_at_tick(batches, latency, (k - 1) as nat);
    }
    let lo: int = if k >= latency {
        k - latency
    } else {
        0
    };
    let now = k as u64;
    assert(spec_pipe_at_tick(batches, latency, k) == spec_window(batches, latency, lo, k as int));
    lemma_window_grows(batches, latency, lo, k as int);
    let in_tick = spec_window(batches, latency, lo, k as int + 1);
    if k >= latency {
        let due = spec_stamp(spec_batch(batches, lo), (lo + latency) as u64);
        let rest = spec_window(batches, latency, lo + 1, k as int + 1);
        assert(in_tick == due + rest);
        lemma_window_not_due(batches, latency, lo + 1, k as int + 1, now);
        assert(spec_all_due(due, now));
        lemma_ready_count_of_due_then_not_due(due, rest, now);
        assert(in_tick.take(due.len() as int) =~= due);
        assert(in_tick.skip(due.len() as int) =~= rest);
        assert(spec_messages(due) =~= spec_batch(batches, lo));
    } else {
        lemma_window_not_due(batches, latency, lo, k as int + 1, now);
        assert(in_tick == Seq::<(T, u64)>::empty() + in_tick);
        lemma_ready_count_of_due_then_not_due(Seq::<(T, u64)>::empty(), in_tick, now);
        assert(in_tick.skip(0) =~= in_tick);
        assert(spec_messages(in_tick.take(0)) =~= Seq::<T>::empty());
    }
}

/// On a pipe with a latency of `latency` ticks that is driven in ticks,
/// what the reader takes in a tick is the batch that was sent `latency`
/// ticks before, whole and in the order in which it was sent, and nothing
/// else. So a message sent in tick `t` is not taken in any of the ticks from
/// `t` to `t + latency - 1`, and is taken in tick `t + latency`.
pub proof fn theorem_batch_arrives_after_latency<T>(batches: Seq<Seq<T>>, latency: u64, k: nat)
    requires
        k + latency <= u64::MAX,
    ensures
        spec_taken_in_tick(batches, latency, k) == if k >= latency {
            spec_batch(batches, k - latency)
        } else {
            Seq::empty()
        },
{
    lemma_pipe_at_tick(batches, latency, k);
}

} // verus!
