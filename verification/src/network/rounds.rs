//! The stepped channel driven in rounds: in each round the batch of the
//! round is handed over, then the reader takes what is ready, then a step
//! passes. Such a channel does what a pipe of envelopes with deadlines does.

use vstd::prelude::*;
use crate::network::pipe;
use crate::network::step;
use crate::network::step::{ChannelState, SimMsg};

verus! {

impl<T> ChannelState<T> {
    /// The channel after the messages of `batch` have been handed over in turn.
    pub open spec fn sent_all(self, batch: Seq<T>) -> ChannelState<T>
        decreases batch.len(),
    {
        if batch.len() == 0 {
            self
        } else {
            self.sent_all(batch.drop_last()).sent(batch.last())
        }
    }

    /// The channel at the start of round `k`, where in each round before the
    /// batch of the round was handed over, the reader took what was ready,
    /// and a step passed.
    pub open spec fn at_round(batches: Seq<Seq<T>>, latency: u32, k: nat) -> ChannelState<T>
        decreases k,
    {
        if k == 0 {
            Self::fresh(latency)
        } else {
            Self::at_round(batches, latency, (k - 1) as nat).sent_all(
                pipe::spec_batch(batches, k - 1),
            ).received().stepped()
        }
    }

    /// What the reader takes in round `k`.
    pub open spec fn taken_in_round(batches: Seq<Seq<T>>, latency: u32, k: nat) -> Seq<T> {
        Self::at_round(batches, latency, k).sent_all(pipe::spec_batch(batches, k as int)).ready()
    }

    /// The channel in round `round` as a pipe: its messages, each with the
    /// round in which the reader gets to take it.
    pub open spec fn as_pipe(self, round: nat) -> Seq<(T, u64)> {
        spec_deadlines(self.queue, round + self.delay_read)
    }

    /// The round in which a message handed over next would fall due, were it
    /// not held back any further.
    pub open spec fn horizon(self, round: nat) -> int {
        spec_end(self.queue, round + self.delay_read)
    }

    /// In round `round` a message handed over falls due one latency on.
    pub open spec fn in_step(self, round: nat) -> bool {
        &&& self.horizon(round) + self.delay_write == round + self.latency
        &&& round + self.latency <= u64::MAX
    }
}

/// The messages of `queue`, each with the round in which it falls due,
/// where the reader gets to read on in round `due`.
pub open spec fn spec_deadlines<T>(queue: Seq<SimMsg<T>>, due: int) -> Seq<(T, u64)>
    decreases queue.len(),
{
    if queue.len() == 0 {
        Seq::empty()
    } else {
        match queue[0] {
            SimMsg::Delay(d) => spec_deadlines(queue.skip(1), due + d),
            SimMsg::Msg(m) => seq![(m, due as u64)] + spec_deadlines(queue.skip(1), due),
        }
    }
}

/// The round in which the reader gets to read on behind `queue`, where it
/// gets to read on in front of it in round `due`.
pub open spec fn spec_end<T>(queue: Seq<SimMsg<T>>, due: int) -> int
    decreases queue.len(),
{
    if queue.len() == 0 {
        due
    } else {
        match queue[0] {
            SimMsg::Delay(d) => spec_end(queue.skip(1), due + d),
            SimMsg::Msg(m) => spec_end(queue.skip(1), due),
        }
    }
}

/// No message of a queue falls due before the reader gets to read on.
proof fn lemma_not_due_before<T>(queue: Seq<SimMsg<T>>, due: int)
    requires
        0 <= due,
        spec_end(queue, due) <= u64::MAX,
    ensures
        forall|i: int|
            0 <= i < spec_deadlines(queue, due).len() ==> (#[trigger] spec_deadlines(
                queue,
                due,
            )[i]).1 >= due,
    decreases queue.len(),
{
    if queue.len() > 0 {
        let rest = queue.skip(1);
        match queue[0] {
            SimMsg::Delay(d) => {
                lemma_not_due_before(rest, due + d);
                let all = spec_deadlines(queue, due);
                let tail = spec_deadlines(rest, due + d);
                assert(all == tail);
                assert forall|i: int| 0 <= i < all.len() implies (#[trigger] all[i]).1
                    >= due by {
                    assert(tail[i].1 >= due + d);
                }
            },
            SimMsg::Msg(m) => {
                lemma_end_grows(rest, due);
                lemma_not_due_before(rest, due);
                let all = spec_deadlines(queue, due);
                let tail = spec_deadlines(rest, due);
                assert(all == seq![(m, due as u64)] + tail);
                assert forall|i: int| 0 <= i < all.len() implies (#[trigger] all[i]).1
                    >= due by {
                    if i > 0 {
                        assert(all[i] == tail[i - 1]);
                    } else {
                        assert(all[0] == (m, due as u64));
                    }
                }
            },
        }
    }
}

proof fn lemma_end_grows<T>(queue: Seq<SimMsg<T>>, due: int)
    ensures
        due <= spec_end(queue, due),
    decreases queue.len(),
{
    if queue.len() > 0 {
        match queue[0] {
            SimMsg::Delay(d) => lemma_end_grows(queue.skip(1), due + d),
            SimMsg::Msg(m) => lemma_end_grows(queue.skip(1), due),
        }
    }
}

/// A message handed over goes behind the messages in the pipe, due when
/// the wait written before it is over.
proof fn lemma_sent<T>(queue: Seq<SimMsg<T>>, due: int, delay_write: u32, msg: T)
    ensures
        spec_deadlines(queue.push(SimMsg::Delay(delay_write)).push(SimMsg::Msg(msg)), due)
            == spec_deadlines(queue, due).push((msg, (spec_end(queue, due) + delay_write) as u64)),
        spec_end(queue.push(SimMsg::Delay(delay_write)).push(SimMsg::Msg(msg)), due) == spec_end(
            queue,
            due,
        ) + delay_write,
    decreases queue.len(),
{
    let longer = queue.push(SimMsg::Delay(delay_write)).push(SimMsg::Msg(msg));
    if queue.len() == 0 {
        let tail = longer.skip(1);
        assert(longer[0] == SimMsg::<T>::Delay(delay_write));
        assert(tail[0] == SimMsg::Msg(msg));
        assert(tail.skip(1) == Seq::<SimMsg<T>>::empty());
        assert(spec_deadlines(tail, due + delay_write) == seq![(msg, (due + delay_write) as u64)]
            + spec_deadlines(tail.skip(1), due + delay_write));
        assert(spec_end(tail, due + delay_write) == spec_end(tail.skip(1), due + delay_write));
        assert(spec_deadlines(longer, due) =~= Seq::<(T, u64)>::empty().push(
            (msg, (due + delay_write) as u64),
        ));
    } else {
        let rest = queue.skip(1);
        assert(longer[0] == queue[0]);
        assert(longer.skip(1) == rest.push(SimMsg::Delay(delay_write)).push(SimMsg::Msg(msg)));
        match queue[0] {
            SimMsg::Delay(d) => {
                lemma_sent(rest, due + d, delay_write, msg);
            },
            SimMsg::Msg(m) => {
                lemma_sent(rest, due, delay_write, msg);
                let last = (msg, (spec_end(queue, due) + delay_write) as u64);
                assert(spec_deadlines(longer, due) =~= (seq![(m, due as u64)] + spec_deadlines(
                    rest,
                    due,
                )).push(last));
            },
        }
    }
}

/// What the reader of the channel takes in round `round` is what the
/// reader of the pipe takes at that time, and it leaves the same behind.
proof fn lemma_received<T>(queue: Seq<SimMsg<T>>, delay_read: u32, round: nat)
    requires
        spec_end(queue, round + delay_read) <= u64::MAX,
    ensures
        step::spec_ready(queue, delay_read) == pipe::spec_delivered(
            spec_deadlines(queue, round + delay_read),
            round as u64,
        ),
        spec_deadlines(
            step::spec_rest(queue, delay_read),
            round + step::spec_wait(queue, delay_read),
        ) == pipe::spec_remaining(spec_deadlines(queue, round + delay_read), round as u64),
        spec_end(step::spec_rest(queue, delay_read), round + step::spec_wait(queue, delay_read))
            == spec_end(queue, round + delay_read),
        step::spec_wait(queue, delay_read) > 0 || step::spec_rest(queue, delay_read).len() == 0,
    decreases queue.len(),
{
    let now = round as u64;
    let seen = spec_deadlines(queue, round + delay_read);
    lemma_end_grows(queue, round + delay_read);
    if delay_read > 0 || queue.len() == 0 {
        lemma_not_due_before(queue, round + delay_read);
        assert(pipe::spec_none_due(seen, now));
        assert(seen == Seq::<(T, u64)>::empty() + seen);
        pipe::lemma_ready_count_of_due_then_not_due(Seq::<(T, u64)>::empty(), seen, now);
        assert(seen.skip(0) =~= seen);
        assert(pipe::spec_messages(seen.take(0)) =~= Seq::<T>::empty());
    } else {
        let rest = queue.skip(1);
        match queue[0] {
            SimMsg::Delay(d) => {
                lemma_received(rest, d, round);
            },
            SimMsg::Msg(m) => {
                lemma_received(rest, 0, round);
                let tail = spec_deadlines(rest, round as int);
                assert(seen == seq![(m, now)] + tail);
                assert(seen[0] == (m, now));
                assert(seen.skip(1) =~= tail);
                pipe::lemma_ready_count_bounded(tail, now);
                let n = pipe::spec_ready_count(tail, now) as int;
                assert(pipe::spec_ready_count(seen, now) == 1 + n);
                assert(seen.take(1 + n) =~= seq![(m, now)] + tail.take(n));
                assert(pipe::spec_messages(seen.take(1 + n)) =~= seq![m] + pipe::spec_messages(
                    tail.take(n),
                ));
                assert(seen.skip(1 + n) =~= tail.skip(n));
            },
        }
    }
}

/// Handing over a batch in a round puts its messages behind those in the
/// pipe, all due one latency on.
proof fn lemma_sent_all<T>(s: ChannelState<T>, batch: Seq<T>, round: nat)
    requires
        s.in_step(round),
    ensures
        s.sent_all(batch).in_step(round),
        s.sent_all(batch).delay_read == s.delay_read,
        s.sent_all(batch).latency == s.latency,
        s.sent_all(batch).as_pipe(round) == s.as_pipe(round) + pipe::spec_stamp(
            batch,
            (round + s.latency) as u64,
        ),
    decreases batch.len(),
{
    let due = (round + s.latency) as u64;
    if batch.len() == 0 {
        assert(s.as_pipe(round) + pipe::spec_stamp(batch, due) =~= s.as_pipe(round));
    } else {
        let before = s.sent_all(batch.drop_last());
        lemma_sent_all(s, batch.drop_last(), round);
        lemma_sent(before.queue, round + before.delay_read, before.delay_write, batch.last());
        assert(pipe::spec_stamp(batch, due) =~= pipe::spec_stamp(batch.drop_last(), due).push(
            (batch.last(), due),
        ));
        assert((s.as_pipe(round) + pipe::spec_stamp(batch.drop_last(), due)).push(
            (batch.last(), due),
        ) =~= s.as_pipe(round) + pipe::spec_stamp(batch, due));
    }
}

/// At the start of every round the channel is the pipe of that round.
proof fn lemma_at_round<T>(batches: Seq<Seq<T>>, latency: u32, k: nat)
    requires
        k + latency <= u64::MAX,
    ensures
        ChannelState::at_round(batches, latency, k).in_step(k),
        ChannelState::at_round(batches, latency, k).latency == latency,
        ChannelState::at_round(batches, latency, k).as_pipe(k) == pipe::spec_pipe_at_tick(
            batches,
            latency as u64,
            k,
        ),
    decreases k,
{
    if k > 0 {
        let round = (k - 1) as nat;
        lemma_at_round(batches, latency, round);
        let start = ChannelState::at_round(batches, latency, round);
        let batch = pipe::spec_batch(batches, round as int);
        lemma_sent_all(start, batch, round);
        let full = start.sent_all(batch);
        lemma_end_grows(full.queue, round + full.delay_read);
        lemma_received(full.queue, full.delay_read, round);
        let read = full.received();
        let next = read.stepped();
        assert(next == ChannelState::at_round(batches, latency, k));
        assert(read.as_pipe(round) == pipe::spec_pipe_at_tick(batches, latency as u64, k));
        if read.delay_read > 0 {
            lemma_end_grows(read.queue, round + read.delay_read);
            assert(next.as_pipe(k) == read.as_pipe(round));
        } else {
            assert(read.queue.len() == 0);
            assert(next.as_pipe(k) == read.as_pipe(round));
        }
    }
}

/// On a stepped channel with a latency of `latency` steps that is driven
/// in rounds, what the reader takes in a round is the batch that was handed
/// over `latency` rounds before, whole and in the order in which it was
/// handed over, and nothing else.
pub proof fn theorem_round_delivers_after_latency<T>(batches: Seq<Seq<T>>, latency: u32, k: nat)
    requires
        k + latency <= u64::MAX,
    ensures
        ChannelState::taken_in_round(batches, latency, k) == if k >= latency {
            pipe::spec_batch(batches, k - latency)
        } else {
            Seq::empty()
        },
{
    lemma_at_round(batches, latency, k);
    let start = ChannelState::at_round(batches, latency, k);
    let batch = pipe::spec_batch(batches, k as int);
    lemma_sent_all(start, batch, k);
    let full = start.sent_all(batch);
    lemma_end_grows(full.queue, k + full.delay_read);
    lemma_received(full.queue, full.delay_read, k);
    pipe::theorem_batch_arrives_after_latency(batches, latency as u64, k);
}

} // verus!
