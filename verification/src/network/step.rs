//! A channel in memory that delivers each message a set number of steps
//! after it was sent.

use vstd::prelude::*;
use std::collections::VecDeque;
use crate::err::GgError;
use crate::network::{ClientMsg, Duplex, RxChannel, ServerMsg, TxChannel};

verus! {

/// What travels through a `SimChannel`: a message, or the number of steps
/// that the reader has to let pass before it may read on.
pub enum SimMsg<T> {
    Msg(T),
    Delay(u32),
}

/// The messages that a reader with `delay_read` steps still to wait takes
/// off `queue` in one go.
pub open spec fn spec_ready<T>(queue: Seq<SimMsg<T>>, delay_read: u32) -> Seq<T>
    decreases queue.len(),
{
    if delay_read > 0 || queue.len() == 0 {
        Seq::empty()
    } else {
        match queue[0] {
            SimMsg::Delay(d) => spec_ready(queue.skip(1), d),
            SimMsg::Msg(m) => seq![m] + spec_ready(queue.skip(1), 0),
        }
    }
}

/// What is left of `queue` once the reader has taken what is ready.
pub open spec fn spec_rest<T>(queue: Seq<SimMsg<T>>, delay_read: u32) -> Seq<SimMsg<T>>
    decreases queue.len(),
{
    if delay_read > 0 || queue.len() == 0 {
        queue
    } else {
        match queue[0] {
            SimMsg::Delay(d) => spec_rest(queue.skip(1), d),
            SimMsg::Msg(m) => spec_rest(queue.skip(1), 0),
        }
    }
}

/// Right after the reader's turn nothing is ready.
pub proof fn lemma_nothing_ready_after<T>(queue: Seq<SimMsg<T>>, delay_read: u32)
    ensures
        spec_ready(spec_rest(queue, delay_read), spec_wait(queue, delay_read)) == Seq::<
            T,
        >::empty(),
    decreases queue.len(),
{
    if delay_read > 0 || queue.len() == 0 {
    } else {
        match queue[0] {
            SimMsg::Delay(d) => lemma_nothing_ready_after(queue.skip(1), d),
            SimMsg::Msg(m) => lemma_nothing_ready_after(queue.skip(1), 0),
        }
    }
}

/// The steps that the reader still has to wait once it has taken what is ready.
pub open spec fn spec_wait<T>(queue: Seq<SimMsg<T>>, delay_read: u32) -> u32
    decreases queue.len(),
{
    if delay_read > 0 || queue.len() == 0 {
        delay_read
    } else {
        match queue[0] {
            SimMsg::Delay(d) => spec_wait(queue.skip(1), d),
            SimMsg::Msg(m) => spec_wait(queue.skip(1), 0),
        }
    }
}

/// The messages in `queue`, without the waits between them.
pub open spec fn spec_in_flight<T>(queue: Seq<SimMsg<T>>) -> Seq<T>
    decreases queue.len(),
{
    if queue.len() == 0 {
        Seq::empty()
    } else {
        match queue.last() {
            SimMsg::Delay(d) => spec_in_flight(queue.drop_last()),
            SimMsg::Msg(m) => spec_in_flight(queue.drop_last()).push(m),
        }
    }
}

/// A stepped channel as the contracts of its operations speak of it.
pub struct ChannelState<T> {
    /// The number of steps by which the channel delays a message.
    pub latency: u32,
    /// Steps since the last message was handed over, counted up to `latency`.
    pub delay_write: u32,
    /// Steps that the reader must still let pass before it reads on.
    pub delay_read: u32,
    /// What is in flight, oldest first.
    pub queue: Seq<SimMsg<T>>,
}

impl<T> ChannelState<T> {
    /// The channel as it is made.
    pub open spec fn fresh(latency: u32) -> ChannelState<T> {
        ChannelState { latency, delay_write: latency, delay_read: 0, queue: Seq::empty() }
    }

    /// The channel after `msg` has been handed over: the message is behind
    /// everything in flight, preceded by the steps that passed since the
    /// message before it.
    pub open spec fn sent(self, msg: T) -> ChannelState<T> {
        ChannelState {
            delay_write: 0,
            queue: self.queue.push(SimMsg::Delay(self.delay_write)).push(SimMsg::Msg(msg)),
            ..self
        }
    }

    /// What the reader takes.
    pub open spec fn ready(self) -> Seq<T> {
        spec_ready(self.queue, self.delay_read)
    }

    /// The channel after the reader's turn.
    pub open spec fn received(self) -> ChannelState<T> {
        ChannelState {
            delay_read: spec_wait(self.queue, self.delay_read),
            queue: spec_rest(self.queue, self.delay_read),
            ..self
        }
    }

    /// The channel after a step.
    pub open spec fn stepped(self) -> ChannelState<T> {
        ChannelState {
            delay_write: if self.delay_write < self.latency {
                (self.delay_write + 1) as u32
            } else {
                self.delay_write
            },
            delay_read: if self.delay_read > 0 {
                (self.delay_read - 1) as u32
            } else {
                0
            },
            ..self
        }
    }
}

/// A one-way channel that holds each message back for a number of steps.
///
/// The channel is driven in rounds: `step`, then any number of `enqueue`
/// calls, then `dequeue`. A message handed over in one round comes out
/// `latency` rounds later.
pub struct SimChannel<TMsg> {
    latency: u32,
    delay_write: u32,
    delay_read: u32,
    queue: VecDeque<SimMsg<TMsg>>,
    needs_dequeue_before_step: bool,
}

impl<TMsg> SimChannel<TMsg> {
    /// The channel as the contracts speak of it.
    pub closed spec fn state(&self) -> ChannelState<TMsg> {
        ChannelState {
            latency: self.latency,
            delay_write: self.delay_write,
            delay_read: self.delay_read,
            queue: self.queue@,
        }
    }

    /// Whether `dequeue` has to be called before the next `step`.
    pub closed spec fn needs_dequeue_before_step(&self) -> bool {
        self.needs_dequeue_before_step
    }

    /// An empty channel that delivers `latency` steps after the sending.
    pub fn new(latency: u32) -> (c: SimChannel<TMsg>)
        ensures
            c.state() == ChannelState::<TMsg>::fresh(latency),
            !c.needs_dequeue_before_step(),
    {
        SimChannel {
            latency,
            delay_write: latency,
            delay_read: 0,
            queue: VecDeque::new(),
            needs_dequeue_before_step: false,
        }
    }

    /// Lets one step pass. Between two steps `dequeue` has to be called.
    pub fn step(&mut self)
        requires
            !old(self).needs_dequeue_before_step(),
        ensures
            final(self).state() == old(self).state().stepped(),
            final(self).needs_dequeue_before_step(),
    {
        if self.delay_write < self.latency {
            self.delay_write += 1;
        }
        if self.delay_read > 0 {
            self.delay_read -= 1;
        }
        self.needs_dequeue_before_step = true;
    }
}

impl<TMsg> TxChannel<TMsg> for SimChannel<TMsg> {
    /// A simulated channel never loses its peer.
    open spec fn tx_closed(&self) -> bool {
        false
    }

    /// The messages in flight.
    open spec fn outgoing(&self) -> Seq<TMsg> {
        spec_in_flight(self.state().queue)
    }

    /// The message is behind everything in flight, preceded by the steps
    /// that passed since the message before it.
    open spec fn sent(&self, msg: TMsg, after: &Self) -> bool {
        &&& after.state() == self.state().sent(msg)
        &&& after.needs_dequeue_before_step() == self.needs_dequeue_before_step()
    }

    /// Hands `msg` over: it goes behind everything in flight, preceded by
    /// the steps that passed since the message before it.
    fn enqueue(&mut self, msg: TMsg) -> (r: Result<(), GgError>)
        ensures
            r is Ok,
            final(self).state() == old(self).state().sent(msg),
            final(self).needs_dequeue_before_step() == old(self).needs_dequeue_before_step(),
    {
        self.queue.push_back(SimMsg::Delay(self.delay_write));
        self.queue.push_back(SimMsg::Msg(msg));
        proof {
            let waited = old(self).queue@.push(SimMsg::Delay(old(self).delay_write));
            assert(waited.drop_last() == old(self).queue@);
            assert(waited.last() == SimMsg::<TMsg>::Delay(old(self).delay_write));
            assert(spec_in_flight(waited) == spec_in_flight(old(self).queue@));
            assert(self.queue@.drop_last() == waited);
            assert(self.queue@.last() == SimMsg::Msg(msg));
            assert(spec_in_flight(self.queue@) == spec_in_flight(waited).push(msg));
        }
        self.delay_write = 0;
        Ok(())
    }
}

impl<TMsg> RxChannel<TMsg> for SimChannel<TMsg> {
    /// A simulated channel never loses its peer.
    open spec fn rx_closed(&self) -> bool {
        false
    }

    /// The messages that the reader may take now.
    open spec fn ready(&self) -> Seq<TMsg> {
        self.state().ready()
    }

    /// The messages that were ready are off the channel, and the channel
    /// may be stepped.
    open spec fn drained(&self, after: &Self) -> bool {
        &&& after.state() == self.state().received()
        &&& !after.needs_dequeue_before_step()
    }

    /// Replaces the contents of `buffer` with the messages that are ready.
    fn dequeue(&mut self, buffer: &mut Vec<TMsg>) -> (r: Result<(), GgError>)
        ensures
            r is Ok,
            final(buffer)@ == old(self).state().ready(),
            final(self).state() == old(self).state().received(),
            !final(self).needs_dequeue_before_step(),
    {
        buffer.clear();
        let ghost queue0 = self.queue@;
        let ghost delay0 = self.delay_read;
        loop
            invariant
                self.latency == old(self).latency,
                self.delay_write == old(self).delay_write,
                buffer@ + spec_ready(self.queue@, self.delay_read) == spec_ready(queue0, delay0),
                spec_rest(self.queue@, self.delay_read) == spec_rest(queue0, delay0),
                spec_wait(self.queue@, self.delay_read) == spec_wait(queue0, delay0),
            ensures
                self.delay_read > 0 || self.queue@.len() == 0,
            decreases self.queue@.len(),
        {
            if self.delay_read > 0 {
                break ;
            }
            let ghost before = self.queue@;
            match self.queue.pop_front() {
                Some(front) => {
                    assert(self.queue@ == before.skip(1));
                    match front {
                        SimMsg::Delay(delay) => {
                            self.delay_read = delay;
                        },
                        SimMsg::Msg(msg) => {
                            let ghost sofar = buffer@;
                            buffer.push(msg);
                            assert(buffer@ + spec_ready(self.queue@, 0) == sofar + (seq![msg]
                                + spec_ready(self.queue@, 0)));
                        },
                    }
                },
                None => {
                    break ;
                },
            }
        }
        self.needs_dequeue_before_step = false;
        proof {
            lemma_nothing_ready_after(queue0, delay0);
        }
        Ok(())
    }
}

/// A simulated connection between one client and the server: a channel in
/// each direction, with the same latency.
pub struct SimNetwork {
    up_channel: SimChannel<ClientMsg>,
    down_channel: SimChannel<ServerMsg>,
}

impl SimNetwork {
    /// The channel from the client to the server.
    pub closed spec fn up(&self) -> SimChannel<ClientMsg> {
        self.up_channel
    }

    /// The channel from the server to the client.
    pub closed spec fn down(&self) -> SimChannel<ServerMsg> {
        self.down_channel
    }

    /// A connection whose two channels deliver `latency` steps after the sending.
    pub fn new(latency: u32) -> (n: SimNetwork)
        ensures
            n.up().state() == ChannelState::<ClientMsg>::fresh(latency),
            !n.up().needs_dequeue_before_step(),
            n.down().state() == ChannelState::<ServerMsg>::fresh(latency),
            !n.down().needs_dequeue_before_step(),
    {
        SimNetwork {
            up_channel: SimChannel::<ClientMsg>::new(latency),
            down_channel: SimChannel::<ServerMsg>::new(latency),
        }
    }

    /// Lets one step pass on both channels.
    pub fn step(&mut self)
        requires
            !old(self).up().needs_dequeue_before_step(),
            !old(self).down().needs_dequeue_before_step(),
        ensures
            final(self).up().state() == old(self).up().state().stepped(),
            final(self).up().needs_dequeue_before_step(),
            final(self).down().state() == old(self).down().state().stepped(),
            final(self).down().needs_dequeue_before_step(),
    {
        self.up_channel.step();
        self.down_channel.step();
    }
}

impl TxChannel<ServerMsg> for SimNetwork {
    open spec fn tx_closed(&self) -> bool {
        false
    }

    open spec fn outgoing(&self) -> Seq<ServerMsg> {
        spec_in_flight(self.down().state().queue)
    }

    /// The message has gone into the channel down; the channel up is as it
    /// was.
    open spec fn sent(&self, msg: ServerMsg, after: &Self) -> bool {
        &&& after.up() == self.up()
        &&& after.down().state() == self.down().state().sent(msg)
        &&& after.down().needs_dequeue_before_step() == self.down().needs_dequeue_before_step()
    }

    /// The server's message goes down; the channel up is left alone.
    fn enqueue(&mut self, msg: ServerMsg) -> (r: Result<(), GgError>)
        ensures
            r is Ok,
            final(self).up() == old(self).up(),
            final(self).down().state() == old(self).down().state().sent(msg),
            final(self).down().needs_dequeue_before_step()
                == old(self).down().needs_dequeue_before_step(),
    {
        self.down_channel.enqueue(msg)
    }
}

impl TxChannel<ClientMsg> for SimNetwork {
    open spec fn tx_closed(&self) -> bool {
        false
    }

    open spec fn outgoing(&self) -> Seq<ClientMsg> {
        spec_in_flight(self.up().state().queue)
    }

    /// The message has gone into the channel up; the channel down is as it
    /// was.
    open spec fn sent(&self, msg: ClientMsg, after: &Self) -> bool {
        &&& after.down() == self.down()
        &&& after.up().state() == self.up().state().sent(msg)
        &&& after.up().needs_dequeue_before_step() == self.up().needs_dequeue_before_step()
    }

    /// The client's message goes up; the channel down is left alone.
    fn enqueue(&mut self, msg: ClientMsg) -> (r: Result<(), GgError>)
        ensures
            r is Ok,
            final(self).down() == old(self).down(),
            final(self).up().state() == old(self).up().state().sent(msg),
            final(self).up().needs_dequeue_before_step()
                == old(self).up().needs_dequeue_before_step(),
    {
        self.up_channel.enqueue(msg)
    }
}

impl RxChannel<ServerMsg> for SimNetwork {
    open spec fn rx_closed(&self) -> bool {
        false
    }

    open spec fn ready(&self) -> Seq<ServerMsg> {
        self.down().state().ready()
    }

    /// What was ready is off the channel down; the channel up is as it was.
    open spec fn drained(&self, after: &Self) -> bool {
        &&& after.up() == self.up()
        &&& after.down().state() == self.down().state().received()
        &&& !after.down().needs_dequeue_before_step()
    }

    /// The client reads what came down; the channel up is left alone.
    fn dequeue(&mut self, buffer: &mut Vec<ServerMsg>) -> (r: Result<(), GgError>)
        ensures
            r is Ok,
            final(self).up() == old(self).up(),
            final(buffer)@ == old(self).down().state().ready(),
            final(self).down().state() == old(self).down().state().received(),
            !final(self).down().needs_dequeue_before_step(),
    {
        self.down_channel.dequeue(buffer)
    }
}

impl RxChannel<ClientMsg> for SimNetwork {
    open spec fn rx_closed(&self) -> bool {
        false
    }

    open spec fn ready(&self) -> Seq<ClientMsg> {
        self.up().state().ready()
    }

    /// What was ready is off the channel up; the channel down is as it was.
    open spec fn drained(&self, after: &Self) -> bool {
        &&& after.down() == self.down()
        &&& after.up().state() == self.up().state().received()
        &&& !after.up().needs_dequeue_before_step()
    }

    /// The server reads what came up; the channel down is left alone.
    fn dequeue(&mut self, buffer: &mut Vec<ClientMsg>) -> (r: Result<(), GgError>)
        ensures
            r is Ok,
            final(self).down() == old(self).down(),
            final(buffer)@ == old(self).up().state().ready(),
            final(self).up().state() == old(self).up().state().received(),
            !final(self).up().needs_dequeue_before_step(),
    {
        self.up_channel.dequeue(buffer)
    }
}

impl Duplex<ServerMsg, ClientMsg> for SimNetwork {
    proof fn lemma_read_keeps_sent(&self, after: &Self) {
    }

    proof fn lemma_send_keeps_ready(&self, msg: ServerMsg, after: &Self) {
    }
}

impl Duplex<ClientMsg, ServerMsg> for SimNetwork {
    proof fn lemma_read_keeps_sent(&self, after: &Self) {
    }

    proof fn lemma_send_keeps_ready(&self, msg: ClientMsg, after: &Self) {
    }
}

} // verus!
