//! A connection in memory that delivers each message a set time after it
//! was sent, and the registry that hands such connections to a server.

use vstd::prelude::*;
use std::collections::VecDeque;
use crate::err::GgError;
use crate::network::pipe;
use crate::network::{ClientMsg, Duplex, RxChannel, Server, ServerMsg, TxChannel};

verus! {

/// Moves the envelopes that are due at `now` from the front of `queue` into `buffer`.
fn drain_ready<T>(queue: &mut VecDeque<(T, u64)>, now: u64, buffer: &mut Vec<T>)
    ensures
        final(buffer)@ == pipe::spec_delivered(old(queue)@, now),
        final(queue)@ == pipe::spec_remaining(old(queue)@, now),
{
    buffer.clear();
    let ghost pipe0 = queue@;
    let ghost mut taken: int = 0;
    loop
        invariant
            0 <= taken <= pipe0.len(),
            queue@ == pipe0.skip(taken),
            buffer@ == pipe::spec_messages(pipe0.take(taken)),
            pipe::spec_ready_count(pipe0, now) == taken + pipe::spec_ready_count(queue@, now),
        ensures
            pipe::spec_ready_count(pipe0, now) == taken,
        decreases queue@.len(),
    {
        if queue.len() == 0 {
            break ;
        }
        if queue[0].1 > now {
            break ;
        }
        let ghost before = queue@;
        match queue.pop_front() {
            Some(envelope) => {
                buffer.push(envelope.0);
                proof {
                    assert(before.skip(1) == pipe0.skip(taken + 1));
                    assert(pipe0.take(taken + 1) == pipe0.take(taken).push(pipe0[taken]));
                    taken = taken + 1;
                }
            },
            None => {
                break ;
            },
        }
    }
}

/// A reading of the simulation's clock together with a latency, such that
/// the time at which a message sent now falls due can be told.
pub struct SimClock {
    time: u64,
    latency: u64,
}

impl SimClock {
    #[verifier::type_invariant]
    closed spec fn deadline_fits(self) -> bool {
        self.time + self.latency <= u64::MAX
    }

    pub closed spec fn time(&self) -> u64 {
        self.time
    }

    pub closed spec fn latency(&self) -> u64 {
        self.latency
    }

    /// A clock that reads `time`, for connections of the latency `latency`.
    pub fn new(latency: u64, time: u64) -> (c: SimClock)
        requires
            time + latency <= u64::MAX,
        ensures
            c.time() == time,
            c.latency() == latency,
    {
        SimClock { time, latency }
    }

    pub fn get_time(&self) -> (t: u64)
        ensures
            t == self.time(),
    {
        self.time
    }

    pub fn get_latency(&self) -> (l: u64)
        ensures
            l == self.latency(),
            self.time() + l <= u64::MAX,
    {
        proof {
            use_type_invariant(self);
        }
        self.latency
    }

    pub fn set_time(&mut self, now: u64)
        requires
            now + old(self).latency() <= u64::MAX,
        ensures
            final(self).time() == now,
            final(self).latency() == old(self).latency(),
    {
        self.time = now;
    }

    /// The time at which a message sent now falls due.
    pub fn deadline(&self) -> (d: u64)
        ensures
            d == self.time() + self.latency(),
    {
        proof {
            use_type_invariant(self);
        }
        self.time + self.latency
    }
}

/// A simulated connection between two peers, as the peer that holds it sees it.
///
/// It is a pair of directed pipes. Each pipe is a queue of envelopes: a
/// message with the time on the connection's clock from which the reader may
/// see it, which is the time of sending plus the connection's latency. A
/// reader takes envelopes from the front for as long as the front one is due.
///
/// The holder sends and receives with `enqueue` and `dequeue`; what the
/// other peer does on the same connection is `peer_enqueue` and
/// `peer_dequeue`. Both work on the one clock that `set_time` sets.
pub struct SimNetworkEnd<TTx, TRx> {
    clock: SimClock,
    tx: VecDeque<(TTx, u64)>,
    rx: VecDeque<(TRx, u64)>,
}

impl<TTx, TRx> SimNetworkEnd<TTx, TRx> {
    /// The reading of the connection's clock.
    pub closed spec fn time(&self) -> u64 {
        self.clock.time()
    }

    /// The delay between sending and being seen.
    pub closed spec fn latency(&self) -> u64 {
        self.clock.latency()
    }

    /// What the holder sent and the peer has not taken yet, oldest first.
    pub closed spec fn outbound(&self) -> Seq<(TTx, u64)> {
        self.tx@
    }

    /// What the peer sent and the holder has not taken yet, oldest first.
    pub closed spec fn inbound(&self) -> Seq<(TRx, u64)> {
        self.rx@
    }

    /// A connection with nothing in flight.
    pub fn new(latency: u64, time: u64) -> (end: Self)
        requires
            time + latency <= u64::MAX,
        ensures
            end.time() == time,
            end.latency() == latency,
            end.outbound() == Seq::<(TTx, u64)>::empty(),
            end.inbound() == Seq::<(TRx, u64)>::empty(),
    {
        SimNetworkEnd {
            clock: SimClock::new(latency, time),
            tx: VecDeque::new(),
            rx: VecDeque::new(),
        }
    }

    pub fn get_time(&self) -> (t: u64)
        ensures
            t == self.time(),
    {
        self.clock.get_time()
    }

    pub fn get_latency(&self) -> (l: u64)
        ensures
            l == self.latency(),
            self.time() + l <= u64::MAX,
    {
        self.clock.get_latency()
    }

    /// Sets the connection's clock. Nothing in flight changes.
    pub fn set_time(&mut self, now: u64)
        requires
            now + old(self).latency() <= u64::MAX,
        ensures
            final(self).time() == now,
            final(self).latency() == old(self).latency(),
            final(self).outbound() == old(self).outbound(),
            final(self).inbound() == old(self).inbound(),
    {
        self.clock.set_time(now);
    }

    /// The peer sends `msg` to the holder.
    pub fn peer_enqueue(&mut self, msg: TRx)
        ensures
            final(self).inbound() == old(self).inbound().push(
                (msg, (old(self).time() + old(self).latency()) as u64),
            ),
            final(self).outbound() == old(self).outbound(),
            final(self).time() == old(self).time(),
            final(self).latency() == old(self).latency(),
            old(self).time() + old(self).latency() <= u64::MAX,
    {
        let arrival_time: u64 = self.clock.deadline();
        self.rx.push_back((msg, arrival_time));
    }

    /// The peer takes what the holder sent and is due.
    pub fn peer_dequeue(&mut self, buffer: &mut Vec<TTx>)
        ensures
            final(buffer)@ == pipe::spec_delivered(old(self).outbound(), old(self).time()),
            final(self).outbound() == pipe::spec_remaining(old(self).outbound(), old(self).time()),
            final(self).inbound() == old(self).inbound(),
            final(self).time() == old(self).time(),
            final(self).latency() == old(self).latency(),
    {
        let current_time: u64 = self.clock.get_time();
        drain_ready(&mut self.tx, current_time, buffer);
    }
}

impl<TTx, TRx> TxChannel<TTx> for SimNetworkEnd<TTx, TRx> {
    /// A simulated connection never loses its peer.
    open spec fn tx_closed(&self) -> bool {
        false
    }

    /// What the holder sent and the peer has not taken yet.
    open spec fn outgoing(&self) -> Seq<TTx> {
        pipe::spec_messages(self.outbound())
    }

    /// The message is at the back of the outbound pipe, due one latency
    /// from now; the inbound pipe and the clock are as they were.
    open spec fn sent(&self, msg: TTx, after: &Self) -> bool {
        &&& self.time() + self.latency() <= u64::MAX
        &&& after.outbound() == self.outbound().push(
            (msg, (self.time() + self.latency()) as u64),
        )
        &&& after.inbound() == self.inbound()
        &&& after.time() == self.time()
        &&& after.latency() == self.latency()
    }

    /// Puts `msg` at the back of the outbound pipe, due one latency from now.
    fn enqueue(&mut self, msg: TTx) -> (r: Result<(), GgError>)
        ensures
            r is Ok,
            final(self).outbound() == old(self).outbound().push(
                (msg, (old(self).time() + old(self).latency()) as u64),
            ),
            final(self).inbound() == old(self).inbound(),
            final(self).time() == old(self).time(),
            final(self).latency() == old(self).latency(),
            old(self).time() + old(self).latency() <= u64::MAX,
    {
        let arrival_time: u64 = self.clock.deadline();
        self.tx.push_back((msg, arrival_time));
        proof {
            pipe::lemma_nothing_lost(old(self).outbound(), msg, arrival_time, 0);
        }
        Ok(())
    }
}

impl<TTx, TRx> RxChannel<TRx> for SimNetworkEnd<TTx, TRx> {
    /// A simulated connection never loses its peer.
    open spec fn rx_closed(&self) -> bool {
        false
    }

    /// What the peer sent and is due on the connection's clock.
    open spec fn ready(&self) -> Seq<TRx> {
        pipe::spec_delivered(self.inbound(), self.time())
    }

    /// The envelopes that were due are off the inbound pipe; the outbound
    /// pipe and the clock are as they were.
    open spec fn drained(&self, after: &Self) -> bool {
        &&& after.inbound() == pipe::spec_remaining(self.inbound(), self.time())
        &&& after.outbound() == self.outbound()
        &&& after.time() == self.time()
        &&& after.latency() == self.latency()
    }

    /// Takes the envelopes that are due off the front of the inbound pipe
    /// and puts their messages, in the same order, in place of what `buffer` held.
    fn dequeue(&mut self, buffer: &mut Vec<TRx>) -> (r: Result<(), GgError>)
        ensures
            r is Ok,
            final(buffer)@ == pipe::spec_delivered(old(self).inbound(), old(self).time()),
            final(self).inbound() == pipe::spec_remaining(old(self).inbound(), old(self).time()),
            final(self).outbound() == old(self).outbound(),
            final(self).time() == old(self).time(),
            final(self).latency() == old(self).latency(),
    {
        let current_time: u64 = self.clock.get_time();
        drain_ready(&mut self.rx, current_time, buffer);
        proof {
            pipe::lemma_taken_once(old(self).inbound(), current_time);
        }
        Ok(())
    }
}

/// On the server's end of a connection, a client's message is one that the
/// peer sends.
impl TxChannel<ClientMsg> for SimNetworkEnd<ServerMsg, ClientMsg> {
    open spec fn tx_closed(&self) -> bool {
        false
    }

    /// What the client sent and the server has not taken yet.
    open spec fn outgoing(&self) -> Seq<ClientMsg> {
        pipe::spec_messages(self.inbound())
    }

    /// The client's message is at the back of the pipe that the server
    /// reads, due one latency from now; the other pipe and the clock are as
    /// they were.
    open spec fn sent(&self, msg: ClientMsg, after: &Self) -> bool {
        &&& self.time() + self.latency() <= u64::MAX
        &&& after.inbound() == self.inbound().push(
            (msg, (self.time() + self.latency()) as u64),
        )
        &&& after.outbound() == self.outbound()
        &&& after.time() == self.time()
        &&& after.latency() == self.latency()
    }

    fn enqueue(&mut self, msg: ClientMsg) -> (r: Result<(), GgError>)
        ensures
            r is Ok,
            final(self).inbound() == old(self).inbound().push(
                (msg, (old(self).time() + old(self).latency()) as u64),
            ),
            final(self).outbound() == old(self).outbound(),
            final(self).time() == old(self).time(),
            final(self).latency() == old(self).latency(),
            old(self).time() + old(self).latency() <= u64::MAX,
    {
        self.peer_enqueue(msg);
        proof {
            pipe::lemma_nothing_lost(
                old(self).inbound(),
                msg,
                (old(self).time() + old(self).latency()) as u64,
                0,
            );
        }
        Ok(())
    }
}

/// On the server's end of a connection, the client reads what the server sent.
impl RxChannel<ServerMsg> for SimNetworkEnd<ServerMsg, ClientMsg> {
    open spec fn rx_closed(&self) -> bool {
        false
    }

    /// What the server sent and is due on the connection's clock.
    open spec fn ready(&self) -> Seq<ServerMsg> {
        pipe::spec_delivered(self.outbound(), self.time())
    }

    /// The envelopes that were due are off the pipe that the server
    /// writes; the other pipe and the clock are as they were.
    open spec fn drained(&self, after: &Self) -> bool {
        &&& after.outbound() == pipe::spec_remaining(self.outbound(), self.time())
        &&& after.inbound() == self.inbound()
        &&& after.time() == self.time()
        &&& after.latency() == self.latency()
    }

    fn dequeue(&mut self, buffer: &mut Vec<ServerMsg>) -> (r: Result<(), GgError>)
        ensures
            r is Ok,
            final(buffer)@ == pipe::spec_delivered(old(self).outbound(), old(self).time()),
            final(self).outbound() == pipe::spec_remaining(old(self).outbound(), old(self).time()),
            final(self).inbound() == old(self).inbound(),
            final(self).time() == old(self).time(),
            final(self).latency() == old(self).latency(),
    {
        self.peer_dequeue(buffer);
        proof {
            pipe::lemma_taken_once(old(self).outbound(), old(self).time());
        }
        Ok(())
    }
}

impl<TTx, TRx> Duplex<TTx, TRx> for SimNetworkEnd<TTx, TRx> {
    proof fn lemma_read_keeps_sent(&self, after: &Self) {
    }

    proof fn lemma_send_keeps_ready(&self, msg: TTx, after: &Self) {
    }
}

/// For the client as for the server, the two pipes of a connection do not
/// touch each other.
impl Duplex<ClientMsg, ServerMsg> for SimNetworkEnd<ServerMsg, ClientMsg> {
    proof fn lemma_read_keeps_sent(&self, after: &Self) {
    }

    proof fn lemma_send_keeps_ready(&self, msg: ClientMsg, after: &Self) {
    }
}

/// The registry of a simulated network. It makes connections, all with the
/// same latency, and keeps each until the server asks for its new clients.
pub struct SimServer {
    clock: SimClock,
    new_clients: Vec<SimNetworkEnd<ServerMsg, ClientMsg>>,
}

impl SimServer {
    /// The clock reading that new connections start with.
    pub closed spec fn time(&self) -> u64 {
        self.clock.time()
    }

    /// The latency of the connections that the registry makes.
    pub closed spec fn latency(&self) -> u64 {
        self.clock.latency()
    }

    /// The connections that the server has not been handed yet, oldest first.
    pub closed spec fn pending(&self) -> Seq<SimNetworkEnd<ServerMsg, ClientMsg>> {
        self.new_clients@
    }

    /// A registry where no connection waits, with its clock at `time`.
    pub fn new(latency: u64, time: u64) -> (s: SimServer)
        requires
            time + latency <= u64::MAX,
        ensures
            s.time() == time,
            s.latency() == latency,
            s.pending().len() == 0,
    {
        SimServer { clock: SimClock::new(latency, time), new_clients: Vec::new() }
    }

    /// Sets the clock reading that new connections start with.
    pub fn set_time(&mut self, now: u64)
        requires
            now + old(self).latency() <= u64::MAX,
        ensures
            final(self).time() == now,
            final(self).latency() == old(self).latency(),
            final(self).pending() == old(self).pending(),
    {
        self.clock.set_time(now);
    }

    /// Makes a connection with nothing in flight and keeps it for the
    /// server. Returns its place among the connections that the next call of
    /// `get_new_clients` hands out.
    pub fn connect(&mut self) -> (place: usize)
        ensures
            place == old(self).pending().len(),
            final(self).pending().len() == place + 1,
            final(self).pending().take(place as int) == old(self).pending(),
            final(self).pending()[place as int].time() == old(self).time(),
            final(self).pending()[place as int].latency() == old(self).latency(),
            final(self).pending()[place as int].outbound() == Seq::<(ServerMsg, u64)>::empty(),
            final(self).pending()[place as int].inbound() == Seq::<(ClientMsg, u64)>::empty(),
            final(self).time() == old(self).time(),
            final(self).latency() == old(self).latency(),
    {
        let place: usize = self.new_clients.len();
        let end = SimNetworkEnd::<ServerMsg, ClientMsg>::new(
            self.clock.get_latency(),
            self.clock.get_time(),
        );
        self.new_clients.push(end);
        assert(self.new_clients@.take(place as int) == old(self).new_clients@);
        place
    }
}

impl Server<SimNetworkEnd<ServerMsg, ClientMsg>> for SimServer {
    open spec fn waiting(&self) -> Seq<SimNetworkEnd<ServerMsg, ClientMsg>> {
        self.pending()
    }

    /// Hands over every connection made since the last call, oldest first.
    fn get_new_clients(&mut self, buffer: &mut Vec<SimNetworkEnd<ServerMsg, ClientMsg>>)
        ensures
            final(buffer)@ == old(self).pending(),
            final(self).pending().len() == 0,
            final(self).time() == old(self).time(),
            final(self).latency() == old(self).latency(),
    {
        buffer.clear();
        buffer.append(&mut self.new_clients);
    }
}

} // verus!
