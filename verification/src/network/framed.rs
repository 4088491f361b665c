//! The transport over a byte stream: how messages are framed on the wire,
//! and the hand-over between the game loop and the two workers that serve a
//! connection.

use vstd::prelude::*;
use std::collections::VecDeque;
use byteorder::{BigEndian, ReadBytesExt, WriteBytesExt};
use crate::err::GgError;
use crate::network::{ClientMsg, Duplex, RxChannel, Server, ServerMsg, TxChannel};

verus! {

/// Number of bytes of the length that goes before every message on the wire.
pub const PREFIX_LEN: usize = 4;

/// The four bytes of `n`, most significant first.
pub open spec fn spec_be_bytes(n: u32) -> Seq<u8> {
    seq![
        (n / 0x100_0000) as u8,
        ((n / 0x1_0000) % 0x100) as u8,
        ((n / 0x100) % 0x100) as u8,
        (n % 0x100) as u8,
    ]
}

/// The number whose four bytes, most significant first, `bytes` starts with.
pub open spec fn spec_be_u32(bytes: Seq<u8>) -> u32 {
    (bytes[0] * 0x100_0000 + bytes[1] * 0x1_0000 + bytes[2] * 0x100 + bytes[3]) as u32
}

/// A message as it goes over the wire: its length in four bytes, most
/// significant first, and then the message.
pub open spec fn spec_frame(payload: Seq<u8>) -> Seq<u8> {
    spec_be_bytes(payload.len() as u32) + payload
}

/// The message of the frame at the front of `stream` and what follows the
/// frame, where the stream holds a whole frame.
pub open spec fn spec_parse(stream: Seq<u8>) -> Option<(Seq<u8>, Seq<u8>)> {
    if stream.len() < PREFIX_LEN {
        None
    } else {
        let announced = spec_be_u32(stream);
        if stream.len() < PREFIX_LEN + announced {
            None
        } else {
            Some(
                (
                    stream.subrange(PREFIX_LEN as int, PREFIX_LEN + announced),
                    stream.skip(PREFIX_LEN + announced),
                ),
            )
        }
    }
}

/// The messages of the whole frames at the front of `stream`, in order.
pub open spec fn spec_frames(stream: Seq<u8>) -> Seq<Seq<u8>>
    decreases stream.len(),
{
    match spec_parse(stream) {
        Some((payload, rest)) => if rest.len() < stream.len() {
            seq![payload] + spec_frames(rest)
        } else {
            Seq::empty()
        },
        None => Seq::empty(),
    }
}

/// What is left of `stream` behind the whole frames at its front.
pub open spec fn spec_left(stream: Seq<u8>) -> Seq<u8>
    decreases stream.len(),
{
    match spec_parse(stream) {
        Some((payload, rest)) => if rest.len() < stream.len() {
            spec_left(rest)
        } else {
            stream
        },
        None => stream,
    }
}

/// The bytes of each of `frames`.
pub open spec fn spec_contents(frames: Seq<Vec<u8>>) -> Seq<Seq<u8>> {
    Seq::new(frames.len(), |i: int| frames[i]@)
}

/// Reading back the four bytes of a number gives the number.
pub proof fn lemma_be_round_trip(n: u32)
    ensures
        spec_be_bytes(n).len() == 4,
        spec_be_u32(spec_be_bytes(n)) == n,
{
}

/// A message that is framed and read back is the message: where the frame
/// of a message stands at the front of a stream, the receiver finds the
/// message and, behind it, what followed the frame. This holds of every
/// message that four bytes of length can tell.
pub proof fn theorem_frame_round_trip(payload: Seq<u8>, rest: Seq<u8>)
    requires
        payload.len() <= u32::MAX,
    ensures
        spec_parse(spec_frame(payload) + rest) == Some((payload, rest)),
{
    let n = payload.len() as u32;
    let stream = spec_frame(payload) + rest;
    lemma_be_round_trip(n);
    assert(stream[0] == spec_be_bytes(n)[0]);
    assert(stream[1] == spec_be_bytes(n)[1]);
    assert(stream[2] == spec_be_bytes(n)[2]);
    assert(stream[3] == spec_be_bytes(n)[3]);
    assert(spec_be_u32(stream) == n);
    assert(stream.subrange(PREFIX_LEN as int, PREFIX_LEN + n) =~= payload);
    assert(stream.skip(PREFIX_LEN + n) =~= rest);
}

/// Appends the four bytes of `length`, most significant first, to `out`.
///
/// Calls `byteorder::WriteBytesExt::write_u32` with `byteorder::BigEndian` on
/// the vector. The contract claims that the vector then ends in those four
/// bytes: the vector is a writer that takes every byte it is given.
#[verifier::external_body]
fn write_length(out: &mut Vec<u8>, length: u32)
    ensures
        final(out)@ == old(out)@ + spec_be_bytes(length),
{
    let _ = out.write_u32::<BigEndian>(length);
}

/// Reads the number that the first four bytes of `bytes` hold, most
/// significant first.
///
/// Calls `byteorder::ReadBytesExt::read_u32` with `byteorder::BigEndian` on
/// the bytes as a reader. The contract claims that the call gives that
/// number where there are four bytes to read, and fails where there are not.
#[verifier::external_body]
fn read_length(bytes: &Vec<u8>) -> (length: Option<u32>)
    ensures
        length == if bytes@.len() >= 4 {
            Some(spec_be_u32(bytes@))
        } else {
            None
        },
{
    let mut reader: &[u8] = &bytes[..];
    reader.read_u32::<BigEndian>().ok()
}

/// Frames a message for the wire. Fails exactly when the message is longer
/// than four bytes of length can tell.
pub fn frame(payload: &Vec<u8>) -> (r: Result<Vec<u8>, GgError>)
    ensures
        match r {
            Ok(bytes) => payload@.len() <= u32::MAX && bytes@ == spec_frame(payload@),
            Err(e) => payload@.len() > u32::MAX && e.reason() == "message too long"@,
        },
{
    if payload.len() > u32::MAX as usize {
        return Err(GgError::new("message too long"));
    }
    let mut bytes: Vec<u8> = Vec::new();
    write_length(&mut bytes, payload.len() as u32);
    let mut i: usize = 0;
    while i < payload.len()
        invariant
            i <= payload@.len(),
            payload@.len() <= u32::MAX,
            bytes@ == spec_be_bytes(payload@.len() as u32) + payload@.take(i as int),
        decreases payload@.len() - i,
    {
        bytes.push(payload[i]);
        assert(payload@.take(i as int + 1) == payload@.take(i as int).push(payload@[i as int]));
        i += 1;
    }
    assert(payload@.take(i as int) == payload@);
    Ok(bytes)
}

/// The bytes that a connection has received and not yet made into messages.
pub struct FrameBuffer {
    bytes: Vec<u8>,
}

impl FrameBuffer {
    /// The bytes received and not yet taken as frames.
    pub closed spec fn stream(&self) -> Seq<u8> {
        self.bytes@
    }

    /// A buffer that holds no bytes.
    pub fn new() -> (b: FrameBuffer)
        ensures
            b.stream() == Seq::<u8>::empty(),
    {
        FrameBuffer { bytes: Vec::new() }
    }

    /// Puts the bytes `data`, as they came from the connection, behind
    /// those received before.
    pub fn push(&mut self, data: &Vec<u8>)
        ensures
            final(self).stream() == old(self).stream() + data@,
    {
        let mut i: usize = 0;
        while i < data.len()
            invariant
                i <= data@.len(),
                self.stream() == old(self).stream() + data@.take(i as int),
            decreases data@.len() - i,
        {
            self.bytes.push(data[i]);
            assert(data@.take(i as int + 1) == data@.take(i as int).push(data@[i as int]));
            i += 1;
        }
        assert(data@.take(i as int) == data@);
    }

    /// Takes the message of the frame at the front of the stream, if a
    /// whole frame is there; the stream is left as it is where none is.
    pub fn next_frame(&mut self) -> (r: Option<Vec<u8>>)
        ensures
            match spec_parse(old(self).stream()) {
                Some((payload, rest)) => r matches Some(p) && p@ == payload
                    && final(self).stream() == rest,
                None => r is None && final(self).stream() == old(self).stream(),
            },
    {
        let announced: u32 = match read_length(&self.bytes) {
            Some(n) => n,
            None => {
                return None;
            },
        };
        if self.bytes.len() - PREFIX_LEN < announced as usize {
            return None;
        }
        let end: usize = PREFIX_LEN + announced as usize;
        let rest = self.bytes.split_off(end);
        let payload = self.bytes.split_off(PREFIX_LEN);
        self.bytes = rest;
        Some(payload)
    }

    /// Takes the messages of all the whole frames at the front of the
    /// stream, in order.
    pub fn take_frames(&mut self) -> (frames: Vec<Vec<u8>>)
        ensures
            spec_contents(frames@) == spec_frames(old(self).stream()),
            final(self).stream() == spec_left(old(self).stream()),
    {
        let mut frames: Vec<Vec<u8>> = Vec::new();
        let ghost start = self.stream();
        proof {
            assert(spec_contents(frames@) =~= Seq::<Seq<u8>>::empty());
            assert(Seq::<Seq<u8>>::empty() + spec_frames(start) =~= spec_frames(start));
        }
        loop
            invariant
                start == old(self).stream(),
                spec_contents(frames@) + spec_frames(self.stream()) == spec_frames(start),
                spec_left(self.stream()) == spec_left(start),
            decreases self.stream().len(),
        {
            let ghost before = self.stream();
            let ghost sofar = spec_contents(frames@);
            match self.next_frame() {
                None => {
                    proof {
                        assert(spec_frames(before) == Seq::<Seq<u8>>::empty());
                        assert(sofar + Seq::<Seq<u8>>::empty() =~= sofar);
                    }
                    return frames;
                },
                Some(payload) => {
                    frames.push(payload);
                    proof {
                        assert(self.stream().len() < before.len());
                        assert(spec_contents(frames@) =~= sofar.push(payload@));
                        assert(sofar.push(payload@) + spec_frames(self.stream()) =~= sofar + (
                        seq![payload@] + spec_frames(self.stream())));
                    }
                },
            }
        }
    }
}

/// One end of a connection over a byte stream, as the game loop and the
/// connection's two workers share it.
///
/// The game loop hands messages over with `enqueue` and takes them with
/// `dequeue`; neither waits. The transmit worker takes the messages to send
/// with `next_outbound`, the receive worker hands in those that came with
/// `deliver`. A worker that fails closes the end, and a closed end stays
/// closed: from then on `enqueue` and `dequeue` fail.
pub struct RealNetwork<TTx, TRx> {
    is_closed: bool,
    tx_queue: VecDeque<TTx>,
    rx_queue: VecDeque<TRx>,
}

impl<TTx, TRx> RealNetwork<TTx, TRx> {
    /// Whether a worker has failed.
    pub closed spec fn is_closed(&self) -> bool {
        self.is_closed
    }

    /// The messages handed over by the game loop and not yet taken by the
    /// transmit worker, oldest first.
    pub closed spec fn outbound(&self) -> Seq<TTx> {
        self.tx_queue@
    }

    /// The messages handed in by the receive worker and not yet taken by the
    /// game loop, oldest first.
    pub closed spec fn inbound(&self) -> Seq<TRx> {
        self.rx_queue@
    }

    /// An open end with nothing waiting in either direction.
    pub fn new() -> (n: Self)
        ensures
            !n.is_closed(),
            n.outbound() == Seq::<TTx>::empty(),
            n.inbound() == Seq::<TRx>::empty(),
    {
        RealNetwork { is_closed: false, tx_queue: VecDeque::new(), rx_queue: VecDeque::new() }
    }

    /// Whether a worker has failed.
    pub fn closed(&self) -> (c: bool)
        ensures
            c == self.is_closed(),
    {
        self.is_closed
    }

    /// The oldest message that waits to be sent, taken off the queue.
    pub fn next_outbound(&mut self) -> (msg: Option<TTx>)
        ensures
            final(self).is_closed() == old(self).is_closed(),
            final(self).inbound() == old(self).inbound(),
            match msg {
                Some(m) => old(self).outbound().len() > 0 && m == old(self).outbound()[0]
                    && final(self).outbound() == old(self).outbound().skip(1),
                None => old(self).outbound().len() == 0 && final(self).outbound()
                    == old(self).outbound(),
            },
    {
        let msg = self.tx_queue.pop_front();
        proof {
            if msg is Some {
                assert(self.tx_queue@ == old(self).tx_queue@.skip(1));
            }
        }
        msg
    }

    /// Hands in a message that came over the connection.
    pub fn deliver(&mut self, msg: TRx)
        ensures
            final(self).is_closed() == old(self).is_closed(),
            final(self).outbound() == old(self).outbound(),
            final(self).inbound() == old(self).inbound().push(msg),
    {
        self.rx_queue.push_back(msg);
    }

    /// Closes the end, as a worker does when it fails.
    pub fn close(&mut self)
        ensures
            final(self).is_closed(),
            final(self).outbound() == old(self).outbound(),
            final(self).inbound() == old(self).inbound(),
    {
        self.is_closed = true;
    }
}

impl<TTx, TRx> TxChannel<TTx> for RealNetwork<TTx, TRx> {
    open spec fn tx_closed(&self) -> bool {
        self.is_closed()
    }

    open spec fn outgoing(&self) -> Seq<TTx> {
        self.outbound()
    }

    /// The message is behind those that wait to be sent; nothing else has
    /// changed.
    open spec fn sent(&self, msg: TTx, after: &Self) -> bool {
        &&& after.outbound() == self.outbound().push(msg)
        &&& after.inbound() == self.inbound()
        &&& after.is_closed() == self.is_closed()
    }

    /// Puts `msg` behind the messages that wait to be sent. Fails, and
    /// changes nothing, exactly when the end is closed.
    fn enqueue(&mut self, msg: TTx) -> (r: Result<(), GgError>)
        ensures
            final(self).is_closed() == old(self).is_closed(),
            final(self).inbound() == old(self).inbound(),
            match r {
                Ok(()) => !old(self).is_closed() && final(self).outbound()
                    == old(self).outbound().push(msg),
                Err(e) => old(self).is_closed() && final(self).outbound() == old(self).outbound()
                    && e.reason() == "channel closed"@,
            },
    {
        if self.is_closed {
            Err(GgError::channel_closed())
        } else {
            self.tx_queue.push_back(msg);
            Ok(())
        }
    }
}

impl<TTx, TRx> RxChannel<TRx> for RealNetwork<TTx, TRx> {
    open spec fn rx_closed(&self) -> bool {
        self.is_closed()
    }

    open spec fn ready(&self) -> Seq<TRx> {
        self.inbound()
    }

    /// Nothing that has come is left; nothing else has changed.
    open spec fn drained(&self, after: &Self) -> bool {
        &&& after.inbound() == Seq::<TRx>::empty()
        &&& after.outbound() == self.outbound()
        &&& after.is_closed() == self.is_closed()
    }

    /// Puts every message that has come, oldest first, in place of what
    /// `buffer` held. Fails, and changes nothing, exactly when the end is
    /// closed.
    fn dequeue(&mut self, buffer: &mut Vec<TRx>) -> (r: Result<(), GgError>)
        ensures
            final(self).is_closed() == old(self).is_closed(),
            final(self).outbound() == old(self).outbound(),
            match r {
                Ok(()) => !old(self).is_closed() && final(buffer)@ == old(self).inbound()
                    && final(self).inbound() == Seq::<TRx>::empty(),
                Err(e) => old(self).is_closed() && final(buffer)@ == old(buffer)@
                    && final(self).inbound() == old(self).inbound() && e.reason()
                    == "channel closed"@,
            },
    {
        if self.is_closed {
            return Err(GgError::channel_closed());
        }
        buffer.clear();
        let ghost all = self.rx_queue@;
        while self.rx_queue.len() > 0
            invariant
                self.is_closed() == old(self).is_closed(),
                self.outbound() == old(self).outbound(),
                buffer@ + self.rx_queue@ == all,
            decreases self.rx_queue@.len(),
        {
            let ghost before = self.rx_queue@;
            match self.rx_queue.pop_front() {
                Some(msg) => {
                    let ghost sofar = buffer@;
                    buffer.push(msg);
                    assert(buffer@ + self.rx_queue@ == sofar + before);
                },
                None => {},
            }
        }
        assert(self.rx_queue@ =~= Seq::<TRx>::empty());
        assert(buffer@ + self.rx_queue@ == buffer@);
        Ok(())
    }
}

impl<TTx, TRx> Duplex<TTx, TRx> for RealNetwork<TTx, TRx> {
    proof fn lemma_read_keeps_sent(&self, after: &Self) {
    }

    proof fn lemma_send_keeps_ready(&self, msg: TTx, after: &Self) {
    }
}

/// The registry of the connections that a listener has accepted.
pub struct RealServer {
    new_clients: Vec<RealNetwork<ServerMsg, ClientMsg>>,
}

impl RealServer {
    /// The connections accepted and not yet handed to the server, oldest first.
    pub closed spec fn pending(&self) -> Seq<RealNetwork<ServerMsg, ClientMsg>> {
        self.new_clients@
    }

    /// A registry where no connection waits.
    pub fn new() -> (s: RealServer)
        ensures
            s.pending().len() == 0,
    {
        RealServer { new_clients: Vec::new() }
    }

    /// Takes in the server's end of a connection that the listener accepted.
    pub fn accept(&mut self, client: RealNetwork<ServerMsg, ClientMsg>)
        ensures
            final(self).pending() == old(self).pending().push(client),
    {
        self.new_clients.push(client);
    }
}

impl Server<RealNetwork<ServerMsg, ClientMsg>> for RealServer {
    open spec fn waiting(&self) -> Seq<RealNetwork<ServerMsg, ClientMsg>> {
        self.pending()
    }

    /// Hands over every connection accepted since the last call, oldest first.
    fn get_new_clients(&mut self, buffer: &mut Vec<RealNetwork<ServerMsg, ClientMsg>>)
        ensures
            final(buffer)@ == old(self).pending(),
            final(self).pending().len() == 0,
    {
        buffer.clear();
        buffer.append(&mut self.new_clients);
    }
}

} // verus!
