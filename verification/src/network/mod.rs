//! The messages that server and clients exchange, and what a transport
//! has to offer to carry them.

pub mod dummy;
pub mod pipe;
pub mod rounds;
pub mod server;
pub mod framed;
pub mod sim;
pub mod step;

use vstd::prelude::*;
use crate::component::body::Body;
use crate::component::sprite::Sprite;
use crate::err::GgError;
use crate::input::InputEvent;

verus! {

/// What the server tells a client. Entities are named by the server's own
/// identifier for them.
#[derive(Clone, Copy, PartialEq, Eq, Structural, Debug)]
pub enum ServerMsg {
    /// The entity is gone.
    Kill(u64),
    /// The entity's physical state.
    SetBody(u64, Body),
    /// The entity's looks.
    SetSprite(u64, Sprite),
    /// The camera follows the entity.
    SetFocus(u64),
    /// A round-trip probe, stamped with the server's clock in nanoseconds.
    Ping(u64),
    /// A payload that no protocol component acts on.
    Test(u32),
}

/// What a client tells the server.
#[derive(Clone, Copy, PartialEq, Eq, Structural, Debug)]
pub enum ClientMsg {
    /// The player pressed or released a button.
    Input(InputEvent),
    /// The answer to a `Ping`, carrying the stamp of the probe unchanged.
    Pong(u64),
    /// A payload that no protocol component acts on.
    Test(u32),
}

/// The sending half of a transport.
///
/// Messages handed to one channel reach the peer in the order in which they
/// were handed over. A channel that is closed refuses every message, and
/// one that is open takes every message. Handing a message over does not
/// close a channel, nor open it.
pub trait TxChannel<TMsg>: Sized {
    /// Whether the channel has lost its peer.
    spec fn tx_closed(&self) -> bool;

    /// The messages handed over that the channel still holds, oldest first.
    spec fn outgoing(&self) -> Seq<TMsg>;

    /// Whether `after` is this channel once it has taken `msg`. Each
    /// transport says what that is, in full.
    spec fn sent(&self, msg: TMsg, after: &Self) -> bool;

    /// Hands `msg` over for delivery to the peer: on success it is behind
    /// the messages that the channel still held. A message that is refused
    /// is not taken, and the channel is then as it was.
    fn enqueue(&mut self, msg: TMsg) -> (r: Result<(), GgError>)
        ensures
            r is Err <==> old(self).tx_closed(),
            r is Ok ==> old(self).sent(msg, final(self)),
            r is Err ==> *final(self) == *old(self),
            final(self).tx_closed() == old(self).tx_closed(),
            r is Ok ==> final(self).outgoing() == old(self).outgoing().push(msg),
    ;
}

/// Whether `after` is the channel `before` once it has taken `msgs`, one
/// after the other.
pub open spec fn spec_sent_all<TMsg, TChannel: TxChannel<TMsg>>(
    before: TChannel,
    after: TChannel,
    msgs: Seq<TMsg>,
) -> bool
    decreases msgs.len(),
{
    if msgs.len() == 0 {
        after == before
    } else {
        exists|mid: TChannel| #[trigger]
            mid.sent(msgs.last(), &after) && spec_sent_all(before, mid, msgs.drop_last())
    }
}

/// A channel that has taken some messages and then takes one more has
/// taken them all, one after the other.
pub proof fn lemma_sent_one_more<TMsg, TChannel: TxChannel<TMsg>>(
    before: TChannel,
    mid: TChannel,
    after: TChannel,
    msgs: Seq<TMsg>,
    msg: TMsg,
)
    requires
        spec_sent_all(before, mid, msgs),
        mid.sent(msg, &after),
    ensures
        spec_sent_all(before, after, msgs.push(msg)),
{
    let more = msgs.push(msg);
    assert(more.drop_last() == msgs);
    assert(more.last() == msg);
    assert(mid.sent(more.last(), &after) && spec_sent_all(before, mid, more.drop_last()));
}

/// The receiving half of a transport.
///
/// A channel that is closed hands out nothing, and one that is open hands
/// out all that is ready. A read does not close a channel, nor open it.
pub trait RxChannel<TMsg>: Sized {
    /// Whether the channel has lost its peer.
    spec fn rx_closed(&self) -> bool;

    /// The messages that are ready for delivery, in the order in which the
    /// peer sent them.
    spec fn ready(&self) -> Seq<TMsg>;

    /// Whether `after` is this channel once it has handed out all that
    /// was ready. Each transport says what that is, in full.
    spec fn drained(&self, after: &Self) -> bool;

    /// Replaces the contents of `buffer` with the messages that are ready
    /// and takes them off the channel. A channel that hands out nothing is
    /// then as it was.
    fn dequeue(&mut self, buffer: &mut Vec<TMsg>) -> (r: Result<(), GgError>)
        ensures
            r is Err <==> old(self).rx_closed(),
            r is Ok ==> old(self).drained(final(self)),
            r is Err ==> *final(self) == *old(self),
            final(self).rx_closed() == old(self).rx_closed(),
            r is Ok ==> final(buffer)@ == old(self).ready(),
            r is Ok ==> final(self).ready() == Seq::<TMsg>::empty(),
    ;
}

/// A transport with two directions that do not touch each other: it sends
/// messages of one kind and receives messages of another. A read leaves
/// what it has been handed for sending as it is, and a send leaves what it
/// has ready as it is.
pub trait Duplex<TTx, TRx>: TxChannel<TTx> + RxChannel<TRx> {
    /// A read leaves alone what the channel holds for sending, and whether
    /// it takes more.
    proof fn lemma_read_keeps_sent(&self, after: &Self)
        requires
            RxChannel::<TRx>::drained(self, after),
        ensures
            TxChannel::<TTx>::outgoing(after) == TxChannel::<TTx>::outgoing(self),
            TxChannel::<TTx>::tx_closed(after) == TxChannel::<TTx>::tx_closed(self),
    ;

    /// A send leaves alone what the channel has ready, and whether it
    /// hands out more.
    proof fn lemma_send_keeps_ready(&self, msg: TTx, after: &Self)
        requires
            TxChannel::<TTx>::sent(self, msg, after),
        ensures
            RxChannel::<TRx>::ready(after) == RxChannel::<TRx>::ready(self),
            RxChannel::<TRx>::rx_closed(after) == RxChannel::<TRx>::rx_closed(self),
    ;
}

/// A registry that accepts connections and hands the server its end of each.
pub trait Server<TNetwork> where TNetwork: TxChannel<ServerMsg> + RxChannel<ClientMsg> {
    /// The server's ends of the connections made and not yet handed over,
    /// oldest first.
    spec fn waiting(&self) -> Seq<TNetwork>;

    /// Replaces the contents of `buffer` with the connections made since the last call.
    fn get_new_clients(&mut self, buffer: &mut Vec<TNetwork>)
        ensures
            final(buffer)@ == old(self).waiting(),
            final(self).waiting() == Seq::<TNetwork>::empty(),
    ;
}

} // verus!
