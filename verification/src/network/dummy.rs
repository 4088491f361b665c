//! The transport that goes nowhere.

use vstd::prelude::*;
use crate::err::GgError;
use crate::network::{Duplex, RxChannel, TxChannel};

verus! {

/// A transport without a peer: it is closed from the start.
#[derive(Clone, Copy, Debug)]
pub struct DummyChannel {}

impl<TMsg> TxChannel<TMsg> for DummyChannel {
    open spec fn tx_closed(&self) -> bool {
        true
    }

    open spec fn outgoing(&self) -> Seq<TMsg> {
        Seq::empty()
    }

    /// It takes no message, and has one state only.
    open spec fn sent(&self, msg: TMsg, after: &Self) -> bool {
        *after == *self
    }

    fn enqueue(&mut self, msg: TMsg) -> (r: Result<(), GgError>)
        ensures
            r matches Err(e) && e.reason() == "channel closed"@,
    {
        Err(GgError::channel_closed())
    }
}

impl<TMsg> RxChannel<TMsg> for DummyChannel {
    open spec fn rx_closed(&self) -> bool {
        true
    }

    open spec fn ready(&self) -> Seq<TMsg> {
        Seq::empty()
    }

    /// It hands out nothing, and has one state only.
    open spec fn drained(&self, after: &Self) -> bool {
        *after == *self
    }

    fn dequeue(&mut self, buffer: &mut Vec<TMsg>) -> (r: Result<(), GgError>)
        ensures
            r matches Err(e) && e.reason() == "channel closed"@,
            final(buffer)@ == old(buffer)@,
    {
        Err(GgError::channel_closed())
    }
}

impl<TTx, TRx> Duplex<TTx, TRx> for DummyChannel {
    proof fn lemma_read_keeps_sent(&self, after: &Self) {
    }

    proof fn lemma_send_keeps_ready(&self, msg: TTx, after: &Self) {
    }
}

} // verus!
