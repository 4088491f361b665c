//! A fixed number of places for the channels of a server's clients.

use vstd::prelude::*;
use crate::err::GgError;

verus! {

/// Whether no channel of `slots` is free from place `from` on.
pub open spec fn spec_full_from<TChannel>(slots: Seq<Option<TChannel>>, from: int) -> bool {
    forall|i: int| from <= i < slots.len() ==> (#[trigger] slots[i]) is Some
}

/// The channels of a server's clients, each at a place of its own. The
/// number of places is fixed when the vector is made.
pub struct ChannelVec<TChannel> {
    channels: Vec<Option<TChannel>>,
}

impl<TChannel> ChannelVec<TChannel> {
    /// The places, each with the channel that has it.
    pub closed spec fn slots(&self) -> Seq<Option<TChannel>> {
        self.channels@
    }

    /// A vector of `capacity` places, all free.
    pub fn new(capacity: usize) -> (v: ChannelVec<TChannel>)
        ensures
            v.slots().len() == capacity,
            forall|i: int| 0 <= i < capacity ==> (#[trigger] v.slots()[i]) is None,
    {
        let mut channels: Vec<Option<TChannel>> = Vec::new();
        let mut i: usize = 0;
        while i < capacity
            invariant
                i <= capacity,
                channels@.len() == i,
                forall|k: int| 0 <= k < i ==> (#[trigger] channels@[k]) is None,
            decreases capacity - i,
        {
            channels.push(None);
            i += 1;
        }
        ChannelVec { channels }
    }

    /// Gives `channel` the lowest free place and returns that place. Fails,
    /// and changes nothing, exactly when no place is free.
    pub fn open_channel(&mut self, channel: TChannel) -> (r: Result<usize, GgError>)
        ensures
            match r {
                Ok(slot) => {
                    &&& slot < old(self).slots().len()
                    &&& old(self).slots()[slot as int] is None
                    &&& forall|j: int| 0 <= j < slot ==> (#[trigger] old(self).slots()[j]) is Some
                    &&& final(self).slots() == old(self).slots().update(slot as int, Some(channel))
                },
                Err(e) => {
                    &&& spec_full_from(old(self).slots(), 0)
                    &&& final(self).slots() == old(self).slots()
                    &&& e.reason() == "server is full"@
                },
            },
    {
        let mut slot: usize = 0;
        while slot < self.channels.len()
            invariant
                slot <= self.channels@.len(),
                self.channels@ == old(self).channels@,
                forall|j: int| 0 <= j < slot ==> (#[trigger] self.channels@[j]) is Some,
            decreases self.channels@.len() - slot,
        {
            if self.channels[slot].is_none() {
                self.channels[slot] = Some(channel);
                return Ok(slot);
            }
            slot += 1;
        }
        Err(GgError::server_full())
    }
}

} // verus!
