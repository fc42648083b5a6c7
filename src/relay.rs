//! Routing state of the relay, which serves a single remote controller.
use vstd::prelude::*;

verus! {

/// The relay remembers the first client it accepts and addresses every
/// event to it; later clients may still send commands but get no events.
pub struct Relay<E> {
    client: Option<E>,
}

impl<E: Copy> Relay<E> {
    /// The remembered client, if any.
    pub closed spec fn client(&self) -> Option<E> {
        self.client
    }

    /// A relay that has accepted no client yet.
    pub fn new() -> (r: Relay<E>)
        ensures
            r.client() is None,
    {
        Relay { client: None }
    }

    /// Records an accepted client; only the first one is remembered.
    /// Returns whether this one was.
    pub fn on_accept(&mut self, endpoint: E) -> (remembered: bool)
        ensures
            remembered == (old(self).client() is None),
            final(self).client() == if remembered {
                Some(endpoint)
            } else {
                old(self).client()
            },
    {
        if self.client.is_none() {
            self.client = Some(endpoint);
            true
        } else {
            false
        }
    }

    /// Where an event from the serial side goes: the remembered client, or
    /// nowhere while none was accepted.
    pub fn event_target(&self) -> (r: Option<E>)
        ensures
            r == self.client(),
    {
        self.client
    }
}

} // verus!
