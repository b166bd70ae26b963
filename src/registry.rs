//! The slot that holds the one live session, if any.
use vstd::prelude::*;
use crate::error::{ErrorKind, OpError};

verus! {

/// A change made to the registry: a session installed (replacing and
/// dropping any previous one), or the session cleared.
pub enum Change<S> {
    Install(S),
    Clear,
}

/// The registry's content after one change.
pub open spec fn changed<S>(held: Option<S>, c: Change<S>) -> Option<S> {
    match c {
        Change::Install(s) => Some(s),
        Change::Clear => None,
    }
}

/// The registry's content after a run of changes, oldest first.
pub open spec fn replay<S>(held: Option<S>, cs: Seq<Change<S>>) -> Option<S>
    decreases cs.len(),
{
    if cs.len() == 0 {
        held
    } else {
        changed(replay(held, cs.drop_last()), cs.last())
    }
}

/// Holds at most one session. Operations borrow it for one call; installing
/// a new one drops the old one.
pub struct Registry<S> {
    slot: Option<S>,
}

impl<S> View for Registry<S> {
    type V = Option<S>;

    closed spec fn view(&self) -> Option<S> {
        self.slot
    }
}

impl<S> Registry<S> {
    pub fn new() -> (r: Registry<S>)
        ensures
            r@ is None,
    {
        Registry { slot: None }
    }

    /// Installs `s`, handing back the session it replaces.
    pub fn install(&mut self, s: S) -> (prev: Option<S>)
        ensures
            final(self)@ == changed(old(self)@, Change::Install(s)),
            prev == old(self)@,
    {
        let prev = self.slot.take();
        self.slot = Some(s);
        prev
    }

    /// Removes the session, if any, handing it back; a no-op when empty.
    pub fn clear(&mut self) -> (prev: Option<S>)
        ensures
            final(self)@ == changed(old(self)@, Change::<S>::Clear),
            prev == old(self)@,
    {
        self.slot.take()
    }

    pub fn is_connected(&self) -> (r: bool)
        ensures
            r == self@ is Some,
    {
        self.slot.is_some()
    }

    /// The installed session, or `NotConnected`.
    pub fn session(&self) -> (r: Result<&S, OpError>)
        ensures
            r is Ok <==> self@ is Some,
            r is Ok ==> *r->Ok_0 == self@->0,
            r is Err ==> r->Err_0.kind == ErrorKind::NotConnected,
            r is Err ==> r->Err_0.message@ == "Not connected"@,
    {
        match &self.slot {
            Some(s) => Ok(s),
            None => Err(OpError::not_connected()),
        }
    }
}

/// Starting from an empty registry, a session is available after a run of
/// changes exactly when the run is not empty and its last change installs
/// one: before any connect, and after a disconnect, every operation finds
/// no session.
pub proof fn lemma_session_available<S>(cs: Seq<Change<S>>)
    ensures
        replay(None, cs) is Some <==> (cs.len() > 0 && cs.last() is Install),
        cs.len() > 0 && cs.last() is Install ==> replay(None, cs) == Some(
            cs.last()->Install_0,
        ),
{
}

} // verus!
