//! The session that a participant's program sends and receives on.

use vstd::prelude::*;

verus! {

/// The session of one participant. It carries no state of its own.
pub struct Session;

/// A message that can be received: the type says how a message of it
/// comes to be.
pub trait Message: Sized {
    fn receive() -> Self;
}

impl Session {
    /// A session on which nothing has happened yet.
    pub fn new() -> (s: Session)
        ensures
            s == Session,
    {
        Session {  }
    }

    /// Sends the message: the session takes it.
    pub fn send<T>(&mut self, _msg: T)
        ensures
            *final(self) == *old(self),
    {
    }

    /// Receives a message: the one that the message type hands out.
    pub fn receive<T: Message>(&mut self) -> (msg: T)
        ensures
            *final(self) == *old(self),
            call_ensures(T::receive, (), msg),
    {
        T::receive()
    }
}

} // verus!
