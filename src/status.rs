//! The status channel: announcements of playback status arrive on it, and
//! are taken without being read.
use std::sync::mpsc::{Receiver, TryRecvError};
use vstd::prelude::*;

verus! {

#[verifier::external_type_specification]
#[verifier::external_body]
#[verifier::reject_recursive_types(T)]
pub struct ExReceiver<T>(Receiver<T>);

#[verifier::external_type_specification]
#[verifier::external_body]
pub struct ExTryRecvError(TryRecvError);

/// Relies on `Receiver::try_recv` of std: it returns at once, with a value
/// that was sent or an error when none is waiting; which one depends on the
/// sending side, so nothing more is stated.
pub assume_specification<T>[ Receiver::<T>::try_recv ](r: &Receiver<T>) -> Result<T, TryRecvError>;

/// The receiving end of the status channel.
pub struct StatusManager {
    rx: Receiver<()>,
}

impl StatusManager {
    /// Takes the receiving end of a channel that a listener fills.
    pub fn new(rx: Receiver<()>) -> (r: StatusManager)
        ensures
            r.receiver() == rx,
    {
        StatusManager { rx }
    }

    /// The receiving end held.
    pub closed spec fn receiver(&self) -> Receiver<()> {
        self.rx
    }

    /// Takes the next status event, if one is waiting.
    pub fn try_recv(&self) -> Result<(), TryRecvError> {
        self.rx.try_recv()
    }
}

} // verus!
