//! A pair of channel endpoints, as the engine and its workers hold them.
use vstd::prelude::*;

verus! {

#[verifier::external_type_specification]
#[verifier::external_body]
#[verifier::reject_recursive_types(T)]
pub struct ExSender<T>(std::sync::mpsc::Sender<T>);

#[verifier::external_type_specification]
#[verifier::external_body]
#[verifier::reject_recursive_types(T)]
pub struct ExReceiver<T>(std::sync::mpsc::Receiver<T>);

#[verifier::external_type_specification]
#[verifier::external_body]
#[verifier::reject_recursive_types(T)]
pub struct ExSendError<T>(std::sync::mpsc::SendError<T>);

/// Relies on std::sync::mpsc::channel: it makes a connected sender and
/// receiver, and nothing about them is observable here.
pub assume_specification<T>[ std::sync::mpsc::channel::<T> ]() -> (std::sync::mpsc::Sender<T>, std::sync::mpsc::Receiver<T>);

/// Relies on std::sync::mpsc::Sender::send: it hands `t` over, or fails
/// when the receiver is gone; nothing is promised of which.
pub assume_specification<T>[ std::sync::mpsc::Sender::<T>::send ](s: &std::sync::mpsc::Sender<T>, t: T) -> Result<(), std::sync::mpsc::SendError<T>>;

/// Both ends of one channel.
#[verifier::reject_recursive_types(T)]
pub struct Channel<T> {
    pub sender: std::sync::mpsc::Sender<T>,
    pub receiver: std::sync::mpsc::Receiver<T>,
}

impl<T> Channel<T> {
    /// A new channel.
    pub fn new() -> Channel<T> {
        let (tx, rx) = std::sync::mpsc::channel::<T>();
        Channel { sender: tx, receiver: rx }
    }
}

} // verus!
