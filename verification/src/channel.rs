//! The one-directional pixel channel between a producer and its job.

use std::sync::mpsc::{Receiver, Sender};
use vstd::prelude::*;

verus! {

/// The receiving end of std's `mpsc` channel, carried as an opaque value.
#[verifier::external_type_specification]
#[verifier::external_body]
#[verifier::reject_recursive_types(T)]
pub struct ExReceiver<T>(Receiver<T>);

/// The sending end of std's `mpsc` channel, carried as an opaque value.
#[verifier::external_type_specification]
#[verifier::external_body]
#[verifier::reject_recursive_types(T)]
pub struct ExSender<T>(Sender<T>);

/// Calls `std::sync::mpsc::channel`. Nothing is claimed of the two ends.
#[verifier::external_body]
pub(crate) fn open<T>() -> (ends: (Sender<T>, Receiver<T>)) {
    std::sync::mpsc::channel()
}

/// Calls `Receiver::try_recv`, which never blocks. `None` stands for both of
/// its errors: nothing is waiting, or the sender is gone. Nothing is claimed
/// of which answer comes: that depends on the thread at the other end.
#[verifier::external_body]
pub(crate) fn try_receive<T>(receiver: &Receiver<T>) -> (got: Option<T>) {
    receiver.try_recv().ok()
}

/// Calls `Sender::send`, which never blocks on this unbounded channel, and
/// says whether the value was taken. Nothing is claimed of the answer: it is
/// `false` once the receiver has been dropped.
#[verifier::external_body]
pub(crate) fn hand_off<T>(sender: &Sender<T>, item: T) -> (taken: bool) {
    sender.send(item).is_ok()
}

} // verus!
