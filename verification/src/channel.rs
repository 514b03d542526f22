//! The sending end of a connection's outbound channel. The authority puts
//! the bytes for a connection there, and the connection's writer takes them
//! out in the same order and writes them to the socket.

use std::sync::mpsc::Sender;
use vstd::prelude::*;

verus! {

/// The sending end of a channel of the standard library, opaque to the
/// library: it is stored, handed on and sent into.
#[verifier::external_type_specification]
#[verifier::external_body]
#[verifier::reject_recursive_types(T)]
pub struct ExSender<T>(Sender<T>);

/// Calls `Sender::send` and says whether the bytes were taken. They are not
/// when the receiving end is gone. Nothing is claimed of the answer: it
/// depends on what the other end has done.
#[verifier::external_body]
pub(crate) fn deliver(sender: &Sender<Vec<u8>>, bytes: Vec<u8>) -> (delivered: bool) {
    match sender.send(bytes) {
        Ok(()) => true,
        Err(_) => false,
    }
}

/// Calls `Sender::clone`: another sending end of the same channel. Nothing
/// is claimed of the result, which is as opaque as the end it was made from.
#[verifier::external_body]
pub(crate) fn another(sender: &Sender<Vec<u8>>) -> (copy: Sender<Vec<u8>>) {
    sender.clone()
}

} // verus!
