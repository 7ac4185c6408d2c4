//! The mailbox: an unbounded first-in-first-out queue of byte buffers with
//! any number of sending handles and one receiving end, held exclusively by
//! the owning actor's run loop.

use vstd::prelude::*;

verus! {

#[verifier::external_type_specification]
#[verifier::external_body]
#[verifier::reject_recursive_types(T)]
pub struct ExSender<T>(crossbeam::channel::Sender<T>);

#[verifier::external_type_specification]
#[verifier::external_body]
#[verifier::reject_recursive_types(T)]
pub struct ExReceiver<T>(crossbeam::channel::Receiver<T>);

/// A sending handle of an actor's mailbox, shareable by any number of
/// senders.
pub struct CommandHandler {
    sender: crossbeam::channel::Sender<Vec<u8>>,
}

impl CommandHandler {
    /// Relies on crossbeam's Sender::try_send on an unbounded channel: the
    /// buffer is enqueued unless the receiving end is gone, and the call
    /// returns at once either way; a failed enqueue is swallowed, which is
    /// the documented best-effort delivery contract.
    #[verifier::external_body]
    pub fn send(&self, message: Vec<u8>) {
        let _ = self.sender.try_send(message);
    }
}

/// Relies on crossbeam's channel::unbounded: a fresh first-in-first-out
/// queue of byte buffers whose sending half never blocks.
#[verifier::external_body]
pub fn create() -> (CommandHandler, crossbeam::channel::Receiver<Vec<u8>>) {
    let (tx, rx) = crossbeam::channel::unbounded();
    (CommandHandler { sender: tx }, rx)
}

/// Relies on crossbeam's Receiver::recv_timeout: the next queued buffer, or
/// nothing once the given number of milliseconds has elapsed; what arrives
/// depends on concurrent senders, so nothing is promised of the buffer.
#[verifier::external_body]
pub fn receive_with_timeout(
    receiver: &crossbeam::channel::Receiver<Vec<u8>>,
    millis: u64,
) -> Option<Vec<u8>> {
    match receiver.recv_timeout(core::time::Duration::from_millis(millis)) {
        Ok(buffer) => Some(buffer),
        Err(_) => None,
    }
}

/// A named worker holding the receiving end of its mailbox until a run loop
/// takes it over.
pub struct Worker {
    pub name: String,
    pub receiver: Option<crossbeam::channel::Receiver<Vec<u8>>>,
}

} // verus!
