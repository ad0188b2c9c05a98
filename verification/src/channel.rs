use vstd::prelude::*;
use futures_channel::mpsc::{UnboundedReceiver, UnboundedSender};

verus! {

#[verifier::external_type_specification]
#[verifier::external_body]
#[verifier::reject_recursive_types(T)]
pub struct ExUnboundedSender<T>(UnboundedSender<T>);

#[verifier::external_type_specification]
#[verifier::external_body]
#[verifier::reject_recursive_types(T)]
pub struct ExUnboundedReceiver<T>(UnboundedReceiver<T>);

/// Calls `futures_channel::mpsc::unbounded`, which makes a fresh channel
/// without a bound on the number of queued messages. Nothing is claimed of
/// the two halves beyond their types.
#[verifier::external_body]
pub(crate) fn unbounded_channel<T>() -> (UnboundedSender<T>, UnboundedReceiver<T>) {
    futures_channel::mpsc::unbounded()
}

/// Calls `UnboundedSender::unbounded_send` and reports whether the message
/// was queued. The source queues it unless the receiving half was dropped or
/// the channel was closed, which depends on state outside this call, so no
/// clause states the result.
#[verifier::external_body]
pub(crate) fn send_message<T>(sender: &UnboundedSender<T>, msg: T) -> (queued: bool) {
    sender.unbounded_send(msg).is_ok()
}

} // verus!
