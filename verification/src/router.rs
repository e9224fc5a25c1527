//! The event router: a bridge thread body that converts every message
//! arriving on one channel and forwards it on another, until either side
//! hangs up.

use vstd::prelude::*;
use std::sync::mpsc::{Receiver as MpscReceiver, Sender as MpscSender};

verus! {

#[verifier::external_type_specification]
#[verifier::external_body]
#[verifier::reject_recursive_types(T)]
pub struct ExReceiver<T>(MpscReceiver<T>);

#[verifier::external_type_specification]
#[verifier::external_body]
#[verifier::reject_recursive_types(T)]
pub struct ExSender<T>(MpscSender<T>);

/// Relies on `std::sync::mpsc::Receiver::recv`: blocks for the next
/// message; `None` once every sender is gone. Which message arrives is the
/// senders' business, so nothing more is assumed.
#[verifier::external_body]
fn recv_message<T>(rx: &MpscReceiver<T>) -> (r: Option<T>)
{
    match rx.recv() {
        Ok(msg) => Some(msg),
        Err(_) => None,
    }
}

/// Relies on `std::sync::mpsc::Sender::send`: hands the message to the
/// channel; `false` once the receiver is gone.
#[verifier::external_body]
fn send_message<T>(tx: &MpscSender<T>, msg: T) -> (r: bool)
{
    tx.send(msg).is_ok()
}

/// Receives raw messages of one kind and forwards them converted to
/// another.
#[verifier::reject_recursive_types(R)]
#[verifier::reject_recursive_types(S)]
pub struct EventRouter<R, S: From<R>> {
    pub rx: MpscReceiver<R>,
    pub tx: MpscSender<S>,
}

impl<R, S: From<R>> EventRouter<R, S> {
    /// A router over the two channel ends.
    pub fn new(rx: MpscReceiver<R>, tx: MpscSender<S>) -> (r: EventRouter<R, S>)
        ensures
            r.rx == rx,
            r.tx == tx,
    {
        EventRouter { tx, rx }
    }

    /// Converts and forwards up to `budget` messages, stopping early when
    /// a channel closes.
    pub fn route(&self, budget: u64) {
        let mut left = budget;
        while left > 0
            decreases left,
        {
            match recv_message(&self.rx) {
                Some(in_msg) => {
                    if !send_message(&self.tx, S::from(in_msg)) {
                        return ;
                    }
                },
                None => {
                    return ;
                },
            }
            left = left - 1;
        }
    }
}

} // verus!
