//! Stop signals and the record of them: a signal is sent and recorded in one
//! step, and the record grows by no other means.

use std::sync::mpsc::Sender;
use vstd::prelude::*;

verus! {

/// Relies on `std::sync::mpsc::Sender::send`: the unit value is handed to the
/// receiving playback if it is still listening; a receiver that is gone is no
/// error for a stop request, so the outcome is not reported.
#[verifier::external_body]
fn send_stop(sender: &Sender<()>) {
    let _ = sender.send(());
}

/// The stop signals sent so far, in order: the identifier of each playback
/// signalled and the handle the signal went through.
pub struct SignalLog {
    entries: Ghost<Seq<(Seq<char>, Sender<()>)>>,
}

impl View for SignalLog {
    type V = Seq<(Seq<char>, Sender<()>)>;

    closed spec fn view(&self) -> Seq<(Seq<char>, Sender<()>)> {
        self.entries@
    }
}

impl SignalLog {
    /// No signal sent yet.
    pub fn new() -> (r: SignalLog)
        ensures
            r@ == Seq::<(Seq<char>, Sender<()>)>::empty(),
    {
        SignalLog { entries: Ghost(Seq::empty()) }
    }

    /// Sends the stop signal of playback `playback_id` through `sender`, and
    /// records it.
    pub fn send(&mut self, playback_id: &String, sender: &Sender<()>)
        ensures
            final(self)@ == old(self)@.push((playback_id@, *sender)),
    {
        send_stop(sender);
        self.entries = Ghost(self.entries@.push((playback_id@, *sender)));
    }
}

} // verus!
