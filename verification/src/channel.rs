//! The two signal channels, and what becomes of a push that finds no
//! receiver. A signal is a unit value: that it is there is all it says.

use tokio::sync::mpsc::UnboundedSender;
use vstd::prelude::*;

verus! {

/// One of the two signal channels.
#[derive(Clone, Copy, Debug, PartialEq, Eq, Structural)]
pub enum Channel {
    /// From the adapter to the coordinator.
    Raw,
    /// From the coordinator to the consumer.
    Debounced,
}

/// A failure that is reported and then left behind; the watch goes on.
#[derive(Clone, Copy, Debug, PartialEq, Eq, Structural)]
pub enum Diagnostic {
    /// The provider reported an error in place of an event.
    Delivery,
    /// A raw signal could not be pushed: the coordinator no longer listens.
    RawSend,
    /// A debounced signal could not be pushed: the consumer no longer listens.
    DebouncedSend,
}

impl Diagnostic {
    /// The words that introduce this failure in a report.
    pub open spec fn text(self) -> Seq<char> {
        match self {
            Diagnostic::Delivery => "Watcher failed"@,
            Diagnostic::RawSend => "Failed to send with the sender"@,
            Diagnostic::DebouncedSend => "Failed to send with the debounced sender"@,
        }
    }

    /// The words that introduce this failure in a report.
    pub fn message(&self) -> (m: &'static str)
        ensures
            m@ == self.text(),
    {
        match self {
            Diagnostic::Delivery => "Watcher failed",
            Diagnostic::RawSend => "Failed to send with the sender",
            Diagnostic::DebouncedSend => "Failed to send with the debounced sender",
        }
    }
}

/// The failure that a refused push onto `channel` stands for.
pub open spec fn refusal(channel: Channel) -> Diagnostic {
    match channel {
        Channel::Raw => Diagnostic::RawSend,
        Channel::Debounced => Diagnostic::DebouncedSend,
    }
}

/// Decides on the outcome of a push onto `channel`: a push that found no
/// receiver is reported, and whoever pushed carries on.
pub fn on_push(channel: Channel, accepted: bool) -> (report: Option<Diagnostic>)
    ensures
        report == (if accepted {
            None
        } else {
            Some(refusal(channel))
        }),
{
    if accepted {
        None
    } else {
        match channel {
            Channel::Raw => Some(Diagnostic::RawSend),
            Channel::Debounced => Some(Diagnostic::DebouncedSend),
        }
    }
}

/// The sending half of tokio's unbounded channel, carried through as it is.
#[verifier::external_type_specification]
#[verifier::external_body]
#[verifier::reject_recursive_types(T)]
pub struct ExUnboundedSender<T>(UnboundedSender<T>);

/// Calls `UnboundedSender::send` with one unit and says whether the channel
/// took it. The call never waits. Whether it succeeds depends on the
/// receiving half, which may be closed or dropped at any moment, so nothing
/// is claimed of the answer.
#[verifier::external_body]
fn offer(sender: &UnboundedSender<()>) -> (accepted: bool) {
    sender.send(()).is_ok()
}

/// Pushes one signal onto `channel` through `sender`, and reports the push if
/// it found no receiver.
pub fn push(channel: Channel, sender: &UnboundedSender<()>) -> (report: Option<Diagnostic>)
    ensures
        report.is_none() || report == Some(refusal(channel)),
{
    on_push(channel, offer(sender))
}

} // verus!
