//! The event source adapter: what becomes of each notification of the
//! provider.

use crate::channel::{push, Channel, Diagnostic};
use tokio::sync::mpsc::UnboundedSender;
use vstd::prelude::*;

verus! {

/// The provider's callback, but for the printing. An event of any kind is
/// forwarded as one raw signal; an error of the provider is reported and
/// dropped, and so is a raw signal that finds no coordinator. The callback
/// never waits, and no failure ends the watch.
pub fn relay(delivered: bool, raw: &UnboundedSender<()>) -> (report: Option<Diagnostic>)
    ensures
        !delivered ==> report == Some(Diagnostic::Delivery),
        delivered ==> report.is_none() || report == Some(Diagnostic::RawSend),
{
    if delivered {
        push(Channel::Raw, raw)
    } else {
        Some(Diagnostic::Delivery)
    }
}

} // verus!
