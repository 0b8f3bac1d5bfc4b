//! Why a payload could not be queued for sending.
use vstd::prelude::*;

verus! {

#[derive(Debug, Clone, PartialEq, Eq)]
pub enum SendQueueError {
    /// The listener no longer takes commands.
    CommandChannelClosed,
    /// The listener dropped the command without answering.
    ResponseDropped,
    /// The transport refused the payload, for the reason given.
    Transport { message: String },
}

} // verus!
