//! Progress notifications sent from the frame builder to a display.

use vstd::prelude::*;

verus! {

/// A notification for whoever displays progress.
#[derive(Debug, Clone, Copy, PartialEq, Eq)]
pub enum Message {
    /// The frame with this zero-based index has been written.
    Update(u32),
    /// No further message follows; the receiver stops.
    Kill,
}

impl Message {
    /// How many frames have been written when this message arrives, or
    /// `None` for the message that ends the run: frame indices start at 0.
    pub fn position(&self) -> (r: Option<u64>)
        ensures
            r == match *self {
                Message::Update(k) => Some((k + 1) as u64),
                Message::Kill => None,
            },
    {
        match self {
            Message::Update(k) => {
                let written: u64 = *k as u64 + 1;
                Some(written)
            },
            Message::Kill => None,
        }
    }
}

} // verus!
