use vstd::prelude::*;

verus! {

#[derive(Clone, Copy, Debug, PartialEq, Eq, Structural)]
pub enum FlashLevel {
    Info,
    Error,
}

/// A one-time message shown to the user on the next page.
#[derive(Debug)]
pub struct FlashNotice {
    pub level: FlashLevel,
    pub message: String,
}

} // verus!
