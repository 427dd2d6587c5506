//! Values that cross the bus's request boundary.
use vstd::prelude::*;

verus! {

/// The answer to a one-shot pull: a message, or none.
pub struct MsgResponse {
    pub has_msg: bool,
    pub msg: Vec<u8>,
}

} // verus!
