//! The library's error value.
use vstd::prelude::*;

verus! {

/// An error that carries a human-readable message.
#[derive(Debug)]
pub struct SCSPErr {
    msg: String,
}

impl View for SCSPErr {
    type V = Seq<char>;

    closed spec fn view(&self) -> Seq<char> {
        self.msg@
    }
}

impl SCSPErr {
    /// An error with the message `msg`.
    pub fn new(msg: &str) -> (r: SCSPErr)
        ensures
            r@ == msg@,
    {
        SCSPErr { msg: msg.to_owned() }
    }

    /// The message.
    pub fn message(&self) -> (r: String)
        ensures
            r@ == self@,
    {
        self.msg.clone()
    }
}

} // verus!
