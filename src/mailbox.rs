//! A one-message buffer: a post overwrites whatever was not yet taken.
use vstd::prelude::*;

verus! {

/// Holds at most one unconsumed message.
///
/// `slot` is `Some` exactly between a post and the next successful take.
pub struct Mailbox {
    slot: Option<Vec<u8>>,
}

impl View for Mailbox {
    /// The pending message, if any.
    type V = Option<Seq<u8>>;

    closed spec fn view(&self) -> Option<Seq<u8>> {
        match self.slot {
            Some(m) => Some(m@),
            None => None,
        }
    }
}

/// The pending message after a post of `msg`: the old one is dropped.
pub open spec fn posted(pending: Option<Seq<u8>>, msg: Seq<u8>) -> Option<Seq<u8>> {
    Some(msg)
}

/// What a take hands out, and what stays behind.
pub open spec fn taken(pending: Option<Seq<u8>>) -> (Option<Seq<u8>>, Option<Seq<u8>>) {
    (pending, None)
}

/// Copies a byte buffer element by element.
pub fn copy_bytes(b: &Vec<u8>) -> (r: Vec<u8>)
    ensures
        r@ == b@,
{
    let mut r: Vec<u8> = Vec::with_capacity(b.len());
    let mut i: usize = 0;
    while i < b.len()
        invariant
            i <= b.len(),
            r@ == b@.subrange(0, i as int),
        decreases b.len() - i,
    {
        r.push(b[i]);
        i = i + 1;
    }
    assert(r@ =~= b@);
    r
}

impl Mailbox {
    /// An empty mailbox.
    pub fn new() -> (r: Mailbox)
        ensures
            r@ is None,
    {
        Mailbox { slot: None }
    }

    /// Stores `msg`, replacing any message that was not yet taken. Never blocks.
    pub fn post(&mut self, msg: Vec<u8>)
        ensures
            final(self)@ == posted(old(self)@, msg@),
    {
        self.slot = Some(msg);
    }

    /// Hands out the pending message, if there is one, and empties the slot.
    pub fn take(&mut self) -> (r: Option<Vec<u8>>)
        ensures
            r matches Some(m) ==> taken(old(self)@).0 == Some(m@),
            r is None ==> taken(old(self)@).0 is None,
            final(self)@ == taken(old(self)@).1,
    {
        let mut out: Option<Vec<u8>> = None;
        std::mem::swap(&mut out, &mut self.slot);
        out
    }

    /// Whether a message waits in the slot.
    pub fn is_ready(&self) -> (r: bool)
        ensures
            r == self@ is Some,
    {
        self.slot.is_some()
    }
}

/// Two posts on an unconsumed mailbox followed by one take yield only the
/// second message; the first one is gone.
pub proof fn lemma_last_post_wins(pending: Option<Seq<u8>>, first: Seq<u8>, second: Seq<u8>)
    ensures
        taken(posted(posted(pending, first), second)).0 == Some(second),
        taken(posted(posted(pending, first), second)).1 is None,
{
}

} // verus!
