//! A registered subscription: who it is, where it listens, how it delivers.
use vstd::prelude::*;

use crate::errs::SCSPErr;
use crate::mailbox::{posted, taken, Mailbox};

verus! {

/// How a handler's messages leave the bus.
#[derive(Clone, Copy, Debug, PartialEq, Eq, Structural)]
pub enum Delivery {
    /// A persistent connection that forwards every message as it arrives.
    Streaming,
    /// A one-shot request that carries at most one message.
    Polling,
}

/// What a handler is, as the contracts see it.
pub struct HandlerView {
    pub ticket: u64,
    pub identity: Seq<char>,
    pub channel: Seq<char>,
    pub delivery: Delivery,
    pub pending: Option<Seq<u8>>,
    pub closed: bool,
}

/// A subscription to one channel, with its own mailbox.
///
/// `ticket` tells apart two handlers that share an identity: only the one
/// that went into the registry ever receives anything.
pub struct Handler {
    ticket: u64,
    identity: String,
    channel: String,
    delivery: Delivery,
    mailbox: Mailbox,
    closed: bool,
}

impl View for Handler {
    type V = HandlerView;

    closed spec fn view(&self) -> HandlerView {
        HandlerView {
            ticket: self.ticket,
            identity: self.identity@,
            channel: self.channel@,
            delivery: self.delivery,
            pending: self.mailbox@,
            closed: self.closed,
        }
    }
}

/// A handler after `msg` was posted into its mailbox.
pub open spec fn handled(h: HandlerView, msg: Seq<u8>) -> HandlerView {
    HandlerView { pending: posted(h.pending, msg), ..h }
}

/// A handler after it was closed.
pub open spec fn closed_handler(h: HandlerView) -> HandlerView {
    HandlerView { closed: true, ..h }
}

/// A registered subscription as the bus sees it: whatever the delivery
/// strategy, it has an identity and a channel, takes posts, and closes once.
pub trait MsgHandler {
    /// What the handler is, as the contracts see it.
    spec fn state(&self) -> HandlerView;

    /// Posts `msg` into the handler's mailbox; this never fails and never blocks.
    fn handle(&mut self, msg: Vec<u8>) -> (r: Result<(), SCSPErr>)
        ensures
            r is Ok,
            final(self).state() == handled(old(self).state(), msg@),
    ;

    /// The caller-supplied subscriber key.
    fn identity(&self) -> (r: &str)
        ensures
            r@ == self.state().identity,
    ;

    /// The channel the handler listens on.
    fn channel(&self) -> (r: &str)
        ensures
            r@ == self.state().channel,
    ;

    /// Moves the handler to Closed; Closed is terminal.
    fn close(&mut self)
        ensures
            final(self).state() == closed_handler(old(self).state()),
    ;

    /// Whether the handler was closed.
    fn is_closed(&self) -> (r: bool)
        ensures
            r == self.state().closed,
    ;
}

impl MsgHandler for Handler {
    open spec fn state(&self) -> HandlerView {
        self@
    }

    fn handle(&mut self, msg: Vec<u8>) -> (r: Result<(), SCSPErr>) {
        self.mailbox.post(msg);
        Ok(())
    }

    fn identity(&self) -> (r: &str) {
        self.identity.as_str()
    }

    fn channel(&self) -> (r: &str) {
        self.channel.as_str()
    }

    fn close(&mut self) {
        self.closed = true;
    }

    fn is_closed(&self) -> (r: bool) {
        self.closed
    }
}

impl Handler {
    /// An open handler with an empty mailbox.
    pub fn new(ticket: u64, identity: &str, channel: &str, delivery: Delivery) -> (r: Handler)
        ensures
            r@ == (HandlerView {
                ticket,
                identity: identity@,
                channel: channel@,
                delivery,
                pending: None,
                closed: false,
            }),
    {
        Handler {
            ticket,
            identity: identity.to_owned(),
            channel: channel.to_owned(),
            delivery,
            mailbox: Mailbox::new(),
            closed: false,
        }
    }

    /// The number that tells this handler from another one of the same identity.
    pub fn ticket(&self) -> (r: u64)
        ensures
            r == self@.ticket,
    {
        self.ticket
    }

    /// Whether `o` has the same identity as this handler.
    pub fn same_identity(&self, o: &Handler) -> (r: bool)
        ensures
            r == (self@.identity == o@.identity),
    {
        self.identity == o.identity
    }

    /// The delivery strategy.
    pub fn delivery(&self) -> (r: Delivery)
        ensures
            r == self@.delivery,
    {
        self.delivery
    }

    /// Takes the pending message out of the mailbox, if any.
    pub fn take(&mut self) -> (r: Option<Vec<u8>>)
        ensures
            r matches Some(m) ==> old(self)@.pending == Some(m@),
            r is None ==> old(self)@.pending is None,
            final(self)@ == (HandlerView { pending: taken(old(self)@.pending).1, ..old(self)@ }),
    {
        self.mailbox.take()
    }
}

} // verus!
