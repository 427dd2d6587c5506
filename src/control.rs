//! The request-level operations: register a subscriber, publish, inspect.
use vstd::prelude::*;

use crate::context::Context;
use crate::handler::{Delivery, HandlerView};
use crate::pubsub::{identities, published, registered, strings_view, Bus, ChannelSummary};

verus! {

/// The registry as reported to an inspecting client.
pub struct Info {
    pub channels: Vec<ChannelSummary>,
}

/// A request to publish `msg` on `channel`.
pub struct WriteRequest {
    pub msg: Vec<u8>,
    pub channel: String,
}

/// A snapshot of every channel and the identities registered on it.
pub fn info(ctx: &Context) -> (r: Info)
    requires
        ctx.bus.wf(),
    ensures
        r.channels@.len() == ctx.bus@.len(),
        forall|i: int|
            0 <= i < ctx.bus@.len() ==> (#[trigger] r.channels@[i]).channel@ == ctx.bus@[i].0
                && strings_view(r.channels@[i].handlers@) == identities(ctx.bus@[i].1),
{
    let summary = ctx.bus.list_handler();
    Info { channels: summary.channels }
}

/// Publishes the request's message on the request's channel.
pub fn write(ctx: &mut Context, request: WriteRequest)
    requires
        old(ctx).bus.wf(),
    ensures
        final(ctx).bus.wf(),
        final(ctx).bus@ == published(old(ctx).bus@, request.channel@, request.msg@),
        final(ctx).terminated == old(ctx).terminated,
{
    let WriteRequest { msg, channel } = request;
    ctx.bus.publish(channel, msg);
}

/// Registers a one-shot subscriber `client_id` on `channel`, and returns the
/// ticket under which it waits for its message.
pub fn register(ctx: &mut Context, client_id: &str, channel: &str) -> (r: u64)
    requires
        old(ctx).bus.wf(),
    ensures
        final(ctx).bus.wf(),
        r == old(ctx).bus.next_ticket(),
        final(ctx).bus@ == registered(
            old(ctx).bus@,
            HandlerView {
                ticket: r,
                identity: client_id@,
                channel: channel@,
                delivery: Delivery::Polling,
                pending: None,
                closed: false,
            },
        ),
        final(ctx).terminated == old(ctx).terminated,
{
    ctx.bus.register(client_id, channel, Delivery::Polling)
}

} // verus!
