//! The bus: a registry of handlers keyed by channel, with fan-out publish,
//! identity-deduplicating registration and a read-only summary.
use vstd::prelude::*;

use crate::cmm::{
    has_key, key_index, keys_distinct, lemma_key_index, lemma_selected_all, lemma_touched,
    lemma_with_values,
    selected, touched, values_of, with_values, ConcurrentMultiMap, Entries,
};
use crate::data::MsgResponse;
use crate::mailbox::copy_bytes;
use crate::handler::{closed_handler, handled, Delivery, Handler, HandlerView, MsgHandler};

verus! {

/// The registry as the contracts see it: each channel with its handlers.
pub type Registry = Seq<(Seq<char>, Seq<HandlerView>)>;

/// The views of a list of handlers.
pub open spec fn views(s: Seq<Handler>) -> Seq<HandlerView> {
    s.map_values(|h: Handler| h@)
}

/// The registry seen through the handlers' views.
pub open spec fn view_entries(e: Entries<Handler>) -> Registry {
    e.map_values(|p: (Seq<char>, Seq<Handler>)| (p.0, views(p.1)))
}

/// No two handlers of a list share an identity.
pub open spec fn identities_distinct(s: Seq<HandlerView>) -> bool {
    forall|i: int, j: int|
        0 <= i < s.len() && 0 <= j < s.len() && i != j ==> #[trigger] s[i].identity
            != #[trigger] s[j].identity
}

/// Channels are distinct, and so are the identities within each channel.
pub open spec fn bus_wf(r: Registry) -> bool {
    &&& keys_distinct(r)
    &&& forall|i: int| 0 <= i < r.len() ==> identities_distinct(#[trigger] r[i].1)
}

/// Whether some handler of `s` has identity `id`.
pub open spec fn has_identity(s: Seq<HandlerView>, id: Seq<char>) -> bool {
    exists|i: int| 0 <= i < s.len() && #[trigger] s[i].identity == id
}

/// The position of the handler with identity `id`.
pub open spec fn identity_index(s: Seq<HandlerView>, id: Seq<char>) -> int {
    choose|i: int| 0 <= i < s.len() && #[trigger] s[i].identity == id
}

/// Which handlers stay on a publish: the open ones.
pub open spec fn open_flags(s: Seq<HandlerView>) -> Seq<bool> {
    Seq::new(s.len(), |i: int| !s[i].closed)
}

/// The open handlers of `s`, in their order.
pub open spec fn open_only(s: Seq<HandlerView>) -> Seq<HandlerView> {
    selected(s, open_flags(s))
}

/// Every handler of `s` after `msg` was posted to it.
pub open spec fn all_handled(s: Seq<HandlerView>, msg: Seq<u8>) -> Seq<HandlerView> {
    s.map_values(|h: HandlerView| handled(h, msg))
}

/// The registry after a publish of `msg` on `ch`: the closed handlers of `ch`
/// are gone, and each remaining one holds `msg`. Other channels are untouched.
pub open spec fn published(r: Registry, ch: Seq<char>, msg: Seq<u8>) -> Registry {
    with_values(r, ch, all_handled(open_only(values_of(r, ch)), msg))
}

/// The registry after `h` was registered: `h` is appended to its channel's
/// list unless a handler of the same identity is already there.
pub open spec fn registered(r: Registry, h: HandlerView) -> Registry {
    let vs = values_of(r, h.channel);
    if has_identity(vs, h.identity) {
        touched(r, h.channel)
    } else {
        with_values(touched(r, h.channel), h.channel, vs.push(h))
    }
}

/// Whether the handler with identity `id` on `ch` is the one with `ticket`.
pub open spec fn is_registered(r: Registry, ch: Seq<char>, id: Seq<char>, ticket: u64) -> bool {
    let vs = values_of(r, ch);
    has_identity(vs, id) && vs[identity_index(vs, id)].ticket == ticket
}

/// The registry after the handler `(ch, id, ticket)` was closed; unchanged
/// where that handler is not the registered one.
pub open spec fn closed_in(r: Registry, ch: Seq<char>, id: Seq<char>, ticket: u64) -> Registry {
    let vs = values_of(r, ch);
    if is_registered(r, ch, id, ticket) {
        let i = identity_index(vs, id);
        with_values(r, ch, vs.update(i, closed_handler(vs[i])))
    } else {
        r
    }
}

/// The message that a take on the handler `(ch, id, ticket)` hands out.
pub open spec fn pending_of(r: Registry, ch: Seq<char>, id: Seq<char>, ticket: u64) -> Option<
    Seq<u8>,
> {
    let vs = values_of(r, ch);
    if is_registered(r, ch, id, ticket) {
        vs[identity_index(vs, id)].pending
    } else {
        None
    }
}

/// The registry after that take: the handler's mailbox is empty.
pub open spec fn taken_in(r: Registry, ch: Seq<char>, id: Seq<char>, ticket: u64) -> Registry {
    let vs = values_of(r, ch);
    if is_registered(r, ch, id, ticket) {
        let i = identity_index(vs, id);
        with_values(r, ch, vs.update(i, HandlerView { pending: None, ..vs[i] }))
    } else {
        r
    }
}

/// The identities of a list of handlers.
pub open spec fn identities(s: Seq<HandlerView>) -> Seq<Seq<char>> {
    s.map_values(|h: HandlerView| h.identity)
}

/// With distinct identities, the handler found at `i` is the one that
/// `identity_index` names.
pub proof fn lemma_identity_index(s: Seq<HandlerView>, i: int)
    requires
        identities_distinct(s),
        0 <= i < s.len(),
    ensures
        has_identity(s, s[i].identity),
        identity_index(s, s[i].identity) == i,
{
    assert(has_identity(s, s[i].identity));
}

/// Viewing the handlers commutes with the registry's operations.
pub proof fn lemma_view_entries(e: Entries<Handler>, k: Seq<char>)
    ensures
        keys_distinct(e) <==> keys_distinct(view_entries(e)),
        has_key(e, k) == has_key(view_entries(e), k),
        view_entries(e).len() == e.len(),
        forall|i: int| 0 <= i < e.len() ==> (#[trigger] view_entries(e)[i]).0 == e[i].0,
        keys_distinct(e) ==> values_of(view_entries(e), k) == views(values_of(e, k)),
        keys_distinct(e) ==> view_entries(touched(e, k)) == touched(view_entries(e), k),
        keys_distinct(e) ==> forall|vs: Seq<Handler>|
            view_entries(#[trigger] with_values(e, k, vs)) == with_values(
                view_entries(e),
                k,
                views(vs),
            ),
{
    let v = view_entries(e);
    assert(forall|i: int| 0 <= i < e.len() ==> (#[trigger] v[i]).0 == e[i].0);
    if has_key(e, k) {
        let i = choose|i: int| 0 <= i < e.len() && #[trigger] e[i].0 == k;
        assert(v[i].0 == k);
    }
    if has_key(v, k) {
        let i = choose|i: int| 0 <= i < v.len() && #[trigger] v[i].0 == k;
        assert(e[i].0 == k);
    }
    if keys_distinct(e) {
        assert forall|a: int, b: int|
            0 <= a < v.len() && 0 <= b < v.len() && a != b implies v[a].0 != v[b].0 by {
            assert(v[a].0 == e[a].0);
            assert(v[b].0 == e[b].0);
        }
        if has_key(e, k) {
            let i = key_index(e, k);
            lemma_key_index(e, i);
            lemma_key_index(v, i);
            assert forall|vs: Seq<Handler>|
                view_entries(#[trigger] with_values(e, k, vs)) == with_values(v, k, views(vs)) by {
                assert(view_entries(with_values(e, k, vs)) =~= with_values(v, k, views(vs)));
            }
        } else {
            assert(views(Seq::<Handler>::empty()) =~= Seq::<HandlerView>::empty());
            assert(view_entries(e.push((k, Seq::empty()))) =~= v.push((k, Seq::empty())));
        }
    }
    if keys_distinct(v) {
        assert forall|a: int, b: int|
            0 <= a < e.len() && 0 <= b < e.len() && a != b implies e[a].0 != e[b].0 by {
            assert(v[a].0 == e[a].0);
            assert(v[b].0 == e[b].0);
        }
    }
}

/// Creating a channel keeps the registry well formed.
pub proof fn lemma_bus_wf_touched(r: Registry, k: Seq<char>)
    requires
        bus_wf(r),
    ensures
        bus_wf(touched(r, k)),
{
    lemma_touched(r, k);
    if !has_key(r, k) {
        let t = touched(r, k);
        assert forall|i: int| 0 <= i < t.len() implies identities_distinct(#[trigger] t[i].1) by {
            if i < r.len() {
                assert(t[i] == r[i]);
            }
        }
    }
}

/// Replacing a channel's list by one with distinct identities keeps the
/// registry well formed.
pub proof fn lemma_bus_wf_with_values(r: Registry, k: Seq<char>, vs: Seq<HandlerView>)
    requires
        bus_wf(r),
        has_key(r, k),
        identities_distinct(vs),
    ensures
        bus_wf(with_values(r, k, vs)),
{
    lemma_with_values(r, k, vs);
    let w = with_values(r, k, vs);
    assert forall|i: int| 0 <= i < w.len() implies identities_distinct(#[trigger] w[i].1) by {
        if i != key_index(r, k) {
            assert(w[i] == r[i]);
        }
    }
}

/// A channel's handlers have distinct identities.
pub proof fn lemma_values_distinct(r: Registry, k: Seq<char>)
    requires
        bus_wf(r),
    ensures
        identities_distinct(values_of(r, k)),
{
    if has_key(r, k) {
        lemma_key_index(r, key_index(r, k));
    }
}

/// Dropping handlers keeps the identities distinct.
pub proof fn lemma_selected_distinct(s: Seq<HandlerView>, keep: Seq<bool>)
    requires
        identities_distinct(s),
    ensures
        identities_distinct(selected(s, keep)),
    decreases s.len(),
{
    if s.len() > 0 {
        let d = s.drop_last();
        let last = s[s.len() - 1];
        assert(identities_distinct(d)) by {
            assert forall|a: int, b: int|
                0 <= a < d.len() && 0 <= b < d.len() && a != b implies d[a].identity
                != d[b].identity by {
                assert(d[a] == s[a] && d[b] == s[b]);
            }
        }
        lemma_selected_distinct(d, keep);
        let p = |x: HandlerView| x.identity != last.identity;
        assert forall|i: int| 0 <= i < d.len() && keep[i] implies p(#[trigger] d[i]) by {
            assert(d[i] == s[i]);
        }
        lemma_selected_all(d, keep, p);
        let pre = selected(d, keep);
        let sel = selected(s, keep);
        if keep[s.len() - 1] {
            assert forall|a: int, b: int|
                0 <= a < sel.len() && 0 <= b < sel.len() && a != b implies sel[a].identity
                != sel[b].identity by {
                if a < pre.len() && b < pre.len() {
                    assert(sel[a] == pre[a] && sel[b] == pre[b]);
                } else if a < pre.len() {
                    assert(p(pre[a]));
                    assert(sel[a] == pre[a]);
                    assert(sel[b] == last);
                } else {
                    assert(p(pre[b]));
                    assert(sel[b] == pre[b]);
                    assert(sel[a] == last);
                }
            }
        }
    }
}

/// Viewing handlers commutes with selecting them.
pub proof fn lemma_selected_views(s: Seq<Handler>, keep: Seq<bool>)
    ensures
        views(selected(s, keep)) == selected(views(s), keep),
    decreases s.len(),
{
    if s.len() == 0 {
        assert(views(selected(s, keep)) =~= selected(views(s), keep));
    } else {
        lemma_selected_views(s.drop_last(), keep);
        assert(views(s.drop_last()) =~= views(s).drop_last());
        let pre = selected(s.drop_last(), keep);
        assert(views(pre.push(s.last())) =~= views(pre).push(s.last()@));
    }
}

/// Replacing a list twice is replacing it once.
pub proof fn lemma_with_values_twice<V>(m: Entries<V>, k: Seq<char>, a: Seq<V>, b: Seq<V>)
    requires
        keys_distinct(m),
    ensures
        with_values(with_values(m, k, a), k, b) == with_values(m, k, b),
{
    if has_key(m, k) {
        lemma_with_values(m, k, a);
        assert(with_values(with_values(m, k, a), k, b) =~= with_values(m, k, b));
    }
}

/// A registration keeps the registry well formed, and leaves a handler of
/// the registered identity on its channel.
pub proof fn lemma_registered(r: Registry, h: HandlerView)
    requires
        bus_wf(r),
    ensures
        bus_wf(registered(r, h)),
        has_identity(values_of(registered(r, h), h.channel), h.identity),
        !has_identity(values_of(r, h.channel), h.identity) ==> values_of(
            registered(r, h),
            h.channel,
        ) == values_of(r, h.channel).push(h),
{
    let k = h.channel;
    let vs = values_of(r, k);
    lemma_values_distinct(r, k);
    lemma_touched(r, k);
    lemma_bus_wf_touched(r, k);
    if has_identity(vs, h.identity) {
    } else {
        let t = touched(r, k);
        let pushed = vs.push(h);
        assert(identities_distinct(pushed)) by {
            assert forall|a: int, b: int|
                0 <= a < pushed.len() && 0 <= b < pushed.len() && a != b implies pushed[a].identity
                != pushed[b].identity by {
                if a == vs.len() {
                    assert(!(vs[b].identity == h.identity));
                } else if b == vs.len() {
                    assert(!(vs[a].identity == h.identity));
                } else {
                    assert(pushed[a] == vs[a] && pushed[b] == vs[b]);
                }
            }
        }
        lemma_bus_wf_with_values(t, k, pushed);
        lemma_with_values(t, k, pushed);
        assert(pushed[vs.len() as int].identity == h.identity);
    }
}

/// The names of a list of strings.
pub open spec fn strings_view(s: Seq<String>) -> Seq<Seq<char>> {
    s.map_values(|x: String| x@)
}

/// One channel and the identities of the handlers registered on it.
pub struct ChannelSummary {
    pub handlers: Vec<String>,
    pub channel: String,
}

/// A snapshot of the whole registry.
pub struct MsgHandlerSummary {
    pub channels: Vec<ChannelSummary>,
}

/// The handler `(ch, id, ticket)` is the registered one, and it is closed.
pub open spec fn is_closed_in(r: Registry, ch: Seq<char>, id: Seq<char>, ticket: u64) -> bool {
    let vs = values_of(r, ch);
    is_registered(r, ch, id, ticket) && vs[identity_index(vs, id)].closed
}

/// What a push-delivery loop does next.
pub enum StreamAction {
    /// Forward this message as one frame.
    Send(Vec<u8>),
    /// Nothing to forward yet: wait for a post, then ask again.
    Wait,
    /// The handler is closed: leave the loop.
    Exit,
}

/// The in-memory bus.
pub struct SimpleBus {
    handlers: ConcurrentMultiMap<Handler>,
    issued: u64,
}

impl View for SimpleBus {
    type V = Registry;

    closed spec fn view(&self) -> Registry {
        view_entries(self.handlers@)
    }
}

impl SimpleBus {
    /// The registry's invariant: distinct channels, distinct identities per channel.
    pub open spec fn wf(&self) -> bool {
        bus_wf(self@)
    }

    /// The ticket that the next call of `register` hands out.
    pub closed spec fn next_ticket(&self) -> u64 {
        self.issued
    }

    /// A bus with no channels.
    pub fn new() -> (r: SimpleBus)
        ensures
            r@ == Seq::<(Seq<char>, Seq<HandlerView>)>::empty(),
            r.wf(),
    {
        let r = SimpleBus { handlers: ConcurrentMultiMap::new(), issued: 0 };
        assert(r@ =~= Seq::<(Seq<char>, Seq<HandlerView>)>::empty());
        r
    }

    /// The position of the handler `(channel, identity, ticket)` in its
    /// channel's list, where it is the registered one.
    fn locate(&self, channel: &str, identity: &str, ticket: u64) -> (r: Option<usize>)
        requires
            self.wf(),
        ensures
            r is Some <==> is_registered(self@, channel@, identity@, ticket),
            r matches Some(i) ==> i == identity_index(values_of(self@, channel@), identity@)
                && i < values_of(self@, channel@).len(),
    {
        let ghost e = self.handlers@;
        let ghost k = channel@;
        proof {
            lemma_view_entries(e, k);
            lemma_values_distinct(self@, k);
        }
        let ghost vs = values_of(self@, k);
        let tag = |h: &Handler| -> (r: (String, u64))
            ensures
                r.0@ == h@.identity && r.1 == h@.ticket,
            { (h.identity().to_owned(), h.ticket()) };
        let tags = self.handlers.for_each(channel, tag);
        let id = identity.to_owned();
        let mut j: usize = 0;
        while j < tags.len()
            invariant
                j <= tags.len(),
                tags@.len() == vs.len(),
                vs == views(values_of(e, k)),
                identities_distinct(vs),
                vs == values_of(self@, channel@),
                k == channel@,
                id@ == identity@,
                forall|h: &Handler, r: (String, u64)|
                    tag.ensures((h,), r) ==> r.0@ == h@.identity && r.1 == h@.ticket,
                forall|x: int|
                    0 <= x < tags@.len() ==> tag.ensures((&values_of(e, k)[x],), #[trigger] tags@[x]),
                forall|x: int| 0 <= x < j ==> #[trigger] vs[x].identity != identity@,
            decreases tags.len() - j,
        {
            assert(tag.ensures((&values_of(e, k)[j as int],), tags@[j as int]));
            assert(vs[j as int] == values_of(e, k)[j as int]@);
            if tags[j].0 == id {
                proof {
                    assert(vs[j as int].identity == identity@);
                    lemma_identity_index(vs, j as int);
                }
                if tags[j].1 == ticket {
                    return Some(j);
                } else {
                    return None;
                }
            }
            j = j + 1;
        }
        None
    }

    /// Whether the handler `(channel, identity, ticket)` is registered and closed.
    pub fn is_closed(&self, channel: &str, identity: &str, ticket: u64) -> (r: bool)
        requires
            self.wf(),
        ensures
            r == is_closed_in(self@, channel@, identity@, ticket),
    {
        match self.locate(channel, identity, ticket) {
            None => false,
            Some(i) => {
                let ghost e = self.handlers@;
                proof {
                    lemma_view_entries(e, channel@);
                }
                let closed = |h: &Handler| -> (r: bool)
                    ensures
                        r == h@.closed,
                    { h.is_closed() };
                let flags = self.handlers.for_each(channel, closed);
                assert(closed.ensures((&values_of(e, channel@)[i as int],), flags@[i as int]));
                flags[i]
            },
        }
    }

    /// Puts `h` at position `i` of `channel`'s list, and hands back the one
    /// that stood there.
    fn swap_handler(&mut self, channel: &str, i: usize, h: Handler) -> (r: Handler)
        requires
            old(self).wf(),
            has_key(old(self)@, channel@),
            i < values_of(old(self)@, channel@).len(),
            h@.identity == values_of(old(self)@, channel@)[i as int].identity,
        ensures
            final(self).wf(),
            r@ == values_of(old(self)@, channel@)[i as int],
            final(self)@ == with_values(
                old(self)@,
                channel@,
                values_of(old(self)@, channel@).update(i as int, h@),
            ),
            final(self).next_ticket() == old(self).next_ticket(),
    {
        let ghost e = self.handlers@;
        let ghost k = channel@;
        let ghost hv = h@;
        let ghost hh = h;
        proof {
            lemma_view_entries(e, k);
        }
        let r = self.handlers.replace(channel, i, h);
        proof {
            let vs = values_of(e, k);
            lemma_view_entries(e, k);
            assert(views(vs.update(i as int, hh)) =~= views(vs).update(i as int, hv));
            let nv = views(vs).update(i as int, hv);
            lemma_values_distinct(view_entries(e), k);
            assert(identities_distinct(nv)) by {
                let ov = views(vs);
                assert forall|a: int, b: int|
                    0 <= a < nv.len() && 0 <= b < nv.len() && a != b implies nv[a].identity
                    != nv[b].identity by {
                    assert(nv[a].identity == ov[a].identity);
                    assert(nv[b].identity == ov[b].identity);
                }
            }
            lemma_bus_wf_with_values(view_entries(e), k, nv);
        }
        r
    }

    /// Closes the handler `(channel, identity, ticket)`, where it is the
    /// registered one; otherwise nothing changes.
    pub fn close(&mut self, channel: &str, identity: &str, ticket: u64)
        requires
            old(self).wf(),
        ensures
            final(self).wf(),
            final(self)@ == closed_in(old(self)@, channel@, identity@, ticket),
            final(self).next_ticket() == old(self).next_ticket(),
    {
        match self.locate(channel, identity, ticket) {
            None => {},
            Some(i) => {
                let ghost r0 = self@;
                let ghost k = channel@;
                let ghost vs = values_of(r0, k);
                let placeholder = Handler::new(ticket, identity, channel, Delivery::Polling);
                let mut h = self.swap_handler(channel, i, placeholder);
                h.close();
                proof {
                    lemma_with_values(r0, k, vs.update(i as int, placeholder@));
                }
                self.swap_handler(channel, i, h);
                proof {
                    lemma_with_values_twice(
                        r0,
                        k,
                        vs.update(i as int, placeholder@),
                        vs.update(i as int, placeholder@).update(i as int, h@),
                    );
                    assert(vs.update(i as int, placeholder@).update(i as int, h@) =~= vs.update(
                        i as int,
                        closed_handler(vs[i as int]),
                    ));
                }
            },
        }
    }

    /// Takes the pending message of the handler `(channel, identity, ticket)`,
    /// where it is the registered one; otherwise there is none.
    pub fn take(&mut self, channel: &str, identity: &str, ticket: u64) -> (r: Option<Vec<u8>>)
        requires
            old(self).wf(),
        ensures
            final(self).wf(),
            final(self)@ == taken_in(old(self)@, channel@, identity@, ticket),
            r matches Some(m) ==> pending_of(old(self)@, channel@, identity@, ticket) == Some(m@),
            r is None ==> pending_of(old(self)@, channel@, identity@, ticket) is None,
            final(self).next_ticket() == old(self).next_ticket(),
    {
        match self.locate(channel, identity, ticket) {
            None => None,
            Some(i) => {
                let ghost r0 = self@;
                let ghost k = channel@;
                let ghost vs = values_of(r0, k);
                let placeholder = Handler::new(ticket, identity, channel, Delivery::Polling);
                let mut h = self.swap_handler(channel, i, placeholder);
                let m = h.take();
                proof {
                    lemma_with_values(r0, k, vs.update(i as int, placeholder@));
                }
                self.swap_handler(channel, i, h);
                proof {
                    lemma_with_values_twice(
                        r0,
                        k,
                        vs.update(i as int, placeholder@),
                        vs.update(i as int, placeholder@).update(i as int, h@),
                    );
                    assert(vs.update(i as int, placeholder@).update(i as int, h@) =~= vs.update(
                        i as int,
                        HandlerView { pending: None, ..vs[i as int] },
                    ));
                }
                m
            },
        }
    }

    /// Builds an open handler of the next ticket for `identity` on `channel`
    /// and registers it; returns its ticket. Where `identity` is already on
    /// `channel`, the registry keeps the earlier handler, and the new ticket
    /// never receives anything.
    pub fn register(&mut self, identity: &str, channel: &str, delivery: Delivery) -> (r: u64)
        requires
            old(self).wf(),
        ensures
            final(self).wf(),
            r == old(self).next_ticket(),
            final(self)@ == registered(
                old(self)@,
                HandlerView {
                    ticket: r,
                    identity: identity@,
                    channel: channel@,
                    delivery,
                    pending: None,
                    closed: false,
                },
            ),
            final(self).next_ticket() == if r < u64::MAX {
                (r + 1) as u64
            } else {
                0
            },
    {
        let ticket = self.issued;
        let h = Handler::new(ticket, identity, channel, delivery);
        self.register_handler(h);
        self.issued = if ticket < u64::MAX {
            ticket + 1
        } else {
            0
        };
        ticket
    }

    /// One round of a push-delivery loop for the handler `(channel, identity,
    /// ticket)`. A terminated connection closes the handler and ends the loop;
    /// so does a handler already closed. Otherwise the pending message, if
    /// any, is taken out to be sent; without one the loop waits.
    pub fn stream_step(
        &mut self,
        channel: &str,
        identity: &str,
        ticket: u64,
        connection_open: bool,
    ) -> (r: StreamAction)
        requires
            old(self).wf(),
        ensures
            final(self).wf(),
            final(self).next_ticket() == old(self).next_ticket(),
            !connection_open ==> r is Exit && final(self)@ == closed_in(
                old(self)@,
                channel@,
                identity@,
                ticket,
            ),
            connection_open && is_closed_in(old(self)@, channel@, identity@, ticket) ==> r is Exit
                && final(self)@ == old(self)@,
            connection_open && !is_closed_in(old(self)@, channel@, identity@, ticket) ==> final(self)@
                == taken_in(old(self)@, channel@, identity@, ticket) && match r {
                StreamAction::Send(m) => pending_of(old(self)@, channel@, identity@, ticket)
                    == Some(m@),
                StreamAction::Wait => pending_of(old(self)@, channel@, identity@, ticket) is None,
                StreamAction::Exit => false,
            },
    {
        if !connection_open {
            self.close(channel, identity, ticket);
            return StreamAction::Exit;
        }
        if self.is_closed(channel, identity, ticket) {
            return StreamAction::Exit;
        }
        match self.take(channel, identity, ticket) {
            Some(m) => StreamAction::Send(m),
            None => StreamAction::Wait,
        }
    }

    /// One round of a one-shot pull for the handler `(channel, identity,
    /// ticket)`. A pending message is answered and the handler closed. With
    /// none, a timeout or a closed handler is answered with "no message" and
    /// the handler closed; otherwise the pull keeps waiting (`None`).
    pub fn pull_step(
        &mut self,
        channel: &str,
        identity: &str,
        ticket: u64,
        timed_out: bool,
    ) -> (r: Option<MsgResponse>)
        requires
            old(self).wf(),
        ensures
            final(self).wf(),
            final(self).next_ticket() == old(self).next_ticket(),
            pending_of(old(self)@, channel@, identity@, ticket) matches Some(m) ==> (r matches Some(
                resp,
            ) && resp.has_msg && resp.msg@ == m),
            pending_of(old(self)@, channel@, identity@, ticket) is None && (timed_out
                || is_closed_in(old(self)@, channel@, identity@, ticket)) ==> (r matches Some(resp)
                && !resp.has_msg && resp.msg@.len() == 0),
            pending_of(old(self)@, channel@, identity@, ticket) is None && !timed_out
                && !is_closed_in(old(self)@, channel@, identity@, ticket) ==> r is None,
            r is Some ==> final(self)@ == closed_in(
                taken_in(old(self)@, channel@, identity@, ticket),
                channel@,
                identity@,
                ticket,
            ),
            r is None ==> final(self)@ == taken_in(old(self)@, channel@, identity@, ticket),
    {
        let was_closed = self.is_closed(channel, identity, ticket);
        match self.take(channel, identity, ticket) {
            Some(m) => {
                self.close(channel, identity, ticket);
                Some(MsgResponse { has_msg: true, msg: m })
            },
            None => {
                if timed_out || was_closed {
                    self.close(channel, identity, ticket);
                    Some(MsgResponse { has_msg: false, msg: Vec::new() })
                } else {
                    None
                }
            },
        }
    }
}

/// What a bus offers, whatever its delivery strategies: fan-out publish,
/// identity-deduplicating registration, and a summary of the registry.
pub trait Bus {
    /// The registry, channel by channel.
    spec fn registry(&self) -> Registry;

    /// The registry's invariant holds.
    spec fn sound(&self) -> bool;

    /// Publishes `msg` on `channel`: first the closed handlers of `channel` are
    /// evicted, then `msg` is posted to every remaining one. Other channels are
    /// left alone, and nothing happens where `channel` has no entry.
    fn publish(&mut self, channel: String, msg: Vec<u8>)
        requires
            old(self).sound(),
        ensures
            final(self).sound(),
            final(self).registry() == published(old(self).registry(), channel@, msg@),
    ;

    /// Registers `h` on its channel, creating the channel where needed. Where a
    /// handler of the same identity is already there, that one is kept and `h`
    /// is dropped.
    fn register_handler(&mut self, h: Handler)
        requires
            old(self).sound(),
        ensures
            final(self).sound(),
            final(self).registry() == registered(old(self).registry(), h@),
    ;

    /// A snapshot of every channel with the identities of its handlers, closed
    /// ones not yet evicted included.
    fn list_handler(&self) -> (r: MsgHandlerSummary)
        requires
            self.sound(),
        ensures
            r.channels@.len() == self.registry().len(),
            forall|i: int|
                0 <= i < self.registry().len() ==> (#[trigger] r.channels@[i]).channel@
                    == self.registry()[i].0 && strings_view(r.channels@[i].handlers@)
                    == identities(self.registry()[i].1),
    ;
}

impl Bus for SimpleBus {
    open spec fn registry(&self) -> Registry {
        self@
    }

    open spec fn sound(&self) -> bool {
        self.wf()
    }

    fn register_handler(&mut self, h: Handler) {
        let ghost e = self.handlers@;
        let ghost hv = h@;
        let ghost hh = h;
        let ghost k = h@.channel;
        proof {
            lemma_view_entries(e, k);
            lemma_touched(e, k);
            lemma_view_entries(touched(e, k), k);
            lemma_bus_wf_touched(self@, k);
        }
        let ghost before = values_of(e, k);
        let ch = h.channel().to_owned();
        let same = |a: &Handler, b: &Handler| -> (r: bool)
            ensures
                r == (a@.identity == b@.identity),
            { a.same_identity(b) };
        self.handlers.append_if_absent(ch.as_str(), h, same);
        proof {
            let r0 = view_entries(e);
            let vb = views(before);
            let t = touched(e, k);
            lemma_values_distinct(r0, k);
            lemma_touched(r0, k);
            if has_identity(vb, hv.identity) {
                let i = choose|i: int| 0 <= i < vb.len() && #[trigger] vb[i].identity == hv.identity;
                assert(before[i]@.identity == hv.identity);
                assert(self.handlers@ == t);
            } else {
                assert forall|i: int| 0 <= i < before.len() implies !(before[i]@.identity
                    == hv.identity) by {
                    assert(vb[i].identity == before[i]@.identity);
                }
                let pushed = before.push(hh);
                assert(self.handlers@ == with_values(t, k, pushed));
                assert(views(pushed) =~= vb.push(hv));
                lemma_bus_wf_with_values(touched(r0, k), k, vb.push(hv));
            }
        }
    }

    fn publish(&mut self, channel: String, msg: Vec<u8>) {
        let ghost e0 = self.handlers@;
        let ghost k = channel@;
        let ghost r0 = self@;
        proof {
            lemma_view_entries(e0, k);
        }
        let is_closed = |h: &Handler| -> (r: bool)
            ensures
                r == h@.closed,
            { h.is_closed() };
        self.handlers.remove_if(channel.as_str(), is_closed);
        let ghost e1 = self.handlers@;
        let post = |h: Handler| -> (r: Handler)
            ensures
                r@ == handled(h@, msg@),
            {
                let mut h = h;
                let _ = h.handle(copy_bytes(&msg));
                h
            };
        self.handlers.for_each_mut(channel.as_str(), post);
        let ghost e2 = self.handlers@;
        proof {
            let before = values_of(e0, k);
            let v1 = values_of(e1, k);
            let v2 = values_of(e2, k);
            let keep = choose|keep: Seq<bool>|
                keep.len() == before.len() && (forall|j: int|
                    0 <= j < keep.len() ==> is_closed.ensures((&before[j],), !keep[j]))
                    && v1 == #[trigger] selected(before, keep);
            let vb = views(before);
            assert(keep =~= open_flags(vb));
            lemma_selected_views(before, keep);
            assert(views(v1) == open_only(vb));
            assert(views(v2) =~= all_handled(views(v1), msg@));
            lemma_view_entries(e1, k);
            lemma_view_entries(e2, k);
            lemma_with_values_twice(r0, k, views(v1), views(v2));
            assert(self@ == published(r0, k, msg@));
            lemma_values_distinct(r0, k);
            lemma_selected_distinct(vb, keep);
            let fin = all_handled(open_only(vb), msg@);
            assert(identities_distinct(fin)) by {
                let o = open_only(vb);
                assert forall|a: int, b: int|
                    0 <= a < fin.len() && 0 <= b < fin.len() && a != b implies fin[a].identity
                    != fin[b].identity by {
                    assert(fin[a].identity == o[a].identity);
                    assert(fin[b].identity == o[b].identity);
                }
            }
            if has_key(r0, k) {
                lemma_bus_wf_with_values(r0, k, fin);
            }
        }
    }

    fn list_handler(&self) -> (r: MsgHandlerSummary) {
        let ghost e = self.handlers@;
        proof {
            lemma_view_entries(e, Seq::empty());
        }
        let keys = self.handlers.keys();
        let mut channels: Vec<ChannelSummary> = Vec::new();
        let mut i: usize = 0;
        while i < keys.len()
            invariant
                i <= keys.len(),
                keys@.len() == e.len(),
                e == self.handlers@,
                keys_distinct(e),
                self@ == view_entries(e),
                forall|j: int| 0 <= j < keys@.len() ==> #[trigger] keys@[j]@ == e[j].0,
                channels@.len() == i,
                forall|j: int|
                    0 <= j < i ==> (#[trigger] channels@[j]).channel@ == self@[j].0
                        && strings_view(channels@[j].handlers@) == identities(self@[j].1),
            decreases keys.len() - i,
        {
            let name = |h: &Handler| -> (r: String)
                ensures
                    r@ == h@.identity,
                { h.identity().to_owned() };
            let ids = self.handlers.for_each(keys[i].as_str(), name);
            proof {
                lemma_key_index(e, i as int);
                let vs = values_of(e, keys@[i as int]@);
                assert(vs == e[i as int].1);
                assert(self@[i as int].1 == views(e[i as int].1));
                assert(strings_view(ids@) =~= identities(self@[i as int].1)) by {
                    assert forall|j: int| 0 <= j < ids@.len() implies strings_view(ids@)[j]
                        == identities(self@[i as int].1)[j] by {
                        assert(name.ensures((&vs[j],), ids@[j]));
                    }
                }
            }
            channels.push(ChannelSummary { handlers: ids, channel: keys[i].clone() });
            i = i + 1;
        }
        MsgHandlerSummary { channels }
    }
}

/// Registering the same `(channel, identity)` twice leaves exactly one
/// handler of that identity on the channel.
pub proof fn lemma_identity_dedup(r: Registry, h1: HandlerView, h2: HandlerView)
    requires
        bus_wf(r),
        h1.channel == h2.channel,
        h1.identity == h2.identity,
    ensures
        bus_wf(registered(registered(r, h1), h2)),
        ({
            let vs = values_of(registered(registered(r, h1), h2), h1.channel);
            &&& has_identity(vs, h1.identity)
            &&& forall|i: int, j: int|
                0 <= i < vs.len() && 0 <= j < vs.len() && vs[i].identity == h1.identity
                    && vs[j].identity == h1.identity ==> i == j
        }),
{
    lemma_registered(r, h1);
    lemma_registered(registered(r, h1), h2);
    lemma_values_distinct(registered(registered(r, h1), h2), h1.channel);
}

/// A publish on `ch` posts `msg` to every open handler of `ch`, in their
/// order, and changes no other channel.
pub proof fn lemma_fan_out(r: Registry, ch: Seq<char>, msg: Seq<u8>, other: Seq<char>)
    requires
        bus_wf(r),
        other != ch,
    ensures
        values_of(published(r, ch, msg), other) == values_of(r, other),
        forall|i: int|
            0 <= i < values_of(published(r, ch, msg), ch).len() ==> (#[trigger] values_of(
                published(r, ch, msg),
                ch,
            )[i]).pending == Some(msg),
        values_of(published(r, ch, msg), ch) == all_handled(open_only(values_of(r, ch)), msg),
{
    let fin = all_handled(open_only(values_of(r, ch)), msg);
    if has_key(r, ch) {
        lemma_with_values(r, ch, fin);
    } else {
        assert(values_of(r, ch) =~= Seq::<HandlerView>::empty());
        assert(open_only(values_of(r, ch)).len() == 0);
        assert(fin =~= Seq::<HandlerView>::empty());
    }
}

/// Once a registered handler is closed, the next publish on its channel
/// evicts it: no handler of its identity is left there.
pub proof fn lemma_lazy_eviction(r: Registry, ch: Seq<char>, id: Seq<char>, ticket: u64, msg: Seq<u8>)
    requires
        bus_wf(r),
        is_registered(r, ch, id, ticket),
    ensures
        bus_wf(published(closed_in(r, ch, id, ticket), ch, msg)),
        !has_identity(values_of(published(closed_in(r, ch, id, ticket), ch, msg), ch), id),
        !is_registered(published(closed_in(r, ch, id, ticket), ch, msg), ch, id, ticket),
{
    let vs = values_of(r, ch);
    if !has_key(r, ch) {
        assert(vs.len() == 0);
    }
    let i = identity_index(vs, id);
    lemma_values_distinct(r, ch);
    let vs1 = vs.update(i, closed_handler(vs[i]));
    assert(identities_distinct(vs1)) by {
        assert forall|a: int, b: int|
            0 <= a < vs1.len() && 0 <= b < vs1.len() && a != b implies vs1[a].identity
            != vs1[b].identity by {
            assert(vs1[a].identity == vs[a].identity);
            assert(vs1[b].identity == vs[b].identity);
        }
    }
    lemma_bus_wf_with_values(r, ch, vs1);
    lemma_with_values(r, ch, vs1);
    let r1 = closed_in(r, ch, id, ticket);
    assert(values_of(r1, ch) == vs1);
    let keep = open_flags(vs1);
    let p = |x: HandlerView| x.identity != id;
    assert forall|j: int| 0 <= j < vs1.len() && keep[j] implies p(#[trigger] vs1[j]) by {
        if vs1[j].identity == id {
            assert(vs1[j].identity == vs1[i].identity);
        }
    }
    lemma_selected_all(vs1, keep, p);
    let o = open_only(vs1);
    let fin = all_handled(o, msg);
    lemma_selected_distinct(vs1, keep);
    assert(identities_distinct(fin)) by {
        assert forall|a: int, b: int|
            0 <= a < fin.len() && 0 <= b < fin.len() && a != b implies fin[a].identity
            != fin[b].identity by {
            assert(fin[a].identity == o[a].identity);
            assert(fin[b].identity == o[b].identity);
        }
    }
    lemma_bus_wf_with_values(r1, ch, fin);
    lemma_with_values(r1, ch, fin);
    assert forall|j: int| 0 <= j < fin.len() implies fin[j].identity != id by {
        assert(fin[j].identity == o[j].identity);
        assert(p(o[j]));
    }
}

/// A one-shot pull that answered leaves its handler closed, whether or not it
/// carried a message.
pub proof fn lemma_pull_closes(r: Registry, ch: Seq<char>, id: Seq<char>, ticket: u64)
    requires
        bus_wf(r),
        is_registered(r, ch, id, ticket),
    ensures
        bus_wf(taken_in(r, ch, id, ticket)),
        is_registered(taken_in(r, ch, id, ticket), ch, id, ticket),
        is_closed_in(closed_in(taken_in(r, ch, id, ticket), ch, id, ticket), ch, id, ticket),
{
    let vs = values_of(r, ch);
    if !has_key(r, ch) {
        assert(vs.len() == 0);
    }
    let i = identity_index(vs, id);
    lemma_values_distinct(r, ch);
    let vs1 = vs.update(i, HandlerView { pending: None, ..vs[i] });
    lemma_with_values(r, ch, vs1);
    let r1 = taken_in(r, ch, id, ticket);
    assert(identities_distinct(vs1)) by {
        assert forall|a: int, b: int|
            0 <= a < vs1.len() && 0 <= b < vs1.len() && a != b implies vs1[a].identity
            != vs1[b].identity by {
            assert(vs1[a].identity == vs[a].identity);
            assert(vs1[b].identity == vs[b].identity);
        }
    }
    lemma_identity_index(vs1, i);
    assert(is_registered(r1, ch, id, ticket));
    lemma_bus_wf_with_values(r, ch, vs1);
    let vs2 = vs1.update(i, closed_handler(vs1[i]));
    lemma_with_values(r1, ch, vs2);
    assert(identities_distinct(vs2)) by {
        assert forall|a: int, b: int|
            0 <= a < vs2.len() && 0 <= b < vs2.len() && a != b implies vs2[a].identity
            != vs2[b].identity by {
            assert(vs2[a].identity == vs1[a].identity);
            assert(vs2[b].identity == vs1[b].identity);
        }
    }
    lemma_identity_index(vs2, i);
}

/// A one-shot pull: a subscriber registered under a fresh identity, whose
/// pull has answered (with or without a message), is closed; after the next
/// publish on its channel it is gone, so nothing more reaches it and a new
/// registration is needed.
pub proof fn lemma_one_shot_pull(
    r: Registry,
    ch: Seq<char>,
    id: Seq<char>,
    ticket: u64,
    msg: Seq<u8>,
)
    requires
        bus_wf(r),
        !has_identity(values_of(r, ch), id),
    ensures
        ({
            let h = HandlerView {
                ticket,
                identity: id,
                channel: ch,
                delivery: Delivery::Polling,
                pending: None,
                closed: false,
            };
            let answered = closed_in(taken_in(registered(r, h), ch, id, ticket), ch, id, ticket);
            &&& is_registered(registered(r, h), ch, id, ticket)
            &&& is_closed_in(answered, ch, id, ticket)
            &&& !is_registered(published(answered, ch, msg), ch, id, ticket)
            &&& pending_of(published(answered, ch, msg), ch, id, ticket) is None
        }),
{
    let h = HandlerView {
        ticket,
        identity: id,
        channel: ch,
        delivery: Delivery::Polling,
        pending: None,
        closed: false,
    };
    let r1 = registered(r, h);
    lemma_registered(r, h);
    let vs1 = values_of(r1, ch);
    lemma_values_distinct(r1, ch);
    let last = values_of(r, ch).len() as int;
    assert(vs1[last] == h);
    lemma_identity_index(vs1, last);
    assert(is_registered(r1, ch, id, ticket));
    lemma_pull_closes(r1, ch, id, ticket);
    lemma_lazy_eviction(taken_in(r1, ch, id, ticket), ch, id, ticket, msg);
}

} // verus!