//! The client side: where a subscriber finds the bus.
use vstd::prelude::*;
use vstd::string::{StrSliceExecFns, StringExecFns};

use crate::data::MsgResponse;
use crate::errs::SCSPErr;

verus! {

#[verifier::external_type_specification]
#[verifier::external_body]
pub struct ExUrlParseError(url::ParseError);

/// The scheme and the serialization of `s` parsed as a URL, by the url
/// crate's rules; `None` where `s` is no URL.
pub uninterp spec fn url_parts(s: Seq<char>) -> Option<(Seq<char>, Seq<char>)>;

/// Relies on `url::Url::parse`, with `Url::scheme` and `Url::as_str` read off
/// the result. The scheme is the front of the serialization.
#[verifier::external_body]
fn parse_url(s: &str) -> (r: Result<(String, String), url::ParseError>)
    ensures
        r matches Ok(p) ==> url_parts(s@) == Some((p.0@, p.1@)) && p.0@.len() <= p.1@.len()
            && p.1@.subrange(0, p.0@.len() as int) == p.0@,
        r is Err ==> url_parts(s@) is None,
{
    url::Url::parse(s).map(|u| (u.scheme().to_string(), u.as_str().to_string()))
}

/// Relies on `url::ParseError`'s `Display`: the error's text.
#[verifier::external_body]
fn url_error_text(e: &url::ParseError) -> String {
    e.to_string()
}

/// The scheme of a stream endpoint derived from `scheme`.
pub open spec fn stream_scheme(scheme: Seq<char>) -> Seq<char> {
    if scheme == "https"@ {
        "wss"@
    } else {
        "ws"@
    }
}

/// A client of the bus at a base URL whose scheme is `http` or `https`.
pub struct DefaultClient {
    scheme: String,
    host: String,
}

impl View for DefaultClient {
    /// The scheme and the serialized base URL.
    type V = (Seq<char>, Seq<char>);

    closed spec fn view(&self) -> (Seq<char>, Seq<char>) {
        (self.scheme@, self.host@)
    }
}

impl DefaultClient {
    /// The scheme is the front of the serialized URL.
    #[verifier::type_invariant]
    spec fn scheme_leads(&self) -> bool {
        self.scheme@.len() <= self.host@.len() && self.host@.subrange(0, self.scheme@.len() as int)
            == self.scheme@
    }

    /// A client of the bus at `host`. A string that is no URL, or a URL whose
    /// scheme is neither `http` nor `https`, is refused.
    pub fn new(host: &str) -> (r: Result<DefaultClient, SCSPErr>)
        ensures
            url_parts(host@) is None ==> r is Err,
            url_parts(host@) matches Some(p) ==> (p.0 == "http"@ || p.0 == "https"@ ==> (r matches Ok(
                c,
            ) && c@ == p)),
            url_parts(host@) matches Some(p) ==> (p.0 != "http"@ && p.0 != "https"@ ==> (r matches Err(
                e,
            ) && e@ == "unsupported scheme"@)),
    {
        match parse_url(host) {
            Err(e) => {
                let text = url_error_text(&e);
                Err(SCSPErr::new(text.as_str()))
            },
            Ok((scheme, text)) => {
                let http = String::from_str("http");
                let https = String::from_str("https");
                proof {
                    reveal_strlit("http");
                    reveal_strlit("https");
                }
                if scheme != http && scheme != https {
                    return Err(SCSPErr::new("unsupported scheme"));
                }
                Ok(DefaultClient { scheme, host: text })
            },
        }
    }

    /// The serialized base URL.
    pub fn host(&self) -> (r: &str)
        ensures
            r@ == self@.1,
    {
        self.host.as_str()
    }

    /// The base URL of the streaming endpoint: `http` becomes `ws` and
    /// `https` becomes `wss`, the rest stays.
    pub fn stream_host(&self) -> (r: String)
        ensures
            self@.0.len() <= self@.1.len(),
            r@ == stream_scheme(self@.0) + self@.1.subrange(self@.0.len() as int, self@.1.len() as int),
    {
        proof {
            use_type_invariant(self);
        }
        let https = String::from_str("https");
        let front = if self.scheme == https {
            String::from_str("wss")
        } else {
            String::from_str("ws")
        };
        proof {
            reveal_strlit("https");
            reveal_strlit("wss");
            reveal_strlit("ws");
        }
        let from = self.scheme.as_str().unicode_len();
        let to = self.host.as_str().unicode_len();
        let rest = self.host.as_str().substring_char(from, to);
        front.concat(rest)
    }
}

/// What a polling client does next.
pub enum PollAction {
    /// Hand this message to the subscriber's callback.
    Deliver(Vec<u8>),
    /// Poll again.
    Again,
    /// The callback failed: end the loop with its error.
    Stop(SCSPErr),
}

/// Decides on one answer of a long poll: a message goes to the callback,
/// an empty answer means polling again.
pub fn poll_step(resp: MsgResponse) -> (r: PollAction)
    ensures
        resp.has_msg ==> (r matches PollAction::Deliver(m) && m@ == resp.msg@),
        !resp.has_msg ==> r is Again,
{
    if resp.has_msg {
        PollAction::Deliver(resp.msg)
    } else {
        PollAction::Again
    }
}

/// Decides on the callback's outcome: success means polling again, a
/// failure ends the loop and is handed to the caller.
pub fn after_delivery(outcome: Result<(), SCSPErr>) -> (r: PollAction)
    ensures
        outcome is Ok ==> r is Again,
        outcome matches Err(e) ==> (r matches PollAction::Stop(f) && f@ == e@),
{
    match outcome {
        Ok(()) => PollAction::Again,
        Err(e) => PollAction::Stop(e),
    }
}

} // verus!
