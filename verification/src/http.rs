//! Requests to the Consul HTTP API and the replies to them, as plain values.

use vstd::prelude::*;
use vstd::string::*;

use crate::error::{internal, outcome, unavailable, ClusterError, Fault};
use crate::text::{decimal, numerals_are_canonical, push_decimal, unsigned};

verus! {

/// The method of a request.
#[derive(Clone, Copy, Debug, PartialEq, Eq, Structural)]
pub enum Method {
    Get,
    Put,
    Delete,
}

/// The body of a session-create request.
#[derive(Clone, Debug)]
pub struct SessionCreateBody {
    pub name: String,
    pub ttl: String,
    pub behavior: String,
    pub lock_delay: String,
}

/// What a request carries.
#[derive(Clone, Debug)]
pub enum Body {
    /// Nothing.
    Empty,
    /// Bytes, as they are.
    Bytes(Vec<u8>),
    /// A session to be created, written as JSON.
    Session(SessionCreateBody),
}

/// A request to be sent to Consul.
pub struct HttpRequest {
    pub method: Method,
    pub url: String,
    /// The value of the `X-Consul-Token` header, where one is sent.
    pub token: Option<String>,
    /// The time limit of the request in seconds, where it has one.
    pub timeout_secs: Option<u64>,
    pub body: Body,
}

/// The body of a request in the model.
pub enum BodyModel {
    Empty,
    Bytes(Seq<u8>),
    Session { name: Seq<char>, ttl: Seq<char>, behavior: Seq<char>, lock_delay: Seq<char> },
}

/// A request in the model.
pub struct RequestModel {
    pub method: Method,
    pub url: Seq<char>,
    pub token: Option<Seq<char>>,
    pub timeout_secs: Option<u64>,
    pub body: BodyModel,
}

/// An optional string in the model.
pub open spec fn text_of(o: Option<String>) -> Option<Seq<char>> {
    match o {
        Some(s) => Some(s@),
        None => None,
    }
}

impl View for Body {
    type V = BodyModel;

    open spec fn view(&self) -> BodyModel {
        match self {
            Body::Empty => BodyModel::Empty,
            Body::Bytes(bytes) => BodyModel::Bytes(bytes@),
            Body::Session(s) => BodyModel::Session {
                name: s.name@,
                ttl: s.ttl@,
                behavior: s.behavior@,
                lock_delay: s.lock_delay@,
            },
        }
    }
}

impl View for HttpRequest {
    type V = RequestModel;

    open spec fn view(&self) -> RequestModel {
        RequestModel {
            method: self.method,
            url: self.url@,
            token: text_of(self.token),
            timeout_secs: self.timeout_secs,
            body: self.body@,
        }
    }
}

/// A reply from Consul whose body is read as a `T`.
pub struct HttpReply<T> {
    pub status: u16,
    /// The text of the `X-Consul-Index` header, where there is one.
    pub consul_index: Option<String>,
    /// The body, or why it could not be read.
    pub body: Result<T, String>,
}

/// What came of sending a request: a reply, or why there is none.
pub type Sent<T> = Result<HttpReply<T>, String>;

/// Whether a status reports success.
pub open spec fn is_success(status: u16) -> bool {
    200 <= status < 300
}

/// The status of something that is not there.
pub const NOT_FOUND: u16 = 404;

/// The standard reason phrase of a status code, where it has one.
pub uninterp spec fn standard_reason(status: u16) -> Option<Seq<char>>;

/// Looks up the reason phrase of a status code with `reqwest::StatusCode::canonical_reason`. It
/// depends on the code alone; a number that is no status code has none.
#[verifier::external_body]
fn canonical_reason(status: u16) -> (r: Option<String>)
    ensures
        text_of(r) == standard_reason(status),
{
    match reqwest::StatusCode::from_u16(status) {
        Ok(code) => match code.canonical_reason() {
            Some(text) => Some(text.to_owned()),
            None => None,
        },
        Err(_) => None,
    }
}

/// How a status is shown: its number and its reason phrase.
pub open spec fn status_text(status: u16) -> Seq<char> {
    let reason = match standard_reason(status) {
        Some(text) => text,
        None => "<unknown status code>"@,
    };
    decimal(status as nat) + " "@ + reason
}

/// Shows a status with the reason phrase that belongs to it.
pub fn show_status(status: u16) -> (r: String)
    ensures
        r@ == status_text(status),
{
    let mut text = String::new();
    push_decimal(&mut text, status as u64);
    assert(text@ =~= decimal(status as nat));
    text.append(" ");
    match canonical_reason(status) {
        Some(reason) => text.append(reason.as_str()),
        None => text.append("<unknown status code>"),
    }
    text
}

pub(crate) fn status_unavailable(label: &str, status: u16) -> (e: ClusterError)
    ensures
        e@ == Fault::BackendUnavailable(label@ + status_text(status)),
{
    let shown = show_status(status);
    unavailable(label, shown.as_str())
}

pub(crate) fn status_internal(label: &str, status: u16) -> (e: ClusterError)
    ensures
        e@ == Fault::Internal(label@ + status_text(status)),
{
    let shown = show_status(status);
    internal(label, shown.as_str())
}

/// Tells success from failure.
pub fn succeeded(status: u16) -> (r: bool)
    ensures
        r == is_success(status),
{
    200 <= status && status < 300
}

/// Which error a refused request ends in.
#[derive(Clone, Copy, Debug, PartialEq, Eq, Structural)]
pub enum Refusal {
    Unavailable,
    Internal,
}

/// The reply to a request that succeeded. `unreachable` labels the failure to get a reply,
/// `refused` the status of a reply that reports no success.
pub open spec fn successful<T>(
    sent: Sent<T>,
    unreachable: Seq<char>,
    refused: Seq<char>,
    refusal: Refusal,
) -> Result<HttpReply<T>, Fault> {
    match sent {
        Err(e) => Err(Fault::BackendUnavailable(unreachable + e@)),
        Ok(reply) => if is_success(reply.status) {
            Ok(reply)
        } else if refusal == Refusal::Unavailable {
            Err(Fault::BackendUnavailable(refused + status_text(reply.status)))
        } else {
            Err(Fault::Internal(refused + status_text(reply.status)))
        },
    }
}

/// The body of a reply. `unreadable` labels the failure to read it.
pub open spec fn readable<T>(reply: Result<HttpReply<T>, Fault>, unreadable: Seq<char>) -> Result<
    T,
    Fault,
> {
    match reply {
        Err(e) => Err(e),
        Ok(reply) => match reply.body {
            Ok(v) => Ok(v),
            Err(e) => Err(Fault::Internal(unreadable + e@)),
        },
    }
}

/// Lets through the reply to a request that succeeded.
pub(crate) fn require_success<T>(
    sent: Sent<T>,
    unreachable: &str,
    refused: &str,
    refusal: Refusal,
) -> (r: Result<HttpReply<T>, ClusterError>)
    ensures
        outcome(r) == successful(sent, unreachable@, refused@, refusal),
{
    match sent {
        Err(e) => Err(unavailable(unreachable, e.as_str())),
        Ok(reply) => if succeeded(reply.status) {
            Ok(reply)
        } else if refusal == Refusal::Unavailable {
            Err(status_unavailable(refused, reply.status))
        } else {
            Err(status_internal(refused, reply.status))
        },
    }
}

/// Takes the body out of a reply.
pub(crate) fn take_body<T>(reply: Result<HttpReply<T>, ClusterError>, unreadable: &str) -> (r: Result<
    T,
    ClusterError,
>)
    ensures
        outcome(r) == readable(outcome(reply), unreadable@),
{
    match reply {
        Err(e) => Err(e),
        Ok(reply) => match reply.body {
            Ok(v) => Ok(v),
            Err(e) => Err(internal(unreadable, e.as_str())),
        },
    }
}

/// The statuses of success are those of the third hundred.
pub proof fn success_is_the_third_hundred(status: u16)
    ensures
        is_success(status) <==> status / 100 == 2,
{
}

/// A status is shown by its number, a space and its reason phrase, whatever its number is.
pub proof fn a_status_is_shown_by_number_and_reason(status: u16)
    ensures
        ({
            let number = decimal(status as nat);
            let shown = status_text(status);
            &&& number.is_prefix_of(shown)
            &&& unsigned(number) == Some(status as nat)
            &&& shown[number.len() as int] == ' '
            &&& standard_reason(status) matches Some(reason) ==> shown.skip(number.len() as int + 1) == reason
            &&& standard_reason(status) is None ==> shown.skip(number.len() as int + 1)
                == "<unknown status code>"@
        }),
{
    let number = decimal(status as nat);
    let shown = status_text(status);
    numerals_are_canonical(status as nat);
    reveal_strlit(" ");
    assert(number =~= shown.subrange(0, number.len() as int));
    match standard_reason(status) {
        Some(reason) => {
            assert(shown.skip(number.len() as int + 1) =~= reason);
        },
        None => {
            assert(shown.skip(number.len() as int + 1) =~= "<unknown status code>"@);
        },
    }
}

/// A reply that reports success is let through as it is; without a reply, or with one that does not
/// report success, there is an error that says why.
pub proof fn success_is_let_through<T>(
    sent: Sent<T>,
    unreachable: Seq<char>,
    refused: Seq<char>,
    refusal: Refusal,
)
    ensures
        successful(sent, unreachable, refused, refusal) == match sent {
            Err(e) => Err(Fault::BackendUnavailable(unreachable + e@)),
            Ok(reply) => if reply.status / 100 == 2 {
                Ok(reply)
            } else {
                match refusal {
                    Refusal::Unavailable => Err(
                        Fault::BackendUnavailable(refused + status_text(reply.status)),
                    ),
                    Refusal::Internal => Err(Fault::Internal(refused + status_text(reply.status))),
                }
            },
        },
{
}

/// The body of a reply is handed on whole; an error before it stays, and a body that could not be
/// read is an error that says why.
pub proof fn a_body_is_handed_on_whole<T>(reply: HttpReply<T>, value: T, e: String, fault: Fault, label: Seq<char>)
    ensures
        reply.body == Ok::<T, String>(value) ==> readable(Ok::<HttpReply<T>, Fault>(reply), label) == Ok::<
            T,
            Fault,
        >(value),
        reply.body == Err::<T, String>(e) ==> readable(Ok::<HttpReply<T>, Fault>(reply), label) == Err::<
            T,
            Fault,
        >(Fault::Internal(label + e@)),
        readable(Err::<HttpReply<T>, Fault>(fault), label) == Err::<T, Fault>(fault),
{
}

/// An optional string in the model is the characters of the string, if there is one.
pub proof fn optional_texts_keep_the_text(text: String)
    ensures
        text_of(None) is None,
        text_of(Some(text)) == Some(text@),
{
}

/// A request in the model keeps its method, its URL, its token, its time limit and its whole body.
pub proof fn requests_keep_what_they_carry(request: HttpRequest, bytes: Vec<u8>, session: SessionCreateBody)
    ensures
        request@.method == request.method,
        request@.url == request.url@,
        request.token is None ==> request@.token is None,
        request.token matches Some(token) ==> request@.token == Some(token@),
        request@.timeout_secs == request.timeout_secs,
        request@.body == request.body@,
        Body::Empty@ == BodyModel::Empty,
        Body::Bytes(bytes)@ == BodyModel::Bytes(bytes@),
        Body::Session(session)@ == (BodyModel::Session {
            name: session.name@,
            ttl: session.ttl@,
            behavior: session.behavior@,
            lock_delay: session.lock_delay@,
        }),
{
}

} // verus!
