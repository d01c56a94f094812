//! The server's side of a call: from a command to the call on a backend, and
//! from what the backend returns to the reply.
//!
//! [`call_for`] says which method a command asks for and what it is handed,
//! [`perform`] makes that call, and [`answer`] says what is sent for what
//! came back. [`ApiService::call`] is the three in a row.

use crate::proto::{Arrival, ArrivalView};
use crate::request::{key_views, Request, RequestView, Verb};
use crate::response::{value_views, Response, ResponseView};
use crate::scan::{lemma_run, run, run_end, Class};
use crate::text::{lemma_bytes_of, lemma_utf8, lemma_utf8_of, lemma_word, string_from_utf8, text_ok,
    utf8};
use crate::value::{Value, ValueView};
use vstd::prelude::*;
use vstd::slice::{slice_subrange, slice_to_vec};
use vstd::utf8::*;

verus! {

/// A call on a backend: the method, and what is handed to it.
#[derive(Clone, Debug, PartialEq, Eq)]
pub enum Call {
    Put { key: String, value: Vec<u8>, flags: u16, expiry: u32 },
    Add { key: String, value: Vec<u8>, flags: u16, expiry: u32 },
    Replace { key: String, value: Vec<u8>, flags: u16, expiry: u32 },
    Append { key: String, value: Vec<u8> },
    Prepend { key: String, value: Vec<u8> },
    Cas { key: String, value: Vec<u8>, flags: u16, expiry: u32, cas: u64 },
    Get { keys: Vec<String> },
    Gets { keys: Vec<String> },
    Delete { key: String },
    Incr { key: String, value: u64 },
    Decr { key: String, value: u64 },
    Touch { key: String, expiry: u32 },
    FlushAll { delay: u32 },
    Version,
}

/// A [`Call`] as plain data.
pub enum CallView {
    Put { key: Seq<char>, value: Seq<u8>, flags: u16, expiry: u32 },
    Add { key: Seq<char>, value: Seq<u8>, flags: u16, expiry: u32 },
    Replace { key: Seq<char>, value: Seq<u8>, flags: u16, expiry: u32 },
    Append { key: Seq<char>, value: Seq<u8> },
    Prepend { key: Seq<char>, value: Seq<u8> },
    Cas { key: Seq<char>, value: Seq<u8>, flags: u16, expiry: u32, cas: u64 },
    Get { keys: Seq<Seq<char>> },
    Gets { keys: Seq<Seq<char>> },
    Delete { key: Seq<char> },
    Incr { key: Seq<char>, value: u64 },
    Decr { key: Seq<char>, value: u64 },
    Touch { key: Seq<char>, expiry: u32 },
    FlushAll { delay: u32 },
    Version,
}

impl View for Call {
    type V = CallView;

    open spec fn view(&self) -> CallView {
        match *self {
            Call::Put { key, value, flags, expiry } => CallView::Put {
                key: key@,
                value: value@,
                flags,
                expiry,
            },
            Call::Add { key, value, flags, expiry } => CallView::Add {
                key: key@,
                value: value@,
                flags,
                expiry,
            },
            Call::Replace { key, value, flags, expiry } => CallView::Replace {
                key: key@,
                value: value@,
                flags,
                expiry,
            },
            Call::Append { key, value } => CallView::Append { key: key@, value: value@ },
            Call::Prepend { key, value } => CallView::Prepend { key: key@, value: value@ },
            Call::Cas { key, value, flags, expiry, cas } => CallView::Cas {
                key: key@,
                value: value@,
                flags,
                expiry,
                cas,
            },
            Call::Get { keys } => CallView::Get { keys: key_views(keys@) },
            Call::Gets { keys } => CallView::Gets { keys: key_views(keys@) },
            Call::Delete { key } => CallView::Delete { key: key@ },
            Call::Incr { key, value } => CallView::Incr { key: key@, value },
            Call::Decr { key, value } => CallView::Decr { key: key@, value },
            Call::Touch { key, expiry } => CallView::Touch { key: key@, expiry },
            Call::FlushAll { delay } => CallView::FlushAll { delay },
            Call::Version => CallView::Version,
        }
    }
}

/// The call that a command asks for: the method of its own name, with its
/// fields as they are. Whether the command awaits a reply is nothing that the
/// backend is told, and `flush_all` without a delay is a delay of 0.
pub open spec fn call_of(req: RequestView) -> CallView {
    match req {
        RequestView::Put { key, value, flags, expiry, .. } => CallView::Put {
            key,
            value,
            flags,
            expiry,
        },
        RequestView::Add { key, value, flags, expiry, .. } => CallView::Add {
            key,
            value,
            flags,
            expiry,
        },
        RequestView::Replace { key, value, flags, expiry, .. } => CallView::Replace {
            key,
            value,
            flags,
            expiry,
        },
        RequestView::Append { key, value, .. } => CallView::Append { key, value },
        RequestView::Prepend { key, value, .. } => CallView::Prepend { key, value },
        RequestView::Cas { key, value, flags, expiry, cas, .. } => CallView::Cas {
            key,
            value,
            flags,
            expiry,
            cas,
        },
        RequestView::Get { keys } => CallView::Get { keys },
        RequestView::Gets { keys } => CallView::Gets { keys },
        RequestView::Delete { key, .. } => CallView::Delete { key },
        RequestView::Incr { key, value, .. } => CallView::Incr { key, value },
        RequestView::Decr { key, value, .. } => CallView::Decr { key, value },
        RequestView::Touch { key, expiry, .. } => CallView::Touch { key, expiry },
        RequestView::FlushAll { delay, .. } => CallView::FlushAll {
            delay: match delay {
                Some(seconds) => seconds,
                None => 0,
            },
        },
        RequestView::Version => CallView::Version,
    }
}

/// The call that a command asks for.
pub fn call_for(req: Request) -> (call: Call)
    ensures
        call@ == call_of(req@),
{
    match req {
        Request::Put { key, value, flags, expiry, .. } => Call::Put { key, value, flags, expiry },
        Request::Add { key, value, flags, expiry, .. } => Call::Add { key, value, flags, expiry },
        Request::Replace { key, value, flags, expiry, .. } => Call::Replace {
            key,
            value,
            flags,
            expiry,
        },
        Request::Append { key, value, .. } => Call::Append { key, value },
        Request::Prepend { key, value, .. } => Call::Prepend { key, value },
        Request::Cas { key, value, flags, expiry, cas, .. } => Call::Cas {
            key,
            value,
            flags,
            expiry,
            cas,
        },
        Request::Get { keys } => Call::Get { keys },
        Request::Gets { keys } => Call::Gets { keys },
        Request::Delete { key, .. } => Call::Delete { key },
        Request::Incr { key, value, .. } => Call::Incr { key, value },
        Request::Decr { key, value, .. } => Call::Decr { key, value },
        Request::Touch { key, expiry, .. } => Call::Touch { key, expiry },
        Request::FlushAll { delay, .. } => Call::FlushAll {
            delay: match delay {
                Some(seconds) => seconds,
                None => 0,
            },
        },
        Request::Version => Call::Version,
    }
}

/// What a call that has nothing to tell returned.
pub open spec fn unit_outcome(result: Result<(), String>) -> OutcomeView {
    match result {
        Ok(_) => OutcomeView::Done,
        Err(message) => OutcomeView::Failed(message@),
    }
}

/// What a call that finds values returned.
pub open spec fn values_outcome(result: Result<Vec<Value>, String>) -> OutcomeView {
    match result {
        Ok(found) => OutcomeView::Values(value_views(found@)),
        Err(message) => OutcomeView::Failed(message@),
    }
}

/// What a call that arrives at a number returned.
pub open spec fn number_outcome(result: Result<u64, String>) -> OutcomeView {
    match result {
        Ok(n) => OutcomeView::Number(n),
        Err(message) => OutcomeView::Failed(message@),
    }
}

/// What a call that gives a text returned.
pub open spec fn text_outcome(result: Result<String, String>) -> OutcomeView {
    match result {
        Ok(text) => OutcomeView::Text(text@),
        Err(message) => OutcomeView::Failed(message@),
    }
}

/// What a server does with the commands: the one thing that its users write.
/// A call that fails gives a short message that says why.
///
/// Nothing is asked of what a backend returns. `gives` only puts a name to
/// it: it holds of a call and of what the backend returned to that call. A
/// backend may say of itself what that can be; one that says nothing may
/// return anything.
pub trait Api {
    /// Whether this backend may return `outcome` to `call`.
    open spec fn gives(&self, call: CallView, outcome: OutcomeView) -> bool {
        true
    }

    fn set(&self, key: String, value: Vec<u8>, flags: u16, expiry: u32) -> (r: Result<(), String>)
        ensures
            self.gives(
                CallView::Put { key: key@, value: value@, flags, expiry },
                unit_outcome(r),
            ),
    ;

    fn add(&self, key: String, value: Vec<u8>, flags: u16, expiry: u32) -> (r: Result<(), String>)
        ensures
            self.gives(
                CallView::Add { key: key@, value: value@, flags, expiry },
                unit_outcome(r),
            ),
    ;

    fn replace(&self, key: String, value: Vec<u8>, flags: u16, expiry: u32) -> (r: Result<
        (),
        String,
    >)
        ensures
            self.gives(
                CallView::Replace { key: key@, value: value@, flags, expiry },
                unit_outcome(r),
            ),
    ;

    fn append(&self, key: String, value: Vec<u8>) -> (r: Result<(), String>)
        ensures
            self.gives(CallView::Append { key: key@, value: value@ }, unit_outcome(r)),
    ;

    fn prepend(&self, key: String, value: Vec<u8>) -> (r: Result<(), String>)
        ensures
            self.gives(CallView::Prepend { key: key@, value: value@ }, unit_outcome(r)),
    ;

    fn cas(&self, key: String, value: Vec<u8>, flags: u16, expiry: u32, token: u64) -> (r: Result<
        (),
        String,
    >)
        ensures
            self.gives(
                CallView::Cas { key: key@, value: value@, flags, expiry, cas: token },
                unit_outcome(r),
            ),
    ;

    fn get(&self, keys: Vec<String>) -> (r: Result<Vec<Value>, String>)
        ensures
            self.gives(CallView::Get { keys: key_views(keys@) }, values_outcome(r)),
    ;

    fn gets(&self, keys: Vec<String>) -> (r: Result<Vec<Value>, String>)
        ensures
            self.gives(CallView::Gets { keys: key_views(keys@) }, values_outcome(r)),
    ;

    fn delete(&self, key: String) -> (r: Result<(), String>)
        ensures
            self.gives(CallView::Delete { key: key@ }, unit_outcome(r)),
    ;

    fn incr(&self, key: String, value: u64) -> (r: Result<u64, String>)
        ensures
            self.gives(CallView::Incr { key: key@, value }, number_outcome(r)),
    ;

    fn decr(&self, key: String, value: u64) -> (r: Result<u64, String>)
        ensures
            self.gives(CallView::Decr { key: key@, value }, number_outcome(r)),
    ;

    fn touch(&self, key: String, expiry: u32) -> (r: Result<(), String>)
        ensures
            self.gives(CallView::Touch { key: key@, expiry }, unit_outcome(r)),
    ;

    fn flush_all(&self, delay: u32) -> (r: Result<(), String>)
        ensures
            self.gives(CallView::FlushAll { delay }, unit_outcome(r)),
    ;

    fn version(&self) -> (r: Result<String, String>)
        ensures
            self.gives(CallView::Version, text_outcome(r)),
    ;
}

/// Makes `call` on `api`: the method that the call names, with what the call
/// holds.
pub fn perform<T: Api>(api: &T, call: Call) -> (outcome: Outcome)
    ensures
        api.gives(call@, outcome@),
{
    match call {
        Call::Put { key, value, flags, expiry } => Outcome::unit(api.set(key, value, flags, expiry)),
        Call::Add { key, value, flags, expiry } => Outcome::unit(api.add(key, value, flags, expiry)),
        Call::Replace { key, value, flags, expiry } => Outcome::unit(
            api.replace(key, value, flags, expiry),
        ),
        Call::Append { key, value } => Outcome::unit(api.append(key, value)),
        Call::Prepend { key, value } => Outcome::unit(api.prepend(key, value)),
        Call::Cas { key, value, flags, expiry, cas } => Outcome::unit(
            api.cas(key, value, flags, expiry, cas),
        ),
        Call::Get { keys } => Outcome::values(api.get(keys)),
        Call::Gets { keys } => Outcome::values(api.gets(keys)),
        Call::Delete { key } => Outcome::unit(api.delete(key)),
        Call::Incr { key, value } => Outcome::number(api.incr(key, value)),
        Call::Decr { key, value } => Outcome::number(api.decr(key, value)),
        Call::Touch { key, expiry } => Outcome::unit(api.touch(key, expiry)),
        Call::FlushAll { delay } => Outcome::unit(api.flush_all(delay)),
        Call::Version => Outcome::text(api.version()),
    }
}

/// The first line of `text`: what stands before its first line break.
pub open spec fn first_line(text: Seq<char>) -> Seq<char> {
    decode_utf8(utf8(text).take(run(utf8(text), Class::Text)))
}

/// The first line of a text holds no line break.
pub proof fn lemma_first_line(text: Seq<char>)
    ensures
        text_ok(first_line(text)),
{
    let bytes = utf8(text);
    let end = run(bytes, Class::Text);
    lemma_run(bytes, Class::Text);
    lemma_utf8(text);
    if end < bytes.len() {
        is_char_boundary_iff_not_is_continuation_byte(bytes, end);
        valid_utf8_split(bytes, end);
    } else {
        assert(bytes.subrange(0, end) =~= bytes);
    }
    lemma_utf8_of(bytes.take(end));
}

/// The first line of `text`.
pub fn single_line(text: String) -> (r: String)
    ensures
        r@ == first_line(text@),
        text_ok(r@),
{
    let head = {
        let bytes = text.as_str().as_bytes();
        let end = run_end(bytes, 0, Class::Text);
        proof {
            lemma_bytes_of(text@);
            assert(bytes@.skip(0) =~= bytes@);
            lemma_run(bytes@, Class::Text);
            lemma_utf8(text@);
            if end < bytes.len() {
                is_char_boundary_iff_not_is_continuation_byte(bytes@, end as int);
                valid_utf8_split(bytes@, end as int);
            } else {
                assert(bytes@.subrange(0, end as int) =~= bytes@);
            }
        }
        slice_to_vec(slice_subrange(bytes, 0, end))
    };
    match string_from_utf8(head) {
        Some(line) => {
            proof {
                lemma_utf8(line@);
            }
            line
        },
        None => String::new(),
    }
}

/// What a backend returned.
#[derive(Clone, Debug, PartialEq, Eq)]
pub enum Outcome {
    /// It did what was asked, and there is nothing to tell.
    Done,
    /// It found these values.
    Values(Vec<Value>),
    /// It arrived at this number.
    Number(u64),
    /// It gave this text.
    Text(String),
    /// It failed, and this says why.
    Failed(String),
}

/// An [`Outcome`] as plain data.
pub enum OutcomeView {
    Done,
    Values(Seq<ValueView>),
    Number(u64),
    Text(Seq<char>),
    Failed(Seq<char>),
}

impl View for Outcome {
    type V = OutcomeView;

    open spec fn view(&self) -> OutcomeView {
        match *self {
            Outcome::Done => OutcomeView::Done,
            Outcome::Values(found) => OutcomeView::Values(value_views(found@)),
            Outcome::Number(n) => OutcomeView::Number(n),
            Outcome::Text(text) => OutcomeView::Text(text@),
            Outcome::Failed(message) => OutcomeView::Failed(message@),
        }
    }
}

impl Outcome {
    /// The outcome of a call that has nothing to tell.
    pub fn unit(result: Result<(), String>) -> (outcome: Outcome)
        ensures
            outcome@ == unit_outcome(result),
    {
        match result {
            Ok(_) => Outcome::Done,
            Err(message) => Outcome::Failed(message),
        }
    }

    /// The outcome of a call that finds values.
    pub fn values(result: Result<Vec<Value>, String>) -> (outcome: Outcome)
        ensures
            outcome@ == values_outcome(result),
    {
        match result {
            Ok(found) => Outcome::Values(found),
            Err(message) => Outcome::Failed(message),
        }
    }

    /// The outcome of a call that arrives at a number.
    pub fn number(result: Result<u64, String>) -> (outcome: Outcome)
        ensures
            outcome@ == number_outcome(result),
    {
        match result {
            Ok(n) => Outcome::Number(n),
            Err(message) => Outcome::Failed(message),
        }
    }

    /// The outcome of a call that gives a text.
    pub fn text(result: Result<String, String>) -> (outcome: Outcome)
        ensures
            outcome@ == text_outcome(result),
    {
        match result {
            Ok(text) => Outcome::Text(text),
            Err(message) => Outcome::Failed(message),
        }
    }
}

/// The reply to a command whose call returned what no such call returns.
pub open spec fn mismatch() -> ResponseView {
    ResponseView::ServerError("unexpected result"@)
}

/// The reply to a command of the name `verb` whose call returned `outcome`.
///
/// A call that failed is answered with `SERVER_ERROR` and the first line of
/// its message. A storage command and `touch` that were done are answered
/// with `STORED`, `delete` with `DELETED`, `flush_all` with `OK`; `get` and
/// `gets` with the values, `incr` and `decr` with the number, `version` with
/// the text.
pub open spec fn reply_for(verb: Verb, outcome: OutcomeView) -> ResponseView {
    match outcome {
        OutcomeView::Failed(message) => ResponseView::ServerError(first_line(message)),
        OutcomeView::Done => match verb {
            Verb::Put | Verb::Add | Verb::Replace | Verb::Append | Verb::Prepend | Verb::Cas
            | Verb::Touch => ResponseView::Stored,
            Verb::Delete => ResponseView::Deleted,
            Verb::FlushAll => ResponseView::Okay,
            _ => mismatch(),
        },
        OutcomeView::Values(found) => match verb {
            Verb::Gets | Verb::Get => ResponseView::Values(found),
            _ => mismatch(),
        },
        OutcomeView::Number(n) => match verb {
            Verb::Incr | Verb::Decr => ResponseView::UpdatedValue(n),
            _ => mismatch(),
        },
        OutcomeView::Text(text) => match verb {
            Verb::Version => ResponseView::Version(text),
            _ => mismatch(),
        },
    }
}

/// What is sent for a command of the name `verb` whose call returned
/// `outcome`: the reply, or nothing where the command carried `noreply`.
pub open spec fn answer_for(verb: Verb, quiet: bool, outcome: OutcomeView) -> Option<ResponseView> {
    if quiet {
        None
    } else {
        Some(reply_for(verb, outcome))
    }
}

/// Whether `rsp` answers a command of the name `verb`: it is the reply that
/// says that the command was done, or `SERVER_ERROR` with a message of one
/// line.
pub open spec fn answers(verb: Verb, rsp: ResponseView) -> bool {
    ||| rsp matches ResponseView::ServerError(message) && text_ok(message)
    ||| match verb {
        Verb::Put | Verb::Add | Verb::Replace | Verb::Append | Verb::Prepend | Verb::Cas
        | Verb::Touch => rsp is Stored,
        Verb::Gets | Verb::Get => rsp is Values,
        Verb::Delete => rsp is Deleted,
        Verb::Incr | Verb::Decr => rsp is UpdatedValue,
        Verb::FlushAll => rsp is Okay,
        Verb::Version => rsp is Version,
    }
}

/// Whatever a call returned, the reply answers the command.
pub proof fn lemma_reply_answers(verb: Verb, outcome: OutcomeView)
    ensures
        answers(verb, reply_for(verb, outcome)),
{
    if outcome is Failed {
        lemma_first_line(outcome->Failed_0);
    }
    reveal_strlit("unexpected result");
    lemma_word("unexpected result"@);
}

/// The reply to a command of the name `verb` whose call returned `outcome`.
pub fn reply(verb: Verb, outcome: Outcome) -> (rsp: Response)
    ensures
        rsp@ == reply_for(verb, outcome@),
{
    match outcome {
        Outcome::Failed(message) => Response::ServerError(single_line(message)),
        Outcome::Done => match verb {
            Verb::Put | Verb::Add | Verb::Replace | Verb::Append | Verb::Prepend | Verb::Cas
            | Verb::Touch => Response::Stored,
            Verb::Delete => Response::Deleted,
            Verb::FlushAll => Response::Okay,
            _ => Response::ServerError("unexpected result".to_owned()),
        },
        Outcome::Values(found) => match verb {
            Verb::Gets | Verb::Get => Response::Values(found),
            _ => Response::ServerError("unexpected result".to_owned()),
        },
        Outcome::Number(n) => match verb {
            Verb::Incr | Verb::Decr => Response::UpdatedValue(n),
            _ => Response::ServerError("unexpected result".to_owned()),
        },
        Outcome::Text(text) => match verb {
            Verb::Version => Response::Version(text),
            _ => Response::ServerError("unexpected result".to_owned()),
        },
    }
}

/// What is sent for a command of the name `verb` whose call returned
/// `outcome`: the reply, or nothing where the command carried `noreply`.
pub fn answer(verb: Verb, quiet: bool, outcome: Outcome) -> (r: Option<Response>)
    ensures
        match answer_for(verb, quiet, outcome@) {
            Some(rsp) => r matches Some(found) && found@ == rsp,
            None => r is None,
        },
{
    if quiet {
        None
    } else {
        Some(reply(verb, outcome))
    }
}

/// A backend behind the commands: each command that arrives becomes a call
/// on the backend, and what the backend returns becomes the reply.
pub struct ApiService<T> {
    api: T,
}

impl<T> ApiService<T> {
    /// The backend.
    pub closed spec fn backend(self) -> T {
        self.api
    }

    /// A service on top of `api`.
    pub fn new(api: T) -> (service: ApiService<T>)
        ensures
            service.backend() == api,
    {
        ApiService { api }
    }

    /// The backend.
    pub fn get_ref(&self) -> (api: &T)
        ensures
            *api == self.backend(),
    {
        &self.api
    }
}

/// What is sent, as plain data.
pub open spec fn sent(r: Option<Response>) -> Option<ResponseView> {
    match r {
        Some(rsp) => Some(rsp@),
        None => None,
    }
}

/// Whether `sent` is what a service on top of `api` sends for `req`: the
/// backend returned something to the call that the command asks for, and
/// `sent` is what is sent for that.
pub open spec fn served<T: Api>(api: T, req: RequestView, sent: Option<ResponseView>) -> bool {
    exists|outcome: OutcomeView|
        #[trigger] api.gives(call_of(req), outcome) && sent == answer_for(
            req.verb(),
            req.noreply(),
            outcome,
        )
}

impl<T: Api> ApiService<T> {
    /// Makes the call that `req` asks for on the backend, and gives what is
    /// to be sent for it. A command that carries `noreply` is a call like
    /// any other, and nothing is sent for it.
    pub fn call(&self, req: Request) -> (r: Option<Response>)
        ensures
            served(self.backend(), req@, sent(r)),
            req@.noreply() ==> r is None,
            !req@.noreply() ==> (r matches Some(rsp) && answers(req@.verb(), rsp@)),
    {
        let verb = req.verb();
        let quiet = req.noreply();
        let outcome = perform(&self.api, call_for(req));
        proof {
            lemma_reply_answers(verb, outcome@);
        }
        answer(verb, quiet, outcome)
    }

    /// Deals with what arrived: a command becomes a call on the backend, and
    /// the reply to bytes that were no command is passed on as it is.
    pub fn serve(&self, arrival: Arrival) -> (r: Option<Response>)
        ensures
            match arrival@ {
                ArrivalView::Refused(rsp) => r matches Some(found) && found@ == rsp,
                ArrivalView::Command(req) => {
                    &&& served(self.backend(), req, sent(r))
                    &&& req.noreply() ==> r is None
                    &&& !req.noreply() ==> (r matches Some(rsp) && answers(req.verb(), rsp@))
                },
            },
    {
        match arrival {
            Arrival::Refused(rsp) => Some(rsp),
            Arrival::Command(req) => self.call(req),
        }
    }
}

} // verus!
