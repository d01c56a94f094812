//! Typed calls: the command that each call sends, and what the reply to it
//! means to the caller.
//!
//! Nothing here holds state or touches a connection. A client sends the
//! command, awaits the reply that is due to it, and hands that reply to the
//! function that belongs to the call.

use crate::request::{key_views, Request, RequestView};
use crate::response::{value_views, Response, ResponseView};
use crate::value::Value;
use vstd::prelude::*;

verus! {

/// Why a call failed although the connection did not.
#[derive(Clone, Debug, PartialEq, Eq)]
pub enum ApiError {
    /// The server answered `ERROR`, `CLIENT_ERROR` or `SERVER_ERROR`: the
    /// reply.
    Refused(Response),
    /// The server answered with a reply that is no answer to the call: the
    /// reply.
    Unexpected(Response),
    /// The server answered with no value where one was asked for.
    NoValue,
}

/// An [`ApiError`] as plain data.
pub enum ApiErrorView {
    Refused(ResponseView),
    Unexpected(ResponseView),
    NoValue,
}

impl View for ApiError {
    type V = ApiErrorView;

    open spec fn view(&self) -> ApiErrorView {
        match *self {
            ApiError::Refused(rsp) => ApiErrorView::Refused(rsp@),
            ApiError::Unexpected(rsp) => ApiErrorView::Unexpected(rsp@),
            ApiError::NoValue => ApiErrorView::NoValue,
        }
    }
}

/// Whether `rsp` is one of the replies by which a server refuses a command.
pub open spec fn is_refusal(rsp: ResponseView) -> bool {
    rsp is Error || rsp is ClientError || rsp is ServerError
}

/// The failure that `rsp` is to a call that awaits another reply.
pub open spec fn failure(rsp: ResponseView) -> ApiErrorView {
    if is_refusal(rsp) {
        ApiErrorView::Refused(rsp)
    } else {
        ApiErrorView::Unexpected(rsp)
    }
}

/// The failure that `rsp` is to a call that awaits another reply.
pub fn fail(rsp: Response) -> (e: ApiError)
    ensures
        e@ == failure(rsp@),
{
    match rsp {
        Response::Error => ApiError::Refused(rsp),
        Response::ClientError(_) => ApiError::Refused(rsp),
        Response::ServerError(_) => ApiError::Refused(rsp),
        _ => ApiError::Unexpected(rsp),
    }
}

// ---------------------------------------------------------------------------
// The command of each call. None of them sets `noreply`: a command without
// a reply would leave every later call with the reply to the one before it.

/// The command of `set`.
pub fn set(key: String, value: Vec<u8>, flags: u16, expiry: u32) -> (req: Request)
    ensures
        req@ == (RequestView::Put { key: key@, value: value@, flags, expiry, noreply: false }),
{
    Request::Put { key, value, flags, expiry, noreply: false }
}

/// The command of `add`.
pub fn add(key: String, value: Vec<u8>, flags: u16, expiry: u32) -> (req: Request)
    ensures
        req@ == (RequestView::Add { key: key@, value: value@, flags, expiry, noreply: false }),
{
    Request::Add { key, value, flags, expiry, noreply: false }
}

/// The command of `replace`.
pub fn replace(key: String, value: Vec<u8>, flags: u16, expiry: u32) -> (req: Request)
    ensures
        req@ == (RequestView::Replace { key: key@, value: value@, flags, expiry, noreply: false }),
{
    Request::Replace { key, value, flags, expiry, noreply: false }
}

/// The command of `append`.
pub fn append(key: String, value: Vec<u8>) -> (req: Request)
    ensures
        req@ == (RequestView::Append { key: key@, value: value@, noreply: false }),
{
    Request::Append { key, value, noreply: false }
}

/// The command of `prepend`.
pub fn prepend(key: String, value: Vec<u8>) -> (req: Request)
    ensures
        req@ == (RequestView::Prepend { key: key@, value: value@, noreply: false }),
{
    Request::Prepend { key, value, noreply: false }
}

/// The command of `cas`.
pub fn cas(key: String, value: Vec<u8>, flags: u16, expiry: u32, token: u64) -> (req: Request)
    ensures
        req@ == (RequestView::Cas {
            key: key@,
            value: value@,
            flags,
            expiry,
            cas: token,
            noreply: false,
        }),
{
    Request::Cas { key, value, flags, expiry, cas: token, noreply: false }
}

/// The command of `get`.
pub fn get(keys: Vec<String>) -> (req: Request)
    ensures
        req@ == (RequestView::Get { keys: key_views(keys@) }),
{
    Request::Get { keys }
}

/// The command of `gets`.
pub fn gets(keys: Vec<String>) -> (req: Request)
    ensures
        req@ == (RequestView::Gets { keys: key_views(keys@) }),
{
    Request::Gets { keys }
}

/// The command of `get_one`: `get` with the one key.
pub fn get_one(key: String) -> (req: Request)
    ensures
        req@ == (RequestView::Get { keys: seq![key@] }),
{
    let mut keys: Vec<String> = Vec::new();
    keys.push(key);
    assert(key_views(keys@) =~= seq![key@]);
    Request::Get { keys }
}

/// The command of `gets_one`: `gets` with the one key.
pub fn gets_one(key: String) -> (req: Request)
    ensures
        req@ == (RequestView::Gets { keys: seq![key@] }),
{
    let mut keys: Vec<String> = Vec::new();
    keys.push(key);
    assert(key_views(keys@) =~= seq![key@]);
    Request::Gets { keys }
}

/// The command of `delete`.
pub fn delete(key: String) -> (req: Request)
    ensures
        req@ == (RequestView::Delete { key: key@, noreply: false }),
{
    Request::Delete { key, noreply: false }
}

/// The command of `incr`.
pub fn incr(key: String, value: u64) -> (req: Request)
    ensures
        req@ == (RequestView::Incr { key: key@, value, noreply: false }),
{
    Request::Incr { key, value, noreply: false }
}

/// The command of `decr`.
pub fn decr(key: String, value: u64) -> (req: Request)
    ensures
        req@ == (RequestView::Decr { key: key@, value, noreply: false }),
{
    Request::Decr { key, value, noreply: false }
}

/// The command of `touch`.
pub fn touch(key: String, expiry: u32) -> (req: Request)
    ensures
        req@ == (RequestView::Touch { key: key@, expiry, noreply: false }),
{
    Request::Touch { key, expiry, noreply: false }
}

/// The command of `flush_all`.
pub fn flush_all(delay: u32) -> (req: Request)
    ensures
        req@ == (RequestView::FlushAll { delay: Some(delay), noreply: false }),
{
    Request::FlushAll { delay: Some(delay), noreply: false }
}

/// The command of `version`.
pub fn version() -> (req: Request)
    ensures
        req@ == RequestView::Version,
{
    Request::Version
}

// ---------------------------------------------------------------------------
// What the reply means

/// The outcome of `set`, `add`, `replace`, `append`, `prepend` and `cas`:
/// done where the reply is `STORED`, and on no other reply.
pub fn stored(rsp: Response) -> (r: Result<(), ApiError>)
    ensures
        match rsp@ {
            ResponseView::Stored => r is Ok,
            _ => r matches Err(e) && e@ == failure(rsp@),
        },
{
    match rsp {
        Response::Stored => Ok(()),
        _ => Err(fail(rsp)),
    }
}

/// The outcome of `touch`: done where the reply is `TOUCHED`, and on no
/// other reply. `STORED` is no answer to `touch`.
pub fn touched(rsp: Response) -> (r: Result<(), ApiError>)
    ensures
        match rsp@ {
            ResponseView::Touched => r is Ok,
            _ => r matches Err(e) && e@ == failure(rsp@),
        },
{
    match rsp {
        Response::Touched => Ok(()),
        _ => Err(fail(rsp)),
    }
}

/// The outcome of `delete`: done where the reply is `DELETED`.
pub fn deleted(rsp: Response) -> (r: Result<(), ApiError>)
    ensures
        match rsp@ {
            ResponseView::Deleted => r is Ok,
            _ => r matches Err(e) && e@ == failure(rsp@),
        },
{
    match rsp {
        Response::Deleted => Ok(()),
        _ => Err(fail(rsp)),
    }
}

/// The outcome of `flush_all`: done where the reply is `OK`.
pub fn flushed(rsp: Response) -> (r: Result<(), ApiError>)
    ensures
        match rsp@ {
            ResponseView::Okay => r is Ok,
            _ => r matches Err(e) && e@ == failure(rsp@),
        },
{
    match rsp {
        Response::Okay => Ok(()),
        _ => Err(fail(rsp)),
    }
}

/// The outcome of `get` and `gets`: the values of the reply, where it is a
/// list of values.
pub fn values(rsp: Response) -> (r: Result<Vec<Value>, ApiError>)
    ensures
        match rsp@ {
            ResponseView::Values(all) => r matches Ok(found) && value_views(found@) == all,
            _ => r matches Err(e) && e@ == failure(rsp@),
        },
{
    match rsp {
        Response::Values(found) => Ok(found),
        _ => Err(fail(rsp)),
    }
}

/// The outcome of `get_one` and `gets_one`: the first value of the reply,
/// where it is a list of values and holds one.
pub fn one_value(rsp: Response) -> (r: Result<Value, ApiError>)
    ensures
        match rsp@ {
            ResponseView::Values(all) => if all.len() > 0 {
                r matches Ok(found) && found@ == all[0]
            } else {
                r matches Err(e) && e@ == ApiErrorView::NoValue
            },
            _ => r matches Err(e) && e@ == failure(rsp@),
        },
{
    match rsp {
        Response::Values(mut found) => {
            if found.len() > 0 {
                Ok(found.remove(0))
            } else {
                Err(ApiError::NoValue)
            }
        },
        _ => Err(fail(rsp)),
    }
}

/// The outcome of `incr` and `decr`: the number of the reply, where it is
/// one.
pub fn updated_value(rsp: Response) -> (r: Result<u64, ApiError>)
    ensures
        match rsp@ {
            ResponseView::UpdatedValue(n) => r == Ok::<u64, ApiError>(n),
            _ => r matches Err(e) && e@ == failure(rsp@),
        },
{
    match rsp {
        Response::UpdatedValue(n) => Ok(n),
        _ => Err(fail(rsp)),
    }
}

/// The outcome of `version`: the text of the reply, where it is `VERSION`.
pub fn version_text(rsp: Response) -> (r: Result<String, ApiError>)
    ensures
        match rsp@ {
            ResponseView::Version(text) => r matches Ok(found) && found@ == text,
            _ => r matches Err(e) && e@ == failure(rsp@),
        },
{
    match rsp {
        Response::Version(text) => Ok(text),
        _ => Err(fail(rsp)),
    }
}

} // verus!
