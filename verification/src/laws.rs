//! What holds of writing and reading, whatever the frame.

use crate::request::{parse_request, request_bytes, RequestView};
use crate::request_laws::{lemma_request_cut, lemma_request_reads};
use crate::response::{parse_response, response_bytes, ResponseView};
use crate::response_laws::{lemma_response_cut, lemma_response_reads};
use crate::scan::Scan;
use crate::text::{is_key_byte, key_ok, utf8, BuildError};
use crate::value::{lemma_value_cut, lemma_value_reads, parse_value, value_bytes, ValueView};
use vstd::prelude::*;

verus! {

/// A value record that can be written is read back from its own bytes as it
/// was, and no byte is left.
pub proof fn law_value_round_trip(v: ValueView)
    requires
        v.wf(),
    ensures
        parse_value(value_bytes(v)) == Scan::Done(v, Seq::<u8>::empty()),
{
    lemma_value_reads(v, Seq::empty());
    assert(value_bytes(v) + Seq::<u8>::empty() =~= value_bytes(v));
}

/// A command that can be written is read back from its own bytes as it was,
/// and no byte is left. This holds with `noreply` set or not.
pub proof fn law_request_round_trip(r: RequestView)
    requires
        r.wf(),
    ensures
        parse_request(request_bytes(r)) == Scan::Done(r, Seq::<u8>::empty()),
{
    lemma_request_reads(r, Seq::empty());
    assert(request_bytes(r) + Seq::<u8>::empty() =~= request_bytes(r));
}

/// A reply that can be written is read back from its own bytes as it was,
/// and no byte is left.
pub proof fn law_response_round_trip(r: ResponseView)
    requires
        r.wf(),
    ensures
        parse_response(response_bytes(r)) == Scan::Done(r, Seq::<u8>::empty()),
{
    lemma_response_reads(r, Seq::empty());
    assert(response_bytes(r) + Seq::<u8>::empty() =~= response_bytes(r));
}

/// A value record that arrives in two parts: the first part alone calls for
/// more bytes, and both together give the record.
pub proof fn law_value_incremental(v: ValueView, a: Seq<u8>, b: Seq<u8>)
    requires
        v.wf(),
        a + b == value_bytes(v),
        b.len() > 0,
    ensures
        parse_value(a) is Incomplete,
        parse_value(a + b) == Scan::Done(v, Seq::<u8>::empty()),
{
    law_value_round_trip(v);
    assert((a + b).subrange(0, a.len() as int) =~= a);
    lemma_value_cut(a, a + b);
}

/// A command that arrives in two parts: the first part alone calls for more
/// bytes, and both together give the command.
pub proof fn law_request_incremental(r: RequestView, a: Seq<u8>, b: Seq<u8>)
    requires
        r.wf(),
        a + b == request_bytes(r),
        b.len() > 0,
    ensures
        parse_request(a) is Incomplete,
        parse_request(a + b) == Scan::Done(r, Seq::<u8>::empty()),
{
    law_request_round_trip(r);
    assert((a + b).subrange(0, a.len() as int) =~= a);
    lemma_request_cut(a, a + b);
}

/// A reply that arrives in two parts: the first part alone calls for more
/// bytes, and both together give the reply.
pub proof fn law_response_incremental(r: ResponseView, a: Seq<u8>, b: Seq<u8>)
    requires
        r.wf(),
        a + b == response_bytes(r),
        b.len() > 0,
    ensures
        parse_response(a) is Incomplete,
        parse_response(a + b) == Scan::Done(r, Seq::<u8>::empty()),
{
    law_response_round_trip(r);
    assert((a + b).subrange(0, a.len() as int) =~= a);
    lemma_response_cut(a, a + b);
}

/// A payload comes back from `set` byte for byte, whatever bytes it holds:
/// line breaks, zeros and bytes above 0x7f are payload like any other.
pub proof fn law_payload_transparent(
    key: Seq<char>,
    payload: Seq<u8>,
    flags: u16,
    expiry: u32,
    noreply: bool,
)
    requires
        key_ok(key),
        payload.len() <= u32::MAX,
    ensures
        parse_request(
            request_bytes(RequestView::Put { key, value: payload, flags, expiry, noreply }),
        ) == Scan::Done(
            RequestView::Put { key, value: payload, flags, expiry, noreply },
            Seq::<u8>::empty(),
        ),
{
    law_request_round_trip(RequestView::Put { key, value: payload, flags, expiry, noreply });
}

/// A key that holds a byte outside 0x21..=0x7e, such as a space, a tab or
/// a line break, is no key.
pub proof fn law_key_bytes(key: Seq<char>, at: int)
    requires
        0 <= at < utf8(key).len(),
        !is_key_byte(utf8(key)[at]),
    ensures
        !key_ok(key),
{
}

/// A command one of whose keys is no key is not written: it is refused for
/// that key.
pub proof fn law_bad_key_refused(r: RequestView, at: int)
    requires
        0 <= at < r.keys().len(),
        !key_ok(r.keys()[at]),
    ensures
        r.check() == Err::<(), BuildError>(BuildError::BadKey),
{
    assert(seq![r.keys()[0]][0] == r.keys()[0]);
}

/// A value record whose key is no key is not written: it is refused for that
/// key.
pub proof fn law_bad_key_value_refused(v: ValueView)
    requires
        !key_ok(v.key),
    ensures
        v.check() == Err::<(), BuildError>(BuildError::BadKey),
{
}

} // verus!
