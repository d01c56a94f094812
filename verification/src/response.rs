//! The replies that a server sends.

use crate::decimal::{decimal, push_decimal};
use crate::scan::{lemma_join3, lemma_join4, line, number, parsed, read_line, read_number,
    read_tag, reads, tag, Halt, Parsed, Scan};
use crate::text::{check_text, push_text, text_ok, utf8, BuildError};
use crate::value::{parse_value, read_value, value_bytes, Value, ValueView};
use vstd::prelude::*;

verus! {

/// A reply. `Okay` is the reply `OK`.
#[derive(Clone, Debug, PartialEq, Eq)]
pub enum Response {
    Error,
    ClientError(String),
    ServerError(String),
    Stored,
    NotStored,
    Exists,
    NotFound,
    Values(Vec<Value>),
    Deleted,
    UpdatedValue(u64),
    Touched,
    Okay,
    Version(String),
}

/// A [`Response`] as plain data.
pub enum ResponseView {
    Error,
    ClientError(Seq<char>),
    ServerError(Seq<char>),
    Stored,
    NotStored,
    Exists,
    NotFound,
    Values(Seq<ValueView>),
    Deleted,
    UpdatedValue(u64),
    Touched,
    Okay,
    Version(Seq<char>),
}

/// The records of a list, as plain data.
pub open spec fn value_views(values: Seq<Value>) -> Seq<ValueView> {
    values.map_values(|v: Value| v@)
}

impl View for Response {
    type V = ResponseView;

    open spec fn view(&self) -> ResponseView {
        match *self {
            Response::Error => ResponseView::Error,
            Response::ClientError(message) => ResponseView::ClientError(message@),
            Response::ServerError(message) => ResponseView::ServerError(message@),
            Response::Stored => ResponseView::Stored,
            Response::NotStored => ResponseView::NotStored,
            Response::Exists => ResponseView::Exists,
            Response::NotFound => ResponseView::NotFound,
            Response::Values(values) => ResponseView::Values(value_views(values@)),
            Response::Deleted => ResponseView::Deleted,
            Response::UpdatedValue(n) => ResponseView::UpdatedValue(n),
            Response::Touched => ResponseView::Touched,
            Response::Okay => ResponseView::Okay,
            Response::Version(version) => ResponseView::Version(version@),
        }
    }
}

/// The kinds of replies, in the order in which the input is held against
/// them. The replies that are words come first; what is none of them may
/// still be a number.
#[derive(Clone, Copy, Debug, PartialEq, Eq)]
pub enum Kind {
    Error,
    ClientError,
    ServerError,
    Stored,
    NotStored,
    Exists,
    NotFound,
    Values,
    Deleted,
    Touched,
    Okay,
    Version,
    UpdatedValue,
}

/// The number of kinds of replies.
pub const KINDS: usize = 13;

impl Kind {
    /// The kind that is tried at place `i`.
    pub open spec fn nth(i: int) -> Kind {
        if i == 0 {
            Kind::Error
        } else if i == 1 {
            Kind::ClientError
        } else if i == 2 {
            Kind::ServerError
        } else if i == 3 {
            Kind::Stored
        } else if i == 4 {
            Kind::NotStored
        } else if i == 5 {
            Kind::Exists
        } else if i == 6 {
            Kind::NotFound
        } else if i == 7 {
            Kind::Values
        } else if i == 8 {
            Kind::Deleted
        } else if i == 9 {
            Kind::Touched
        } else if i == 10 {
            Kind::Okay
        } else if i == 11 {
            Kind::Version
        } else {
            Kind::UpdatedValue
        }
    }

    /// The place at which this kind is tried.
    pub open spec fn place(self) -> int {
        match self {
            Kind::Error => 0,
            Kind::ClientError => 1,
            Kind::ServerError => 2,
            Kind::Stored => 3,
            Kind::NotStored => 4,
            Kind::Exists => 5,
            Kind::NotFound => 6,
            Kind::Values => 7,
            Kind::Deleted => 8,
            Kind::Touched => 9,
            Kind::Okay => 10,
            Kind::Version => 11,
            Kind::UpdatedValue => 12,
        }
    }

    /// The literal of this kind: the whole line of a reply that is one word,
    /// the word and the space before a message, the line that ends a list of
    /// values, the end of the line behind a number.
    pub open spec fn word(self) -> Seq<char> {
        match self {
            Kind::Error => "ERROR\r\n"@,
            Kind::ClientError => "CLIENT_ERROR "@,
            Kind::ServerError => "SERVER_ERROR "@,
            Kind::Stored => "STORED\r\n"@,
            Kind::NotStored => "NOT STORED\r\n"@,
            Kind::Exists => "EXISTS\r\n"@,
            Kind::NotFound => "NOT FOUND\r\n"@,
            Kind::Values => "END\r\n"@,
            Kind::Deleted => "DELETED\r\n"@,
            Kind::Touched => "TOUCHED\r\n"@,
            Kind::Okay => "OK\r\n"@,
            Kind::Version => "VERSION "@,
            Kind::UpdatedValue => "\r\n"@,
        }
    }

    /// The kind that is tried at place `i`.
    pub fn at(i: usize) -> (kind: Kind)
        requires
            i < KINDS,
        ensures
            kind == Kind::nth(i as int),
    {
        if i == 0 {
            Kind::Error
        } else if i == 1 {
            Kind::ClientError
        } else if i == 2 {
            Kind::ServerError
        } else if i == 3 {
            Kind::Stored
        } else if i == 4 {
            Kind::NotStored
        } else if i == 5 {
            Kind::Exists
        } else if i == 6 {
            Kind::NotFound
        } else if i == 7 {
            Kind::Values
        } else if i == 8 {
            Kind::Deleted
        } else if i == 9 {
            Kind::Touched
        } else if i == 10 {
            Kind::Okay
        } else if i == 11 {
            Kind::Version
        } else {
            Kind::UpdatedValue
        }
    }

    /// The literal of this kind.
    pub fn text(self) -> (word: &'static str)
        ensures
            word@ == self.word(),
    {
        match self {
            Kind::Error => "ERROR\r\n",
            Kind::ClientError => "CLIENT_ERROR ",
            Kind::ServerError => "SERVER_ERROR ",
            Kind::Stored => "STORED\r\n",
            Kind::NotStored => "NOT STORED\r\n",
            Kind::Exists => "EXISTS\r\n",
            Kind::NotFound => "NOT FOUND\r\n",
            Kind::Values => "END\r\n",
            Kind::Deleted => "DELETED\r\n",
            Kind::Touched => "TOUCHED\r\n",
            Kind::Okay => "OK\r\n",
            Kind::Version => "VERSION ",
            Kind::UpdatedValue => "\r\n",
        }
    }
}

/// Why the first of `values` that cannot be written cannot be, if there is
/// one.
pub open spec fn check_values(values: Seq<ValueView>) -> Result<(), BuildError>
    decreases values.len(),
{
    if values.len() == 0 {
        Ok(())
    } else {
        match values[0].check() {
            Ok(_) => check_values(values.drop_first()),
            Err(e) => Err(e),
        }
    }
}

/// Why a message cannot be written, if it cannot.
pub open spec fn check_message(text: Seq<char>) -> Result<(), BuildError> {
    if text_ok(text) {
        Ok(())
    } else {
        Err(BuildError::BadText)
    }
}

impl ResponseView {
    /// The kind of this reply.
    pub open spec fn kind(self) -> Kind {
        match self {
            ResponseView::Error => Kind::Error,
            ResponseView::ClientError(_) => Kind::ClientError,
            ResponseView::ServerError(_) => Kind::ServerError,
            ResponseView::Stored => Kind::Stored,
            ResponseView::NotStored => Kind::NotStored,
            ResponseView::Exists => Kind::Exists,
            ResponseView::NotFound => Kind::NotFound,
            ResponseView::Values(_) => Kind::Values,
            ResponseView::Deleted => Kind::Deleted,
            ResponseView::UpdatedValue(_) => Kind::UpdatedValue,
            ResponseView::Touched => Kind::Touched,
            ResponseView::Okay => Kind::Okay,
            ResponseView::Version(_) => Kind::Version,
        }
    }

    /// Why this reply cannot be written, if it cannot: a message that holds a
    /// line break, or the first record that cannot be written.
    pub open spec fn check(self) -> Result<(), BuildError> {
        match self {
            ResponseView::ClientError(message) => check_message(message),
            ResponseView::ServerError(message) => check_message(message),
            ResponseView::Version(version) => check_message(version),
            ResponseView::Values(values) => check_values(values),
            _ => Ok(()),
        }
    }

    /// Whether this reply can be written.
    pub open spec fn wf(self) -> bool {
        self.check() is Ok
    }
}

// ---------------------------------------------------------------------------
// The wire format

/// Value records on the wire, one after the other.
pub open spec fn values_bytes(values: Seq<ValueView>) -> Seq<u8>
    decreases values.len(),
{
    if values.len() == 0 {
        Seq::empty()
    } else {
        value_bytes(values[0]) + values_bytes(values.drop_first())
    }
}

/// A reply on the wire.
pub open spec fn response_bytes(r: ResponseView) -> Seq<u8> {
    match r {
        ResponseView::Error => utf8("ERROR\r\n"@),
        ResponseView::ClientError(message) => utf8("CLIENT_ERROR "@) + utf8(message) + utf8(
            "\r\n"@,
        ),
        ResponseView::ServerError(message) => utf8("SERVER_ERROR "@) + utf8(message) + utf8(
            "\r\n"@,
        ),
        ResponseView::Stored => utf8("STORED\r\n"@),
        ResponseView::NotStored => utf8("NOT STORED\r\n"@),
        ResponseView::Exists => utf8("EXISTS\r\n"@),
        ResponseView::NotFound => utf8("NOT FOUND\r\n"@),
        ResponseView::Values(values) => values_bytes(values) + utf8("END\r\n"@),
        ResponseView::Deleted => utf8("DELETED\r\n"@),
        ResponseView::UpdatedValue(n) => decimal(n as nat) + utf8("\r\n"@),
        ResponseView::Touched => utf8("TOUCHED\r\n"@),
        ResponseView::Okay => utf8("OK\r\n"@),
        ResponseView::Version(version) => utf8("VERSION "@) + utf8(version) + utf8("\r\n"@),
    }
}

// ---------------------------------------------------------------------------
// Reading

/// The reply of a kind that is one word.
pub open spec fn plain(kind: Kind) -> ResponseView {
    match kind {
        Kind::Error => ResponseView::Error,
        Kind::Stored => ResponseView::Stored,
        Kind::NotStored => ResponseView::NotStored,
        Kind::Exists => ResponseView::Exists,
        Kind::NotFound => ResponseView::NotFound,
        Kind::Deleted => ResponseView::Deleted,
        Kind::Touched => ResponseView::Touched,
        _ => ResponseView::Okay,
    }
}

/// The reply of a kind that carries a message.
pub open spec fn worded(kind: Kind, text: Seq<char>) -> ResponseView {
    match kind {
        Kind::ClientError => ResponseView::ClientError(text),
        Kind::ServerError => ResponseView::ServerError(text),
        _ => ResponseView::Version(text),
    }
}

/// Reading a reply that is one word.
pub open spec fn fixed(s: Seq<u8>, kind: Kind) -> Scan<ResponseView> {
    let word = tag(s, utf8(kind.word()));
    word.and(Scan::Done(plain(kind), word.rest()))
}

/// Reading a reply that carries a message: the word, the message up to the
/// end of the line, and the end of the line.
#[verifier::opaque]
pub open spec fn message(s: Seq<u8>, kind: Kind) -> Scan<ResponseView> {
    let word = tag(s, utf8(kind.word()));
    let text = line(word.rest());
    let end = tag(text.rest(), utf8("\r\n"@));
    word.and(text).and(end).and(Scan::Done(worded(kind, text.value()), end.rest()))
}

/// Reading value records for as long as there are any.
pub open spec fn values(s: Seq<u8>) -> Scan<Seq<ValueView>>
    decreases s.len(),
{
    match parse_value(s) {
        Scan::Done(v, rest) => if rest.len() < s.len() {
            match values(rest) {
                Scan::Done(more, rest) => Scan::Done(seq![v] + more, rest),
                Scan::Incomplete => Scan::Incomplete,
                Scan::Error => Scan::Error,
            }
        } else {
            Scan::Error
        },
        Scan::Incomplete => Scan::Incomplete,
        Scan::Error => Scan::Done(Seq::empty(), s),
    }
}

/// Reading a list of values: the records, and the line `END`.
#[verifier::opaque]
pub open spec fn listing(s: Seq<u8>) -> Scan<ResponseView> {
    let found = values(s);
    let end = tag(found.rest(), utf8(Kind::Values.word()));
    found.and(end).and(Scan::Done(ResponseView::Values(found.value()), end.rest()))
}

/// Reading a number on a line of its own.
#[verifier::opaque]
pub open spec fn amount(s: Seq<u8>) -> Scan<ResponseView> {
    let n = number(s, u64::MAX);
    let end = tag(n.rest(), utf8(Kind::UpdatedValue.word()));
    n.and(end).and(Scan::Done(ResponseView::UpdatedValue(n.value()), end.rest()))
}

/// Reading a reply of one kind.
pub open spec fn reply(s: Seq<u8>, kind: Kind) -> Scan<ResponseView> {
    match kind {
        Kind::ClientError | Kind::ServerError | Kind::Version => message(s, kind),
        Kind::Values => listing(s),
        Kind::UpdatedValue => amount(s),
        _ => fixed(s, kind),
    }
}

/// Reading a reply whose kind is tried from place `from` on: the first kind
/// that the input does not rule out decides.
pub open spec fn choice(s: Seq<u8>, from: int) -> Scan<ResponseView>
    decreases KINDS - from,
{
    if from < 0 || from >= KINDS {
        Scan::Error
    } else {
        match reply(s, Kind::nth(from)) {
            Scan::Done(r, rest) => Scan::Done(r, rest),
            Scan::Incomplete => Scan::Incomplete,
            Scan::Error => choice(s, from + 1),
        }
    }
}

/// Reading a reply from the front of `s`.
pub open spec fn parse_response(s: Seq<u8>) -> Scan<ResponseView> {
    choice(s, 0)
}

/// `front`, and then the records that `scan` found.
pub open spec fn led(front: Seq<ValueView>, scan: Scan<Seq<ValueView>>) -> Scan<Seq<ValueView>> {
    match scan {
        Scan::Done(more, rest) => Scan::Done(front + more, rest),
        Scan::Incomplete => Scan::Incomplete,
        Scan::Error => Scan::Error,
    }
}

/// Records led by none are the records.
pub proof fn lemma_led_nothing(scan: Scan<Seq<ValueView>>)
    ensures
        led(Seq::empty(), scan) == scan,
{
    if scan is Done {
        assert(Seq::<ValueView>::empty() + scan.value() =~= scan.value());
    }
}

// ---------------------------------------------------------------------------
// Writing to a buffer

/// Why the first of `values` that cannot be written cannot be, if there is
/// one.
pub fn check_each(values: &Vec<Value>) -> (r: Result<(), BuildError>)
    ensures
        r == check_values(value_views(values@)),
{
    let ghost all = value_views(values@);
    let mut i: usize = 0;
    assert(all.skip(0) =~= all);
    while i < values.len()
        invariant
            i <= values.len(),
            all == value_views(values@),
            check_values(all) == check_values(all.skip(i as int)),
        decreases values.len() - i,
    {
        proof {
            let left = all.skip(i as int);
            assert(left[0] == values@[i as int]@);
            assert(left.drop_first() =~= all.skip(i + 1));
        }
        match values[i].check() {
            Ok(_) => {},
            Err(e) => {
                return Err(e);
            },
        }
        i += 1;
    }
    Ok(())
}

/// Why a message cannot be written, if it cannot.
pub fn check_line(text: &String) -> (r: Result<(), BuildError>)
    ensures
        r == check_message(text@),
{
    if check_text(text) {
        Ok(())
    } else {
        Err(BuildError::BadText)
    }
}

/// Appends `values` to `buf` as they stand on the wire.
pub fn push_values(buf: &mut Vec<u8>, values: &Vec<Value>)
    ensures
        final(buf)@ == old(buf)@ + values_bytes(value_views(values@)),
{
    let ghost all = value_views(values@);
    let mut i: usize = 0;
    assert(all.skip(0) =~= all);
    while i < values.len()
        invariant
            i <= values.len(),
            all == value_views(values@),
            buf@ + values_bytes(all.skip(i as int)) == old(buf)@ + values_bytes(all),
        decreases values.len() - i,
    {
        let ghost before = buf@;
        values[i].push(buf);
        proof {
            let left = all.skip(i as int);
            assert(left[0] == values@[i as int]@);
            assert(left.drop_first() =~= all.skip(i + 1));
            lemma_join3(before, value_bytes(left[0]), values_bytes(left.drop_first()));
        }
        i += 1;
    }
    proof {
        assert(all.skip(values@.len() as int) =~= Seq::<ValueView>::empty());
        assert(buf@ + Seq::<u8>::empty() =~= buf@);
    }
}

/// Appends a word, a message and the end of the line to `buf`.
pub fn push_message(buf: &mut Vec<u8>, word: &str, text: &String)
    ensures
        final(buf)@ == old(buf)@ + (utf8(word@) + utf8(text@) + utf8("\r\n"@)),
{
    push_text(buf, word);
    push_text(buf, text.as_str());
    push_text(buf, "\r\n");
    proof {
        lemma_join4(old(buf)@, utf8(word@), utf8(text@), utf8("\r\n"@));
    }
}

impl Response {
    /// The kind of this reply.
    pub fn kind(&self) -> (kind: Kind)
        ensures
            kind == self@.kind(),
    {
        match self {
            Response::Error => Kind::Error,
            Response::ClientError(_) => Kind::ClientError,
            Response::ServerError(_) => Kind::ServerError,
            Response::Stored => Kind::Stored,
            Response::NotStored => Kind::NotStored,
            Response::Exists => Kind::Exists,
            Response::NotFound => Kind::NotFound,
            Response::Values(_) => Kind::Values,
            Response::Deleted => Kind::Deleted,
            Response::UpdatedValue(_) => Kind::UpdatedValue,
            Response::Touched => Kind::Touched,
            Response::Okay => Kind::Okay,
            Response::Version(_) => Kind::Version,
        }
    }

    /// Why this reply cannot be written, if it cannot.
    pub fn check(&self) -> (r: Result<(), BuildError>)
        ensures
            r == self@.check(),
    {
        match self {
            Response::ClientError(message) => check_line(message),
            Response::ServerError(message) => check_line(message),
            Response::Version(version) => check_line(version),
            Response::Values(values) => check_each(values),
            _ => Ok(()),
        }
    }

    /// Appends this reply to `buf` as it stands on the wire. A reply that
    /// cannot be written is refused, and `buf` stays as it was.
    pub fn build(&self, buf: &mut Vec<u8>) -> (r: Result<(), BuildError>)
        ensures
            r == self@.check(),
            r is Ok ==> final(buf)@ == old(buf)@ + response_bytes(self@),
            r is Err ==> final(buf)@ == old(buf)@,
    {
        self.check()?;
        match self {
            Response::ClientError(message) => push_message(buf, "CLIENT_ERROR ", message),
            Response::ServerError(message) => push_message(buf, "SERVER_ERROR ", message),
            Response::Version(version) => push_message(buf, "VERSION ", version),
            Response::Values(values) => {
                push_values(buf, values);
                push_text(buf, "END\r\n");
                proof {
                    lemma_join3(
                        old(buf)@,
                        values_bytes(value_views(values@)),
                        utf8("END\r\n"@),
                    );
                }
            },
            Response::UpdatedValue(n) => {
                push_decimal(buf, *n);
                push_text(buf, "\r\n");
                proof {
                    lemma_join3(old(buf)@, decimal(*n as nat), utf8("\r\n"@));
                }
            },
            _ => push_text(buf, self.kind().text()),
        }
        Ok(())
    }
}

// ---------------------------------------------------------------------------
// Reading from a buffer

/// Reads a reply that is one word at `pos`.
pub fn read_fixed(buf: &[u8], pos: usize, kind: Kind) -> (r: Result<(Response, usize), Halt>)
    requires
        pos <= buf.len(),
    ensures
        reads(r, buf@) == fixed(buf@.skip(pos as int), kind),
        r matches Ok((_, next)) ==> pos <= next <= buf.len(),
{
    let (_, p) = read_tag(buf, pos, kind.text())?;
    Ok(
        (
            match kind {
                Kind::Error => Response::Error,
                Kind::Stored => Response::Stored,
                Kind::NotStored => Response::NotStored,
                Kind::Exists => Response::Exists,
                Kind::NotFound => Response::NotFound,
                Kind::Deleted => Response::Deleted,
                Kind::Touched => Response::Touched,
                _ => Response::Okay,
            },
            p,
        ),
    )
}

/// Reads a reply that carries a message at `pos`.
pub fn read_message(buf: &[u8], pos: usize, kind: Kind) -> (r: Result<(Response, usize), Halt>)
    requires
        pos <= buf.len(),
    ensures
        reads(r, buf@) == message(buf@.skip(pos as int), kind),
        r matches Ok((_, next)) ==> pos <= next <= buf.len(),
{
    proof {
        reveal(message);
    }
    let (_, p) = read_tag(buf, pos, kind.text())?;
    let (text, p) = read_line(buf, p)?;
    let (_, p) = read_tag(buf, p, "\r\n")?;
    Ok(
        (
            match kind {
                Kind::ClientError => Response::ClientError(text),
                Kind::ServerError => Response::ServerError(text),
                _ => Response::Version(text),
            },
            p,
        ),
    )
}

/// Reads value records at `pos` for as long as there are any.
pub fn read_values(buf: &[u8], pos: usize) -> (r: Result<(Vec<Value>, usize), Halt>)
    requires
        pos <= buf.len(),
    ensures
        match r {
            Ok((found, next)) => values(buf@.skip(pos as int)) == Scan::Done(
                value_views(found@),
                buf@.skip(next as int),
            ) && pos <= next <= buf.len(),
            Err(Halt::Incomplete) => values(buf@.skip(pos as int)) is Incomplete,
            Err(Halt::Error) => values(buf@.skip(pos as int)) is Error,
        },
{
    let mut found: Vec<Value> = Vec::new();
    let mut at: usize = pos;
    proof {
        assert(value_views(found@) =~= Seq::<ValueView>::empty());
        lemma_led_nothing(values(buf@.skip(pos as int)));
    }
    loop
        invariant
            pos <= at <= buf.len(),
            values(buf@.skip(pos as int)) == led(value_views(found@), values(buf@.skip(at as int))),
        decreases buf.len() - at,
    {
        let ghost front = value_views(found@);
        proof {
            assert(front + Seq::<ValueView>::empty() =~= front);
        }
        match read_value(buf, at) {
            Err(Halt::Incomplete) => {
                return Err(Halt::Incomplete);
            },
            Err(Halt::Error) => {
                return Ok((found, at));
            },
            Ok((v, next)) => {
                proof {
                    let more = values(buf@.skip(next as int));
                    assert(value_views(found@.push(v)) =~= front.push(v@));
                    if more is Done {
                        assert(front + (seq![v@] + more.value()) =~= front.push(v@) + more.value());
                    }
                }
                found.push(v);
                at = next;
            },
        }
    }
}

/// Reads a list of values at `pos`.
pub fn read_listing(buf: &[u8], pos: usize) -> (r: Result<(Response, usize), Halt>)
    requires
        pos <= buf.len(),
    ensures
        reads(r, buf@) == listing(buf@.skip(pos as int)),
        r matches Ok((_, next)) ==> pos <= next <= buf.len(),
{
    proof {
        reveal(listing);
    }
    let (found, p) = read_values(buf, pos)?;
    let (_, p) = read_tag(buf, p, "END\r\n")?;
    Ok((Response::Values(found), p))
}

/// Reads a number on a line of its own at `pos`.
pub fn read_amount(buf: &[u8], pos: usize) -> (r: Result<(Response, usize), Halt>)
    requires
        pos <= buf.len(),
    ensures
        reads(r, buf@) == amount(buf@.skip(pos as int)),
        r matches Ok((_, next)) ==> pos <= next <= buf.len(),
{
    proof {
        reveal(amount);
    }
    let (n, p) = read_number(buf, pos, u64::MAX)?;
    let (_, p) = read_tag(buf, p, "\r\n")?;
    Ok((Response::UpdatedValue(n), p))
}

/// Reads a reply of one kind at `pos`.
pub fn read_reply(buf: &[u8], pos: usize, kind: Kind) -> (r: Result<(Response, usize), Halt>)
    requires
        pos <= buf.len(),
    ensures
        reads(r, buf@) == reply(buf@.skip(pos as int), kind),
        r matches Ok((_, next)) ==> pos <= next <= buf.len(),
{
    match kind {
        Kind::ClientError | Kind::ServerError | Kind::Version => read_message(buf, pos, kind),
        Kind::Values => read_listing(buf, pos),
        Kind::UpdatedValue => read_amount(buf, pos),
        _ => read_fixed(buf, pos, kind),
    }
}

/// Reads a reply at `pos`.
pub fn read_response(buf: &[u8], pos: usize) -> (r: Result<(Response, usize), Halt>)
    requires
        pos <= buf.len(),
    ensures
        reads(r, buf@) == parse_response(buf@.skip(pos as int)),
        r matches Ok((_, next)) ==> pos <= next <= buf.len(),
{
    let mut i: usize = 0;
    while i < KINDS
        invariant
            i <= KINDS,
            pos <= buf.len(),
            parse_response(buf@.skip(pos as int)) == choice(buf@.skip(pos as int), i as int),
        decreases KINDS - i,
    {
        match read_reply(buf, pos, Kind::at(i)) {
            Ok((found, next)) => {
                return Ok((found, next));
            },
            Err(Halt::Incomplete) => {
                return Err(Halt::Incomplete);
            },
            Err(Halt::Error) => {},
        }
        i += 1;
    }
    Err(Halt::Error)
}

impl Response {
    /// Reads one reply from the front of `buf`.
    pub fn parse(buf: &[u8]) -> (r: Parsed<Response>)
        ensures
            r.scan(buf@) == parse_response(buf@),
            r matches Parsed::Done(_, used) ==> used <= buf.len(),
    {
        assert(buf@.skip(0) =~= buf@);
        parsed(read_response(buf, 0))
    }
}

} // verus!
