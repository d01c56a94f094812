//! The commands that a client sends.

use crate::scan::{block, block_bytes, field_bytes, key, lemma_join3, lemma_join4, lemma_join5,
    lemma_join7, lemma_join8, lemma_space, noreply, noreply_bytes, opt_number,
    opt_number_bytes, push_block, push_field, push_noreply, push_opt_number, read_block,
    read_key, read_noreply, read_opt_number, read_spaced, read_tag, reads, spaced, tag, parsed,
    Halt, Parsed, Scan};
use crate::request_laws::lemma_line_len;
use crate::text::{check_key, key_ok, push_text, utf8, BuildError, LINE_MAX};
use vstd::prelude::*;

verus! {

/// A command. `Put` is the command `set`.
///
/// A command that carries `noreply` asks the server to send nothing back.
/// Replies are matched to commands by their order alone, so a client that
/// sets it loses count of what it is owed.
#[derive(Clone, Debug, PartialEq, Eq)]
pub enum Request {
    Put { key: String, value: Vec<u8>, flags: u16, expiry: u32, noreply: bool },
    Add { key: String, value: Vec<u8>, flags: u16, expiry: u32, noreply: bool },
    Replace { key: String, value: Vec<u8>, flags: u16, expiry: u32, noreply: bool },
    Append { key: String, value: Vec<u8>, noreply: bool },
    Prepend { key: String, value: Vec<u8>, noreply: bool },
    Cas { key: String, value: Vec<u8>, flags: u16, expiry: u32, cas: u64, noreply: bool },
    Get { keys: Vec<String> },
    Gets { keys: Vec<String> },
    Delete { key: String, noreply: bool },
    Incr { key: String, value: u64, noreply: bool },
    Decr { key: String, value: u64, noreply: bool },
    Touch { key: String, expiry: u32, noreply: bool },
    FlushAll { delay: Option<u32>, noreply: bool },
    Version,
}

/// A [`Request`] as plain data.
pub enum RequestView {
    Put { key: Seq<char>, value: Seq<u8>, flags: u16, expiry: u32, noreply: bool },
    Add { key: Seq<char>, value: Seq<u8>, flags: u16, expiry: u32, noreply: bool },
    Replace { key: Seq<char>, value: Seq<u8>, flags: u16, expiry: u32, noreply: bool },
    Append { key: Seq<char>, value: Seq<u8>, noreply: bool },
    Prepend { key: Seq<char>, value: Seq<u8>, noreply: bool },
    Cas { key: Seq<char>, value: Seq<u8>, flags: u16, expiry: u32, cas: u64, noreply: bool },
    Get { keys: Seq<Seq<char>> },
    Gets { keys: Seq<Seq<char>> },
    Delete { key: Seq<char>, noreply: bool },
    Incr { key: Seq<char>, value: u64, noreply: bool },
    Decr { key: Seq<char>, value: u64, noreply: bool },
    Touch { key: Seq<char>, expiry: u32, noreply: bool },
    FlushAll { delay: Option<u32>, noreply: bool },
    Version,
}

/// The keys of a list, as plain data.
pub open spec fn key_views(keys: Seq<String>) -> Seq<Seq<char>> {
    keys.map_values(|k: String| k@)
}

impl View for Request {
    type V = RequestView;

    open spec fn view(&self) -> RequestView {
        match *self {
            Request::Put { key, value, flags, expiry, noreply } => RequestView::Put {
                key: key@,
                value: value@,
                flags,
                expiry,
                noreply,
            },
            Request::Add { key, value, flags, expiry, noreply } => RequestView::Add {
                key: key@,
                value: value@,
                flags,
                expiry,
                noreply,
            },
            Request::Replace { key, value, flags, expiry, noreply } => RequestView::Replace {
                key: key@,
                value: value@,
                flags,
                expiry,
                noreply,
            },
            Request::Append { key, value, noreply } => RequestView::Append {
                key: key@,
                value: value@,
                noreply,
            },
            Request::Prepend { key, value, noreply } => RequestView::Prepend {
                key: key@,
                value: value@,
                noreply,
            },
            Request::Cas { key, value, flags, expiry, cas, noreply } => RequestView::Cas {
                key: key@,
                value: value@,
                flags,
                expiry,
                cas,
                noreply,
            },
            Request::Get { keys } => RequestView::Get { keys: key_views(keys@) },
            Request::Gets { keys } => RequestView::Gets { keys: key_views(keys@) },
            Request::Delete { key, noreply } => RequestView::Delete { key: key@, noreply },
            Request::Incr { key, value, noreply } => RequestView::Incr { key: key@, value, noreply },
            Request::Decr { key, value, noreply } => RequestView::Decr { key: key@, value, noreply },
            Request::Touch { key, expiry, noreply } => RequestView::Touch {
                key: key@,
                expiry,
                noreply,
            },
            Request::FlushAll { delay, noreply } => RequestView::FlushAll { delay, noreply },
            Request::Version => RequestView::Version,
        }
    }
}

/// The commands by name, in the order in which a line is held against them.
/// `gets` stands before `get`, which is the start of it.
#[derive(Clone, Copy, Debug, PartialEq, Eq)]
pub enum Verb {
    Put,
    Add,
    Replace,
    Append,
    Prepend,
    Cas,
    Gets,
    Get,
    Delete,
    Incr,
    Decr,
    Touch,
    FlushAll,
    Version,
}

/// The number of commands.
pub const VERBS: usize = 14;

impl Verb {
    /// The verb that is tried at place `i`.
    pub open spec fn nth(i: int) -> Verb {
        if i == 0 {
            Verb::Put
        } else if i == 1 {
            Verb::Add
        } else if i == 2 {
            Verb::Replace
        } else if i == 3 {
            Verb::Append
        } else if i == 4 {
            Verb::Prepend
        } else if i == 5 {
            Verb::Cas
        } else if i == 6 {
            Verb::Gets
        } else if i == 7 {
            Verb::Get
        } else if i == 8 {
            Verb::Delete
        } else if i == 9 {
            Verb::Incr
        } else if i == 10 {
            Verb::Decr
        } else if i == 11 {
            Verb::Touch
        } else if i == 12 {
            Verb::FlushAll
        } else {
            Verb::Version
        }
    }

    /// The place at which this verb is tried.
    pub open spec fn place(self) -> int {
        match self {
            Verb::Put => 0,
            Verb::Add => 1,
            Verb::Replace => 2,
            Verb::Append => 3,
            Verb::Prepend => 4,
            Verb::Cas => 5,
            Verb::Gets => 6,
            Verb::Get => 7,
            Verb::Delete => 8,
            Verb::Incr => 9,
            Verb::Decr => 10,
            Verb::Touch => 11,
            Verb::FlushAll => 12,
            Verb::Version => 13,
        }
    }

    /// What a line of this command starts with: its name and, where
    /// something must follow, a space. `version` is the whole line.
    pub open spec fn word(self) -> Seq<char> {
        match self {
            Verb::Put => "set "@,
            Verb::Add => "add "@,
            Verb::Replace => "replace "@,
            Verb::Append => "append "@,
            Verb::Prepend => "prepend "@,
            Verb::Cas => "cas "@,
            Verb::Gets => "gets"@,
            Verb::Get => "get"@,
            Verb::Delete => "delete "@,
            Verb::Incr => "incr "@,
            Verb::Decr => "decr "@,
            Verb::Touch => "touch "@,
            Verb::FlushAll => "flush_all"@,
            Verb::Version => "version\r\n"@,
        }
    }

    /// The verb that is tried at place `i`.
    pub fn at(i: usize) -> (verb: Verb)
        requires
            i < VERBS,
        ensures
            verb == Verb::nth(i as int),
    {
        if i == 0 {
            Verb::Put
        } else if i == 1 {
            Verb::Add
        } else if i == 2 {
            Verb::Replace
        } else if i == 3 {
            Verb::Append
        } else if i == 4 {
            Verb::Prepend
        } else if i == 5 {
            Verb::Cas
        } else if i == 6 {
            Verb::Gets
        } else if i == 7 {
            Verb::Get
        } else if i == 8 {
            Verb::Delete
        } else if i == 9 {
            Verb::Incr
        } else if i == 10 {
            Verb::Decr
        } else if i == 11 {
            Verb::Touch
        } else if i == 12 {
            Verb::FlushAll
        } else {
            Verb::Version
        }
    }

    /// What a line of this command starts with.
    pub fn text(self) -> (word: &'static str)
        ensures
            word@ == self.word(),
    {
        match self {
            Verb::Put => "set ",
            Verb::Add => "add ",
            Verb::Replace => "replace ",
            Verb::Append => "append ",
            Verb::Prepend => "prepend ",
            Verb::Cas => "cas ",
            Verb::Gets => "gets",
            Verb::Get => "get",
            Verb::Delete => "delete ",
            Verb::Incr => "incr ",
            Verb::Decr => "decr ",
            Verb::Touch => "touch ",
            Verb::FlushAll => "flush_all",
            Verb::Version => "version\r\n",
        }
    }
}

impl RequestView {
    /// The name of this command.
    pub open spec fn verb(self) -> Verb {
        match self {
            RequestView::Put { .. } => Verb::Put,
            RequestView::Add { .. } => Verb::Add,
            RequestView::Replace { .. } => Verb::Replace,
            RequestView::Append { .. } => Verb::Append,
            RequestView::Prepend { .. } => Verb::Prepend,
            RequestView::Cas { .. } => Verb::Cas,
            RequestView::Gets { .. } => Verb::Gets,
            RequestView::Get { .. } => Verb::Get,
            RequestView::Delete { .. } => Verb::Delete,
            RequestView::Incr { .. } => Verb::Incr,
            RequestView::Decr { .. } => Verb::Decr,
            RequestView::Touch { .. } => Verb::Touch,
            RequestView::FlushAll { .. } => Verb::FlushAll,
            RequestView::Version => Verb::Version,
        }
    }

    /// Whether this command asks the server to send nothing back.
    pub open spec fn noreply(self) -> bool {
        match self {
            RequestView::Put { noreply, .. } => noreply,
            RequestView::Add { noreply, .. } => noreply,
            RequestView::Replace { noreply, .. } => noreply,
            RequestView::Append { noreply, .. } => noreply,
            RequestView::Prepend { noreply, .. } => noreply,
            RequestView::Cas { noreply, .. } => noreply,
            RequestView::Get { .. } => false,
            RequestView::Gets { .. } => false,
            RequestView::Delete { noreply, .. } => noreply,
            RequestView::Incr { noreply, .. } => noreply,
            RequestView::Decr { noreply, .. } => noreply,
            RequestView::Touch { noreply, .. } => noreply,
            RequestView::FlushAll { noreply, .. } => noreply,
            RequestView::Version => false,
        }
    }

    /// The keys that this command names.
    pub open spec fn keys(self) -> Seq<Seq<char>> {
        match self {
            RequestView::Put { key, .. } => seq![key],
            RequestView::Add { key, .. } => seq![key],
            RequestView::Replace { key, .. } => seq![key],
            RequestView::Append { key, .. } => seq![key],
            RequestView::Prepend { key, .. } => seq![key],
            RequestView::Cas { key, .. } => seq![key],
            RequestView::Get { keys } => keys,
            RequestView::Gets { keys } => keys,
            RequestView::Delete { key, .. } => seq![key],
            RequestView::Incr { key, .. } => seq![key],
            RequestView::Decr { key, .. } => seq![key],
            RequestView::Touch { key, .. } => seq![key],
            RequestView::FlushAll { .. } => Seq::empty(),
            RequestView::Version => Seq::empty(),
        }
    }

    /// Why this command cannot be written, if it cannot: the first of its
    /// keys that is none, or a payload whose length does not fit 32 bits.
    pub open spec fn check(self) -> Result<(), BuildError> {
        match self {
            RequestView::Put { key, value, .. } => check_stored(key, value),
            RequestView::Add { key, value, .. } => check_stored(key, value),
            RequestView::Replace { key, value, .. } => check_stored(key, value),
            RequestView::Append { key, value, .. } => check_stored(key, value),
            RequestView::Prepend { key, value, .. } => check_stored(key, value),
            RequestView::Cas { key, value, .. } => check_stored(key, value),
            RequestView::Get { keys } => check_keys(keys),
            RequestView::Gets { keys } => check_keys(keys),
            RequestView::Delete { key, .. } => check_keys(seq![key]),
            RequestView::Incr { key, .. } => check_keys(seq![key]),
            RequestView::Decr { key, .. } => check_keys(seq![key]),
            RequestView::Touch { key, .. } => check_keys(seq![key]),
            RequestView::FlushAll { .. } => Ok(()),
            RequestView::Version => Ok(()),
        }
    }

    /// Whether this command can be written.
    pub open spec fn wf(self) -> bool {
        self.check() is Ok
    }

    /// The length of the payload of this command, where it carries one.
    pub open spec fn payload_len(self) -> Option<nat> {
        match self {
            RequestView::Put { value, .. } => Some(value.len()),
            RequestView::Add { value, .. } => Some(value.len()),
            RequestView::Replace { value, .. } => Some(value.len()),
            RequestView::Append { value, .. } => Some(value.len()),
            RequestView::Prepend { value, .. } => Some(value.len()),
            RequestView::Cas { value, .. } => Some(value.len()),
            _ => None,
        }
    }

    /// The length of the first line of this command on the wire, its end
    /// included: all of the command but its payload and what ends that.
    pub open spec fn line_len(self) -> int {
        match self.payload_len() {
            Some(len) => request_bytes(self).len() - len - 2,
            None => request_bytes(self).len() as int,
        }
    }

    /// Why a client cannot send this command, if it cannot: it cannot be
    /// written, or its first line is longer than 256 bytes.
    pub open spec fn sendable(self) -> Result<(), BuildError> {
        match self.check() {
            Err(e) => Err(e),
            Ok(_) => if self.line_len() > LINE_MAX {
                Err(BuildError::LineTooLong)
            } else {
                Ok(())
            },
        }
    }
}

/// Whether each of `keys` can be sent.
pub open spec fn keys_ok(keys: Seq<Seq<char>>) -> bool {
    forall|i: int| 0 <= i < keys.len() ==> key_ok(#[trigger] keys[i])
}

/// Why `keys` cannot be written, if they cannot.
pub open spec fn check_keys(keys: Seq<Seq<char>>) -> Result<(), BuildError> {
    if keys_ok(keys) {
        Ok(())
    } else {
        Err(BuildError::BadKey)
    }
}

/// Why a key and its payload cannot be written, if they cannot.
pub open spec fn check_stored(key: Seq<char>, value: Seq<u8>) -> Result<(), BuildError> {
    if !key_ok(key) {
        Err(BuildError::BadKey)
    } else if value.len() > u32::MAX {
        Err(BuildError::PayloadTooLong)
    } else {
        Ok(())
    }
}

// ---------------------------------------------------------------------------
// The wire format

/// What follows `set `, `add ` and `replace `:
/// `<key> <flags> <expiry> <bytes>[ noreply]\r\n<payload>\r\n`.
pub open spec fn store_bytes(
    key: Seq<char>,
    value: Seq<u8>,
    flags: u16,
    expiry: u32,
    quiet: bool,
) -> Seq<u8> {
    utf8(key) + field_bytes(flags as nat) + field_bytes(expiry as nat) + field_bytes(value.len())
        + noreply_bytes(quiet) + block_bytes(value)
}

/// What follows `append ` and `prepend `:
/// `<key> <bytes>[ noreply]\r\n<payload>\r\n`.
pub open spec fn extend_bytes(key: Seq<char>, value: Seq<u8>, quiet: bool) -> Seq<u8> {
    utf8(key) + field_bytes(value.len()) + noreply_bytes(quiet) + block_bytes(value)
}

/// What follows `cas `:
/// `<key> <flags> <expiry> <bytes> <cas>[ noreply]\r\n<payload>\r\n`.
pub open spec fn swap_bytes(
    key: Seq<char>,
    value: Seq<u8>,
    flags: u16,
    expiry: u32,
    cas: u64,
    quiet: bool,
) -> Seq<u8> {
    utf8(key) + field_bytes(flags as nat) + field_bytes(expiry as nat) + field_bytes(value.len())
        + field_bytes(cas as nat) + noreply_bytes(quiet) + block_bytes(value)
}

/// The keys of `get` and `gets`, a space before each.
pub open spec fn keys_bytes(keys: Seq<Seq<char>>) -> Seq<u8>
    decreases keys.len(),
{
    if keys.len() == 0 {
        Seq::empty()
    } else {
        utf8(" "@) + utf8(keys[0]) + keys_bytes(keys.drop_first())
    }
}

/// What follows `get` and `gets`: `( <key>)*\r\n`.
pub open spec fn fetch_bytes(keys: Seq<Seq<char>>) -> Seq<u8> {
    keys_bytes(keys) + utf8("\r\n"@)
}

/// What follows `delete `: `<key>[ noreply]\r\n`.
pub open spec fn delete_bytes(key: Seq<char>, quiet: bool) -> Seq<u8> {
    utf8(key) + noreply_bytes(quiet) + utf8("\r\n"@)
}

/// What follows `incr `, `decr ` and `touch `: `<key> <number>[ noreply]\r\n`.
pub open spec fn count_bytes(key: Seq<char>, n: u64, quiet: bool) -> Seq<u8> {
    utf8(key) + field_bytes(n as nat) + noreply_bytes(quiet) + utf8("\r\n"@)
}

/// What follows `flush_all`: `[ <delay>][ noreply]\r\n`.
pub open spec fn flush_bytes(delay: Option<u32>, quiet: bool) -> Seq<u8> {
    opt_number_bytes(wide(delay)) + noreply_bytes(quiet) + utf8("\r\n"@)
}

/// A delay that may be missing, as a 64-bit number.
pub open spec fn wide(delay: Option<u32>) -> Option<u64> {
    match delay {
        Some(d) => Some(d as u64),
        None => None,
    }
}

/// A delay that may be missing, as a 32-bit number.
pub open spec fn narrow(delay: Option<u64>) -> Option<u32> {
    match delay {
        Some(d) => Some(d as u32),
        None => None,
    }
}

/// What follows the name of a command on the wire.
pub open spec fn body_bytes(r: RequestView) -> Seq<u8> {
    match r {
        RequestView::Put { key, value, flags, expiry, noreply } => store_bytes(
            key,
            value,
            flags,
            expiry,
            noreply,
        ),
        RequestView::Add { key, value, flags, expiry, noreply } => store_bytes(
            key,
            value,
            flags,
            expiry,
            noreply,
        ),
        RequestView::Replace { key, value, flags, expiry, noreply } => store_bytes(
            key,
            value,
            flags,
            expiry,
            noreply,
        ),
        RequestView::Append { key, value, noreply } => extend_bytes(key, value, noreply),
        RequestView::Prepend { key, value, noreply } => extend_bytes(key, value, noreply),
        RequestView::Cas { key, value, flags, expiry, cas, noreply } => swap_bytes(
            key,
            value,
            flags,
            expiry,
            cas,
            noreply,
        ),
        RequestView::Get { keys } => fetch_bytes(keys),
        RequestView::Gets { keys } => fetch_bytes(keys),
        RequestView::Delete { key, noreply } => delete_bytes(key, noreply),
        RequestView::Incr { key, value, noreply } => count_bytes(key, value, noreply),
        RequestView::Decr { key, value, noreply } => count_bytes(key, value, noreply),
        RequestView::Touch { key, expiry, noreply } => count_bytes(key, expiry as u64, noreply),
        RequestView::FlushAll { delay, noreply } => flush_bytes(delay, noreply),
        RequestView::Version => Seq::empty(),
    }
}

/// A command on the wire: its name, and what follows it.
pub open spec fn request_bytes(r: RequestView) -> Seq<u8> {
    utf8(r.verb().word()) + body_bytes(r)
}

// ---------------------------------------------------------------------------
// Reading

/// The command `set`, `add` or `replace` with these fields.
pub open spec fn stored(
    verb: Verb,
    key: Seq<char>,
    value: Seq<u8>,
    flags: u16,
    expiry: u32,
    noreply: bool,
) -> RequestView {
    match verb {
        Verb::Put => RequestView::Put { key, value, flags, expiry, noreply },
        Verb::Add => RequestView::Add { key, value, flags, expiry, noreply },
        _ => RequestView::Replace { key, value, flags, expiry, noreply },
    }
}

/// The command `append` or `prepend` with these fields.
pub open spec fn extended(verb: Verb, key: Seq<char>, value: Seq<u8>, noreply: bool) -> RequestView {
    match verb {
        Verb::Append => RequestView::Append { key, value, noreply },
        _ => RequestView::Prepend { key, value, noreply },
    }
}

/// The command `gets` or `get` with these keys.
pub open spec fn fetched(verb: Verb, keys: Seq<Seq<char>>) -> RequestView {
    match verb {
        Verb::Gets => RequestView::Gets { keys },
        _ => RequestView::Get { keys },
    }
}

/// The command `incr`, `decr` or `touch` with these fields.
pub open spec fn counted(verb: Verb, key: Seq<char>, n: u64, noreply: bool) -> RequestView {
    match verb {
        Verb::Incr => RequestView::Incr { key, value: n, noreply },
        Verb::Decr => RequestView::Decr { key, value: n, noreply },
        _ => RequestView::Touch { key, expiry: n as u32, noreply },
    }
}

/// The largest number that `incr`, `decr` or `touch` takes: `touch` takes a
/// time of 32 bits, the others a 64-bit amount.
pub open spec fn count_max(verb: Verb) -> u64 {
    if verb == Verb::Touch {
        u32::MAX as u64
    } else {
        u64::MAX
    }
}

/// Reading what follows `set `, `add ` or `replace `.
#[verifier::opaque]
pub open spec fn store(s: Seq<u8>, verb: Verb) -> Scan<RequestView> {
    let key = key(s);
    let flags = spaced(key.rest(), u16::MAX as u64);
    let expiry = spaced(flags.rest(), u32::MAX as u64);
    let len = spaced(expiry.rest(), u32::MAX as u64);
    let quiet = noreply(len.rest());
    let data = block(quiet.rest(), len.value() as nat);
    key.and(flags).and(expiry).and(len).and(quiet).and(data).and(
        Scan::Done(
            stored(
                verb,
                key.value(),
                data.value(),
                flags.value() as u16,
                expiry.value() as u32,
                quiet.value(),
            ),
            data.rest(),
        ),
    )
}

/// Reading what follows `append ` or `prepend `.
#[verifier::opaque]
pub open spec fn extend(s: Seq<u8>, verb: Verb) -> Scan<RequestView> {
    let key = key(s);
    let len = spaced(key.rest(), u32::MAX as u64);
    let quiet = noreply(len.rest());
    let data = block(quiet.rest(), len.value() as nat);
    key.and(len).and(quiet).and(data).and(
        Scan::Done(extended(verb, key.value(), data.value(), quiet.value()), data.rest()),
    )
}

/// Reading what follows `cas `.
#[verifier::opaque]
pub open spec fn swap(s: Seq<u8>) -> Scan<RequestView> {
    let key = key(s);
    let flags = spaced(key.rest(), u16::MAX as u64);
    let expiry = spaced(flags.rest(), u32::MAX as u64);
    let len = spaced(expiry.rest(), u32::MAX as u64);
    let cas = spaced(len.rest(), u64::MAX);
    let quiet = noreply(cas.rest());
    let data = block(quiet.rest(), len.value() as nat);
    key.and(flags).and(expiry).and(len).and(cas).and(quiet).and(data).and(
        Scan::Done(
            RequestView::Cas {
                key: key.value(),
                value: data.value(),
                flags: flags.value() as u16,
                expiry: expiry.value() as u32,
                cas: cas.value(),
                noreply: quiet.value(),
            },
            data.rest(),
        ),
    )
}

/// Reading keys, a space before each, for as long as there are any.
pub open spec fn keys(s: Seq<u8>) -> Scan<Seq<Seq<char>>>
    decreases s.len(),
{
    match tag(s, utf8(" "@)) {
        Scan::Done(_, rest) => match key(rest) {
            Scan::Done(k, rest) => if rest.len() < s.len() {
                match keys(rest) {
                    Scan::Done(more, rest) => Scan::Done(seq![k] + more, rest),
                    Scan::Incomplete => Scan::Incomplete,
                    Scan::Error => Scan::Error,
                }
            } else {
                Scan::Error
            },
            Scan::Incomplete => Scan::Incomplete,
            Scan::Error => Scan::Done(Seq::empty(), s),
        },
        Scan::Incomplete => Scan::Incomplete,
        Scan::Error => Scan::Done(Seq::empty(), s),
    }
}

/// Reading what follows `get` or `gets`.
#[verifier::opaque]
pub open spec fn fetch(s: Seq<u8>, verb: Verb) -> Scan<RequestView> {
    let keys = keys(s);
    let end = tag(keys.rest(), utf8("\r\n"@));
    keys.and(end).and(Scan::Done(fetched(verb, keys.value()), end.rest()))
}

/// Reading what follows `delete `.
#[verifier::opaque]
pub open spec fn delete(s: Seq<u8>) -> Scan<RequestView> {
    let key = key(s);
    let quiet = noreply(key.rest());
    let end = tag(quiet.rest(), utf8("\r\n"@));
    key.and(quiet).and(end).and(
        Scan::Done(RequestView::Delete { key: key.value(), noreply: quiet.value() }, end.rest()),
    )
}

/// Reading what follows `incr `, `decr ` or `touch `.
#[verifier::opaque]
pub open spec fn count(s: Seq<u8>, verb: Verb) -> Scan<RequestView> {
    let key = key(s);
    let n = spaced(key.rest(), count_max(verb));
    let quiet = noreply(n.rest());
    let end = tag(quiet.rest(), utf8("\r\n"@));
    key.and(n).and(quiet).and(end).and(
        Scan::Done(counted(verb, key.value(), n.value(), quiet.value()), end.rest()),
    )
}

/// A space, which may be missing.
pub open spec fn opt_space(s: Seq<u8>) -> Scan<()> {
    match tag(s, utf8(" "@)) {
        Scan::Done(_, rest) => Scan::Done((), rest),
        Scan::Incomplete => Scan::Incomplete,
        Scan::Error => Scan::Done((), s),
    }
}

/// Reading what follows `flush_all`. A line with neither a delay nor the flag
/// may hold a stray space before its end.
#[verifier::opaque]
pub open spec fn flush(s: Seq<u8>) -> Scan<RequestView> {
    let delay = opt_number(s, u32::MAX as u64);
    let quiet = noreply(delay.rest());
    let stray = if delay.value() is None && !quiet.value() {
        opt_space(quiet.rest())
    } else {
        Scan::Done((), quiet.rest())
    };
    let end = tag(stray.rest(), utf8("\r\n"@));
    delay.and(quiet).and(stray).and(end).and(
        Scan::Done(
            RequestView::FlushAll { delay: narrow(delay.value()), noreply: quiet.value() },
            end.rest(),
        ),
    )
}

/// Reading what follows the name of a command.
pub open spec fn body(s: Seq<u8>, verb: Verb) -> Scan<RequestView> {
    match verb {
        Verb::Put | Verb::Add | Verb::Replace => store(s, verb),
        Verb::Append | Verb::Prepend => extend(s, verb),
        Verb::Cas => swap(s),
        Verb::Gets | Verb::Get => fetch(s, verb),
        Verb::Delete => delete(s),
        Verb::Incr | Verb::Decr | Verb::Touch => count(s, verb),
        Verb::FlushAll => flush(s),
        Verb::Version => Scan::Done(RequestView::Version, s),
    }
}

/// Reading a command whose name is tried from place `from` on: the first
/// name that the input does not rule out decides.
pub open spec fn choice(s: Seq<u8>, from: int) -> Scan<RequestView>
    decreases VERBS - from,
{
    if from < 0 || from >= VERBS {
        Scan::Error
    } else {
        match tag(s, utf8(Verb::nth(from).word())) {
            Scan::Done(_, rest) => body(rest, Verb::nth(from)),
            Scan::Incomplete => Scan::Incomplete,
            Scan::Error => choice(s, from + 1),
        }
    }
}

/// Reading a command from the front of `s`.
pub open spec fn parse_request(s: Seq<u8>) -> Scan<RequestView> {
    choice(s, 0)
}

/// `front`, and then the keys that `scan` found.
pub open spec fn led(front: Seq<Seq<char>>, scan: Scan<Seq<Seq<char>>>) -> Scan<Seq<Seq<char>>> {
    match scan {
        Scan::Done(more, rest) => Scan::Done(front + more, rest),
        Scan::Incomplete => Scan::Incomplete,
        Scan::Error => Scan::Error,
    }
}

// ---------------------------------------------------------------------------
// Writing to a buffer

/// Appends what follows `set `, `add ` and `replace ` to `buf`.
pub fn push_store(
    buf: &mut Vec<u8>,
    key: &String,
    value: &Vec<u8>,
    flags: u16,
    expiry: u32,
    quiet: bool,
)
    ensures
        final(buf)@ == old(buf)@ + store_bytes(key@, value@, flags, expiry, quiet),
{
    push_text(buf, key.as_str());
    push_field(buf, flags as u64);
    push_field(buf, expiry as u64);
    push_field(buf, value.len() as u64);
    push_noreply(buf, quiet);
    push_block(buf, value.as_slice());
    proof {
        lemma_join7(
            old(buf)@,
            utf8(key@),
            field_bytes(flags as nat),
            field_bytes(expiry as nat),
            field_bytes(value@.len()),
            noreply_bytes(quiet),
            block_bytes(value@),
        );
    }
}

/// Appends what follows `append ` and `prepend ` to `buf`.
pub fn push_extend(buf: &mut Vec<u8>, key: &String, value: &Vec<u8>, quiet: bool)
    ensures
        final(buf)@ == old(buf)@ + extend_bytes(key@, value@, quiet),
{
    push_text(buf, key.as_str());
    push_field(buf, value.len() as u64);
    push_noreply(buf, quiet);
    push_block(buf, value.as_slice());
    proof {
        lemma_join5(
            old(buf)@,
            utf8(key@),
            field_bytes(value@.len()),
            noreply_bytes(quiet),
            block_bytes(value@),
        );
    }
}

/// Appends what follows `cas ` to `buf`.
pub fn push_swap(
    buf: &mut Vec<u8>,
    key: &String,
    value: &Vec<u8>,
    flags: u16,
    expiry: u32,
    cas: u64,
    quiet: bool,
)
    ensures
        final(buf)@ == old(buf)@ + swap_bytes(key@, value@, flags, expiry, cas, quiet),
{
    push_text(buf, key.as_str());
    push_field(buf, flags as u64);
    push_field(buf, expiry as u64);
    push_field(buf, value.len() as u64);
    push_field(buf, cas);
    push_noreply(buf, quiet);
    push_block(buf, value.as_slice());
    proof {
        lemma_join8(
            old(buf)@,
            utf8(key@),
            field_bytes(flags as nat),
            field_bytes(expiry as nat),
            field_bytes(value@.len()),
            field_bytes(cas as nat),
            noreply_bytes(quiet),
            block_bytes(value@),
        );
    }
}

/// Appends what follows `get` and `gets` to `buf`.
pub fn push_fetch(buf: &mut Vec<u8>, keys: &Vec<String>)
    ensures
        final(buf)@ == old(buf)@ + fetch_bytes(key_views(keys@)),
{
    let ghost all = key_views(keys@);
    let mut i: usize = 0;
    assert(all.skip(0) =~= all);
    while i < keys.len()
        invariant
            i <= keys.len(),
            all == key_views(keys@),
            buf@ + keys_bytes(all.skip(i as int)) == old(buf)@ + keys_bytes(all),
        decreases keys.len() - i,
    {
        let ghost before = buf@;
        push_text(buf, " ");
        push_text(buf, keys[i].as_str());
        proof {
            let left = all.skip(i as int);
            assert(left[0] == keys@[i as int]@);
            assert(left.drop_first() =~= all.skip(i + 1));
            lemma_join4(before, utf8(" "@), utf8(left[0]), keys_bytes(left.drop_first()));
            lemma_join3(utf8(" "@), utf8(left[0]), keys_bytes(left.drop_first()));
        }
        i += 1;
    }
    proof {
        assert(all.skip(keys@.len() as int) =~= Seq::<Seq<char>>::empty());
        assert(buf@ + Seq::<u8>::empty() =~= buf@);
    }
    push_text(buf, "\r\n");
    proof {
        lemma_join3(old(buf)@, keys_bytes(all), utf8("\r\n"@));
    }
}

/// Appends what follows `delete ` to `buf`.
pub fn push_delete(buf: &mut Vec<u8>, key: &String, quiet: bool)
    ensures
        final(buf)@ == old(buf)@ + delete_bytes(key@, quiet),
{
    push_text(buf, key.as_str());
    push_noreply(buf, quiet);
    push_text(buf, "\r\n");
    proof {
        lemma_join4(old(buf)@, utf8(key@), noreply_bytes(quiet), utf8("\r\n"@));
    }
}

/// Appends what follows `incr `, `decr ` and `touch ` to `buf`.
pub fn push_count(buf: &mut Vec<u8>, key: &String, n: u64, quiet: bool)
    ensures
        final(buf)@ == old(buf)@ + count_bytes(key@, n, quiet),
{
    push_text(buf, key.as_str());
    push_field(buf, n);
    push_noreply(buf, quiet);
    push_text(buf, "\r\n");
    proof {
        lemma_join5(
            old(buf)@,
            utf8(key@),
            field_bytes(n as nat),
            noreply_bytes(quiet),
            utf8("\r\n"@),
        );
    }
}

/// Appends what follows `flush_all` to `buf`.
pub fn push_flush(buf: &mut Vec<u8>, delay: Option<u32>, quiet: bool)
    ensures
        final(buf)@ == old(buf)@ + flush_bytes(delay, quiet),
{
    let delay: Option<u64> = match delay {
        Some(d) => Some(d as u64),
        None => None,
    };
    push_opt_number(buf, delay);
    push_noreply(buf, quiet);
    push_text(buf, "\r\n");
    proof {
        lemma_join4(old(buf)@, opt_number_bytes(delay), noreply_bytes(quiet), utf8("\r\n"@));
    }
}

/// Whether each of `keys` can be sent.
pub fn check_all(keys: &Vec<String>) -> (r: Result<(), BuildError>)
    ensures
        r == check_keys(key_views(keys@)),
{
    let mut i: usize = 0;
    while i < keys.len()
        invariant
            i <= keys.len(),
            forall|k: int| 0 <= k < i ==> key_ok(#[trigger] key_views(keys@)[k]),
        decreases keys.len() - i,
    {
        if !check_key(&keys[i]) {
            assert(!key_ok(key_views(keys@)[i as int]));
            return Err(BuildError::BadKey);
        }
        i += 1;
    }
    Ok(())
}

/// Why a key and its payload cannot be written, if they cannot.
pub fn check_pair(key: &String, value: &Vec<u8>) -> (r: Result<(), BuildError>)
    ensures
        r == check_stored(key@, value@),
{
    if !check_key(key) {
        Err(BuildError::BadKey)
    } else if value.len() > u32::MAX as usize {
        Err(BuildError::PayloadTooLong)
    } else {
        Ok(())
    }
}

/// Whether the one key of a command can be sent.
pub fn check_one(key: &String) -> (r: Result<(), BuildError>)
    ensures
        r == check_keys(seq![key@]),
{
    if check_key(key) {
        Ok(())
    } else {
        assert(!key_ok(seq![key@][0]));
        Err(BuildError::BadKey)
    }
}

impl Request {
    /// The name of this command.
    pub fn verb(&self) -> (verb: Verb)
        ensures
            verb == self@.verb(),
    {
        match self {
            Request::Put { .. } => Verb::Put,
            Request::Add { .. } => Verb::Add,
            Request::Replace { .. } => Verb::Replace,
            Request::Append { .. } => Verb::Append,
            Request::Prepend { .. } => Verb::Prepend,
            Request::Cas { .. } => Verb::Cas,
            Request::Gets { .. } => Verb::Gets,
            Request::Get { .. } => Verb::Get,
            Request::Delete { .. } => Verb::Delete,
            Request::Incr { .. } => Verb::Incr,
            Request::Decr { .. } => Verb::Decr,
            Request::Touch { .. } => Verb::Touch,
            Request::FlushAll { .. } => Verb::FlushAll,
            Request::Version => Verb::Version,
        }
    }

    /// Whether this command asks the server to send nothing back.
    pub fn noreply(&self) -> (quiet: bool)
        ensures
            quiet == self@.noreply(),
    {
        match self {
            Request::Put { noreply, .. } => *noreply,
            Request::Add { noreply, .. } => *noreply,
            Request::Replace { noreply, .. } => *noreply,
            Request::Append { noreply, .. } => *noreply,
            Request::Prepend { noreply, .. } => *noreply,
            Request::Cas { noreply, .. } => *noreply,
            Request::Get { .. } => false,
            Request::Gets { .. } => false,
            Request::Delete { noreply, .. } => *noreply,
            Request::Incr { noreply, .. } => *noreply,
            Request::Decr { noreply, .. } => *noreply,
            Request::Touch { noreply, .. } => *noreply,
            Request::FlushAll { noreply, .. } => *noreply,
            Request::Version => false,
        }
    }

    /// The length of the payload of this command, where it carries one.
    pub fn payload_len(&self) -> (len: Option<usize>)
        ensures
            match self@.payload_len() {
                Some(n) => len == Some(n as usize) && n <= usize::MAX,
                None => len is None,
            },
    {
        match self {
            Request::Put { value, .. } => Some(value.len()),
            Request::Add { value, .. } => Some(value.len()),
            Request::Replace { value, .. } => Some(value.len()),
            Request::Append { value, .. } => Some(value.len()),
            Request::Prepend { value, .. } => Some(value.len()),
            Request::Cas { value, .. } => Some(value.len()),
            _ => None,
        }
    }

    /// Why this command cannot be written, if it cannot.
    pub fn check(&self) -> (r: Result<(), BuildError>)
        ensures
            r == self@.check(),
    {
        match self {
            Request::Put { key, value, .. } => check_pair(key, value),
            Request::Add { key, value, .. } => check_pair(key, value),
            Request::Replace { key, value, .. } => check_pair(key, value),
            Request::Append { key, value, .. } => check_pair(key, value),
            Request::Prepend { key, value, .. } => check_pair(key, value),
            Request::Cas { key, value, .. } => check_pair(key, value),
            Request::Get { keys } => check_all(keys),
            Request::Gets { keys } => check_all(keys),
            Request::Delete { key, .. } => check_one(key),
            Request::Incr { key, .. } => check_one(key),
            Request::Decr { key, .. } => check_one(key),
            Request::Touch { key, .. } => check_one(key),
            Request::FlushAll { .. } => Ok(()),
            Request::Version => Ok(()),
        }
    }

    /// Appends this command to `buf` as it stands on the wire. A command that
    /// cannot be written is refused, and `buf` stays as it was.
    pub fn build(&self, buf: &mut Vec<u8>) -> (r: Result<(), BuildError>)
        ensures
            r == self@.check(),
            r is Ok ==> final(buf)@ == old(buf)@ + request_bytes(self@),
            r is Err ==> final(buf)@ == old(buf)@,
    {
        self.check()?;
        push_text(buf, self.verb().text());
        match self {
            Request::Put { key, value, flags, expiry, noreply } => push_store(
                buf,
                key,
                value,
                *flags,
                *expiry,
                *noreply,
            ),
            Request::Add { key, value, flags, expiry, noreply } => push_store(
                buf,
                key,
                value,
                *flags,
                *expiry,
                *noreply,
            ),
            Request::Replace { key, value, flags, expiry, noreply } => push_store(
                buf,
                key,
                value,
                *flags,
                *expiry,
                *noreply,
            ),
            Request::Append { key, value, noreply } => push_extend(buf, key, value, *noreply),
            Request::Prepend { key, value, noreply } => push_extend(buf, key, value, *noreply),
            Request::Cas { key, value, flags, expiry, cas, noreply } => push_swap(
                buf,
                key,
                value,
                *flags,
                *expiry,
                *cas,
                *noreply,
            ),
            Request::Get { keys } => push_fetch(buf, keys),
            Request::Gets { keys } => push_fetch(buf, keys),
            Request::Delete { key, noreply } => push_delete(buf, key, *noreply),
            Request::Incr { key, value, noreply } => push_count(buf, key, *value, *noreply),
            Request::Decr { key, value, noreply } => push_count(buf, key, *value, *noreply),
            Request::Touch { key, expiry, noreply } => push_count(
                buf,
                key,
                *expiry as u64,
                *noreply,
            ),
            Request::FlushAll { delay, noreply } => push_flush(buf, *delay, *noreply),
            Request::Version => {
                assert(buf@ + Seq::<u8>::empty() =~= buf@);
            },
        }
        proof {
            lemma_join3(old(buf)@, utf8(self@.verb().word()), body_bytes(self@));
        }
        Ok(())
    }
}

impl Request {
    /// Appends this command to `buf` as a client sends it. A command that
    /// cannot be written, or whose first line is longer than 256 bytes, is
    /// refused, and `buf` stays as it was.
    pub fn send(&self, buf: &mut Vec<u8>) -> (r: Result<(), BuildError>)
        ensures
            r == self@.sendable(),
            r is Ok ==> final(buf)@ == old(buf)@ + request_bytes(self@),
            r is Err ==> final(buf)@ == old(buf)@,
    {
        let start = buf.len();
        self.build(buf)?;
        proof {
            lemma_line_len(self@);
        }
        let written = buf.len() - start;
        let line = match self.payload_len() {
            Some(len) => written - len - 2,
            None => written,
        };
        if line > LINE_MAX {
            buf.truncate(start);
            assert(buf@ =~= old(buf)@);
            Err(BuildError::LineTooLong)
        } else {
            Ok(())
        }
    }

    /// Why a client cannot send this command, if it cannot.
    pub fn sendable(&self) -> (r: Result<(), BuildError>)
        ensures
            r == self@.sendable(),
    {
        let mut scratch: Vec<u8> = Vec::new();
        self.send(&mut scratch)
    }
}

// ---------------------------------------------------------------------------
// Reading from a buffer

/// Reads what follows `set `, `add ` or `replace ` at `pos`.
pub fn read_store(buf: &[u8], pos: usize, verb: Verb) -> (r: Result<(Request, usize), Halt>)
    requires
        pos <= buf.len(),
    ensures
        reads(r, buf@) == store(buf@.skip(pos as int), verb),
        r matches Ok((_, next)) ==> pos <= next <= buf.len(),
{
    proof {
        reveal(store);
    }
    let (key, p) = read_key(buf, pos)?;
    let (flags, p) = read_spaced(buf, p, u16::MAX as u64)?;
    let (expiry, p) = read_spaced(buf, p, u32::MAX as u64)?;
    let (len, p) = read_spaced(buf, p, u32::MAX as u64)?;
    let (noreply, p) = read_noreply(buf, p)?;
    let (value, p) = read_block(buf, p, len as usize)?;
    let flags = flags as u16;
    let expiry = expiry as u32;
    Ok(
        (
            match verb {
                Verb::Put => Request::Put { key, value, flags, expiry, noreply },
                Verb::Add => Request::Add { key, value, flags, expiry, noreply },
                _ => Request::Replace { key, value, flags, expiry, noreply },
            },
            p,
        ),
    )
}

/// Reads what follows `append ` or `prepend ` at `pos`.
pub fn read_extend(buf: &[u8], pos: usize, verb: Verb) -> (r: Result<(Request, usize), Halt>)
    requires
        pos <= buf.len(),
    ensures
        reads(r, buf@) == extend(buf@.skip(pos as int), verb),
        r matches Ok((_, next)) ==> pos <= next <= buf.len(),
{
    proof {
        reveal(extend);
    }
    let (key, p) = read_key(buf, pos)?;
    let (len, p) = read_spaced(buf, p, u32::MAX as u64)?;
    let (noreply, p) = read_noreply(buf, p)?;
    let (value, p) = read_block(buf, p, len as usize)?;
    Ok(
        (
            match verb {
                Verb::Append => Request::Append { key, value, noreply },
                _ => Request::Prepend { key, value, noreply },
            },
            p,
        ),
    )
}

/// Reads what follows `cas ` at `pos`.
pub fn read_swap(buf: &[u8], pos: usize) -> (r: Result<(Request, usize), Halt>)
    requires
        pos <= buf.len(),
    ensures
        reads(r, buf@) == swap(buf@.skip(pos as int)),
        r matches Ok((_, next)) ==> pos <= next <= buf.len(),
{
    proof {
        reveal(swap);
    }
    let (key, p) = read_key(buf, pos)?;
    let (flags, p) = read_spaced(buf, p, u16::MAX as u64)?;
    let (expiry, p) = read_spaced(buf, p, u32::MAX as u64)?;
    let (len, p) = read_spaced(buf, p, u32::MAX as u64)?;
    let (cas, p) = read_spaced(buf, p, u64::MAX)?;
    let (noreply, p) = read_noreply(buf, p)?;
    let (value, p) = read_block(buf, p, len as usize)?;
    Ok((Request::Cas { key, value, flags: flags as u16, expiry: expiry as u32, cas, noreply }, p))
}

/// Reads keys at `pos`, a space before each, for as long as there are any.
pub fn read_keys(buf: &[u8], pos: usize) -> (r: Result<(Vec<String>, usize), Halt>)
    requires
        pos <= buf.len(),
    ensures
        match r {
            Ok((found, next)) => keys(buf@.skip(pos as int)) == Scan::Done(
                key_views(found@),
                buf@.skip(next as int),
            ) && pos <= next <= buf.len(),
            Err(Halt::Incomplete) => keys(buf@.skip(pos as int)) is Incomplete,
            Err(Halt::Error) => keys(buf@.skip(pos as int)) is Error,
        },
{
    let mut found: Vec<String> = Vec::new();
    let mut at: usize = pos;
    proof {
        assert(key_views(found@) =~= Seq::<Seq<char>>::empty());
        lemma_led_nothing(keys(buf@.skip(pos as int)));
    }
    loop
        invariant
            pos <= at <= buf.len(),
            keys(buf@.skip(pos as int)) == led(key_views(found@), keys(buf@.skip(at as int))),
        decreases buf.len() - at,
    {
        let ghost front = key_views(found@);
        proof {
            lemma_space();
            assert(front + Seq::<Seq<char>>::empty() =~= front);
        }
        match read_tag(buf, at, " ") {
            Err(Halt::Incomplete) => {
                return Err(Halt::Incomplete);
            },
            Err(Halt::Error) => {
                return Ok((found, at));
            },
            Ok((_, p)) => match read_key(buf, p) {
                Err(Halt::Incomplete) => {
                    return Err(Halt::Incomplete);
                },
                Err(Halt::Error) => {
                    return Ok((found, at));
                },
                Ok((k, next)) => {
                    proof {
                        let more = keys(buf@.skip(next as int));
                        assert(key_views(found@.push(k)) =~= front.push(k@));
                        if more is Done {
                            assert(front + (seq![k@] + more.value()) =~= front.push(k@)
                                + more.value());
                        }
                    }
                    found.push(k);
                    at = next;
                },
            },
        }
    }
}

/// Reads what follows `get` or `gets` at `pos`.
pub fn read_fetch(buf: &[u8], pos: usize, verb: Verb) -> (r: Result<(Request, usize), Halt>)
    requires
        pos <= buf.len(),
    ensures
        reads(r, buf@) == fetch(buf@.skip(pos as int), verb),
        r matches Ok((_, next)) ==> pos <= next <= buf.len(),
{
    proof {
        reveal(fetch);
    }
    let (keys, p) = read_keys(buf, pos)?;
    let (_, p) = read_tag(buf, p, "\r\n")?;
    Ok(
        (
            match verb {
                Verb::Gets => Request::Gets { keys },
                _ => Request::Get { keys },
            },
            p,
        ),
    )
}

/// Reads what follows `delete ` at `pos`.
pub fn read_delete(buf: &[u8], pos: usize) -> (r: Result<(Request, usize), Halt>)
    requires
        pos <= buf.len(),
    ensures
        reads(r, buf@) == delete(buf@.skip(pos as int)),
        r matches Ok((_, next)) ==> pos <= next <= buf.len(),
{
    proof {
        reveal(delete);
    }
    let (key, p) = read_key(buf, pos)?;
    let (noreply, p) = read_noreply(buf, p)?;
    let (_, p) = read_tag(buf, p, "\r\n")?;
    Ok((Request::Delete { key, noreply }, p))
}

/// Reads what follows `incr `, `decr ` or `touch ` at `pos`.
pub fn read_count(buf: &[u8], pos: usize, verb: Verb) -> (r: Result<(Request, usize), Halt>)
    requires
        pos <= buf.len(),
    ensures
        reads(r, buf@) == count(buf@.skip(pos as int), verb),
        r matches Ok((_, next)) ==> pos <= next <= buf.len(),
{
    proof {
        reveal(count);
    }
    let max: u64 = match verb {
        Verb::Touch => u32::MAX as u64,
        _ => u64::MAX,
    };
    let (key, p) = read_key(buf, pos)?;
    let (n, p) = read_spaced(buf, p, max)?;
    let (noreply, p) = read_noreply(buf, p)?;
    let (_, p) = read_tag(buf, p, "\r\n")?;
    Ok(
        (
            match verb {
                Verb::Incr => Request::Incr { key, value: n, noreply },
                Verb::Decr => Request::Decr { key, value: n, noreply },
                _ => Request::Touch { key, expiry: n as u32, noreply },
            },
            p,
        ),
    )
}

/// Reads a space at `pos`, where there is one.
pub fn read_opt_space(buf: &[u8], pos: usize) -> (r: Result<((), usize), Halt>)
    requires
        pos <= buf.len(),
    ensures
        reads(r, buf@) == opt_space(buf@.skip(pos as int)),
        r matches Ok((_, next)) ==> pos <= next <= buf.len(),
{
    match read_tag(buf, pos, " ") {
        Ok((_, next)) => Ok(((), next)),
        Err(Halt::Incomplete) => Err(Halt::Incomplete),
        Err(Halt::Error) => Ok(((), pos)),
    }
}

/// Reads what follows `flush_all` at `pos`.
pub fn read_flush(buf: &[u8], pos: usize) -> (r: Result<(Request, usize), Halt>)
    requires
        pos <= buf.len(),
    ensures
        reads(r, buf@) == flush(buf@.skip(pos as int)),
        r matches Ok((_, next)) ==> pos <= next <= buf.len(),
{
    proof {
        reveal(flush);
    }
    let (delay, p) = read_opt_number(buf, pos, u32::MAX as u64)?;
    let (noreply, p) = read_noreply(buf, p)?;
    let (_, p) = if delay.is_none() && !noreply {
        read_opt_space(buf, p)?
    } else {
        ((), p)
    };
    let (_, p) = read_tag(buf, p, "\r\n")?;
    let delay: Option<u32> = match delay {
        Some(d) => Some(d as u32),
        None => None,
    };
    Ok((Request::FlushAll { delay, noreply }, p))
}

/// Reads what follows the name of a command at `pos`.
pub fn read_body(buf: &[u8], pos: usize, verb: Verb) -> (r: Result<(Request, usize), Halt>)
    requires
        pos <= buf.len(),
    ensures
        reads(r, buf@) == body(buf@.skip(pos as int), verb),
        r matches Ok((_, next)) ==> pos <= next <= buf.len(),
{
    match verb {
        Verb::Put | Verb::Add | Verb::Replace => read_store(buf, pos, verb),
        Verb::Append | Verb::Prepend => read_extend(buf, pos, verb),
        Verb::Cas => read_swap(buf, pos),
        Verb::Gets | Verb::Get => read_fetch(buf, pos, verb),
        Verb::Delete => read_delete(buf, pos),
        Verb::Incr | Verb::Decr | Verb::Touch => read_count(buf, pos, verb),
        Verb::FlushAll => read_flush(buf, pos),
        Verb::Version => Ok((Request::Version, pos)),
    }
}

/// Reads a command at `pos`.
pub fn read_request(buf: &[u8], pos: usize) -> (r: Result<(Request, usize), Halt>)
    requires
        pos <= buf.len(),
    ensures
        reads(r, buf@) == parse_request(buf@.skip(pos as int)),
        r matches Ok((_, next)) ==> pos <= next <= buf.len(),
{
    let mut i: usize = 0;
    while i < VERBS
        invariant
            i <= VERBS,
            pos <= buf.len(),
            parse_request(buf@.skip(pos as int)) == choice(buf@.skip(pos as int), i as int),
        decreases VERBS - i,
    {
        let verb = Verb::at(i);
        match read_tag(buf, pos, verb.text()) {
            Ok((_, next)) => {
                return read_body(buf, next, verb);
            },
            Err(Halt::Incomplete) => {
                return Err(Halt::Incomplete);
            },
            Err(Halt::Error) => {},
        }
        i += 1;
    }
    Err(Halt::Error)
}

impl Request {
    /// Reads one command from the front of `buf`.
    pub fn parse(buf: &[u8]) -> (r: Parsed<Request>)
        ensures
            r.scan(buf@) == parse_request(buf@),
            r matches Parsed::Done(_, used) ==> used <= buf.len(),
    {
        assert(buf@.skip(0) =~= buf@);
        parsed(read_request(buf, 0))
    }
}

/// Keys led by none are the keys.
pub proof fn lemma_led_nothing(scan: Scan<Seq<Seq<char>>>)
    ensures
        led(Seq::empty(), scan) == scan,
{
    if scan is Done {
        assert(Seq::<Seq<char>>::empty() + scan.value() =~= scan.value());
    }
}

} // verus!
