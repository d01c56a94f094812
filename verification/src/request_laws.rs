//! Commands, written and read: what is written is read back, and what is
//! read from an input that was cut short is what is read from the whole
//! input, or a call for more bytes.

use crate::request::{body, body_bytes, choice, count, count_bytes, count_max, counted, delete,
    delete_bytes, extend, extend_bytes, extended, fetch, fetch_bytes, fetched, flush, flush_bytes,
    keys, keys_bytes, keys_ok, opt_space, parse_request, request_bytes, store, store_bytes,
    stored, swap, swap_bytes, wide, RequestView, Verb, VERBS};
use crate::scan::{block_bytes, cut_of, field_bytes, key, lemma_block_cut, lemma_block_reads,
    lemma_crlf, lemma_join3, lemma_join4, lemma_join5, lemma_join7, lemma_join8, lemma_key_cut,
    lemma_key_reads, lemma_noreply_cut, lemma_noreply_reads, lemma_opt_number_cut,
    lemma_opt_number_reads, lemma_run, lemma_space, lemma_spaced_cut, lemma_spaced_reads,
    lemma_starts, lemma_tag_cut, lemma_tag_fails, lemma_tag_reads, noreply, noreply_bytes,
    opt_number, opt_number_bytes, spaced, tag, Class, Scan};
use crate::text::{is_key_byte, key_ok, lemma_word, utf8};
use vstd::prelude::*;

verus! {

// ---------------------------------------------------------------------------
// What was written is read back

/// What follows `set `, `add ` or `replace ` is read back as it was written.
pub proof fn lemma_store_reads(
    verb: Verb,
    key: Seq<char>,
    value: Seq<u8>,
    flags: u16,
    expiry: u32,
    quiet: bool,
    rest: Seq<u8>,
)
    requires
        key_ok(key),
        value.len() <= u32::MAX,
    ensures
        store(store_bytes(key, value, flags, expiry, quiet) + rest, verb) == Scan::Done(
            stored(verb, key, value, flags, expiry, quiet),
            rest,
        ),
{
    reveal(store);
    let len = value.len() as u64;
    let t5 = block_bytes(value) + rest;
    let t4 = noreply_bytes(quiet) + t5;
    let t3 = field_bytes(len as nat) + t4;
    let t2 = field_bytes(expiry as nat) + t3;
    let t1 = field_bytes(flags as nat) + t2;
    lemma_join7(
        utf8(key),
        field_bytes(flags as nat),
        field_bytes(expiry as nat),
        field_bytes(len as nat),
        noreply_bytes(quiet),
        block_bytes(value),
        rest,
    );
    lemma_starts(flags as nat, None, quiet, value, t2);
    lemma_starts(expiry as nat, None, quiet, value, t3);
    lemma_starts(len as nat, None, quiet, value, t4);
    lemma_starts(0, None, quiet, value, rest);
    lemma_starts(0, None, quiet, value, t5);
    lemma_key_reads(key, t1);
    lemma_spaced_reads(flags as u64, u16::MAX as u64, t2);
    lemma_spaced_reads(expiry as u64, u32::MAX as u64, t3);
    lemma_spaced_reads(len, u32::MAX as u64, t4);
    lemma_noreply_reads(quiet, t5);
    lemma_block_reads(value, rest);
}

/// What follows `append ` or `prepend ` is read back as it was written.
pub proof fn lemma_extend_reads(
    verb: Verb,
    key: Seq<char>,
    value: Seq<u8>,
    quiet: bool,
    rest: Seq<u8>,
)
    requires
        key_ok(key),
        value.len() <= u32::MAX,
    ensures
        extend(extend_bytes(key, value, quiet) + rest, verb) == Scan::Done(
            extended(verb, key, value, quiet),
            rest,
        ),
{
    reveal(extend);
    let len = value.len() as u64;
    let t3 = block_bytes(value) + rest;
    let t2 = noreply_bytes(quiet) + t3;
    let t1 = field_bytes(len as nat) + t2;
    lemma_join5(utf8(key), field_bytes(len as nat), noreply_bytes(quiet), block_bytes(value), rest);
    lemma_starts(len as nat, None, quiet, value, t2);
    lemma_starts(0, None, quiet, value, rest);
    lemma_starts(0, None, quiet, value, t3);
    lemma_key_reads(key, t1);
    lemma_spaced_reads(len, u32::MAX as u64, t2);
    lemma_noreply_reads(quiet, t3);
    lemma_block_reads(value, rest);
}

/// What follows `cas ` is read back as it was written.
pub proof fn lemma_swap_reads(
    key: Seq<char>,
    value: Seq<u8>,
    flags: u16,
    expiry: u32,
    cas: u64,
    quiet: bool,
    rest: Seq<u8>,
)
    requires
        key_ok(key),
        value.len() <= u32::MAX,
    ensures
        swap(swap_bytes(key, value, flags, expiry, cas, quiet) + rest) == Scan::Done(
            RequestView::Cas { key, value, flags, expiry, cas, noreply: quiet },
            rest,
        ),
{
    reveal(swap);
    let len = value.len() as u64;
    let t6 = block_bytes(value) + rest;
    let t5 = noreply_bytes(quiet) + t6;
    let t4 = field_bytes(cas as nat) + t5;
    let t3 = field_bytes(len as nat) + t4;
    let t2 = field_bytes(expiry as nat) + t3;
    let t1 = field_bytes(flags as nat) + t2;
    lemma_join8(
        utf8(key),
        field_bytes(flags as nat),
        field_bytes(expiry as nat),
        field_bytes(len as nat),
        field_bytes(cas as nat),
        noreply_bytes(quiet),
        block_bytes(value),
        rest,
    );
    lemma_starts(flags as nat, None, quiet, value, t2);
    lemma_starts(expiry as nat, None, quiet, value, t3);
    lemma_starts(len as nat, None, quiet, value, t4);
    lemma_starts(cas as nat, None, quiet, value, t5);
    lemma_starts(0, None, quiet, value, rest);
    lemma_starts(0, None, quiet, value, t6);
    lemma_key_reads(key, t1);
    lemma_spaced_reads(flags as u64, u16::MAX as u64, t2);
    lemma_spaced_reads(expiry as u64, u32::MAX as u64, t3);
    lemma_spaced_reads(len, u32::MAX as u64, t4);
    lemma_spaced_reads(cas, u64::MAX, t5);
    lemma_noreply_reads(quiet, t6);
    lemma_block_reads(value, rest);
}

/// Keys are read back as they were written, where the end of the line
/// follows.
pub proof fn lemma_keys_read(all: Seq<Seq<char>>, rest: Seq<u8>)
    requires
        keys_ok(all),
        rest.len() > 0,
        rest[0] == 0x0d,
    ensures
        keys(keys_bytes(all) + rest) == Scan::Done(all, rest),
    decreases all.len(),
{
    let space = utf8(" "@);
    lemma_space();
    if all.len() == 0 {
        assert(keys_bytes(all) + rest =~= rest);
        assert(all =~= Seq::<Seq<char>>::empty());
        lemma_tag_fails(rest, space, 0);
    } else {
        let more = all.drop_first();
        let after = keys_bytes(more) + rest;
        assert(keys_ok(more)) by {
            assert forall|i: int| 0 <= i < more.len() implies key_ok(#[trigger] more[i]) by {
                assert(more[i] == all[i + 1]);
            }
        }
        lemma_keys_read(more, rest);
        lemma_join4(space, utf8(all[0]), keys_bytes(more), rest);
        assert(after.len() > 0 && !is_key_byte(after[0])) by {
            if more.len() == 0 {
                assert(after =~= rest);
            } else {
                assert(after[0] == space[0]);
            }
        }
        lemma_tag_reads(space, utf8(all[0]) + after);
        lemma_key_reads(all[0], after);
        assert(seq![all[0]] + more =~= all);
        let s = keys_bytes(all) + rest;
        assert(s == space + (utf8(all[0]) + after));
        assert(tag(s, space) == Scan::Done((), utf8(all[0]) + after));
        assert(key(utf8(all[0]) + after) == Scan::Done(all[0], after));
        assert(after.len() < s.len());
    }
}

/// What follows `get` or `gets` is read back as it was written.
pub proof fn lemma_fetch_reads(verb: Verb, all: Seq<Seq<char>>, rest: Seq<u8>)
    requires
        keys_ok(all),
    ensures
        fetch(fetch_bytes(all) + rest, verb) == Scan::Done(fetched(verb, all), rest),
{
    reveal(fetch);
    let crlf = utf8("\r\n"@);
    lemma_crlf();
    lemma_join3(keys_bytes(all), crlf, rest);
    lemma_keys_read(all, crlf + rest);
    lemma_tag_reads(crlf, rest);
}

/// What follows `delete ` is read back as it was written.
pub proof fn lemma_delete_reads(key: Seq<char>, quiet: bool, rest: Seq<u8>)
    requires
        key_ok(key),
    ensures
        delete(delete_bytes(key, quiet) + rest) == Scan::Done(
            RequestView::Delete { key, noreply: quiet },
            rest,
        ),
{
    reveal(delete);
    let crlf = utf8("\r\n"@);
    let t2 = crlf + rest;
    let t1 = noreply_bytes(quiet) + t2;
    lemma_join4(utf8(key), noreply_bytes(quiet), crlf, rest);
    lemma_starts(0, None, quiet, Seq::empty(), rest);
    lemma_starts(0, None, quiet, Seq::empty(), t2);
    lemma_key_reads(key, t1);
    lemma_noreply_reads(quiet, t2);
    lemma_tag_reads(crlf, rest);
}

/// What follows `incr `, `decr ` or `touch ` is read back as it was written.
pub proof fn lemma_count_reads(verb: Verb, key: Seq<char>, n: u64, quiet: bool, rest: Seq<u8>)
    requires
        key_ok(key),
        n <= count_max(verb),
    ensures
        count(count_bytes(key, n, quiet) + rest, verb) == Scan::Done(
            counted(verb, key, n, quiet),
            rest,
        ),
{
    reveal(count);
    let crlf = utf8("\r\n"@);
    let t3 = crlf + rest;
    let t2 = noreply_bytes(quiet) + t3;
    let t1 = field_bytes(n as nat) + t2;
    lemma_join5(utf8(key), field_bytes(n as nat), noreply_bytes(quiet), crlf, rest);
    lemma_starts(n as nat, None, quiet, Seq::empty(), t2);
    lemma_starts(0, None, quiet, Seq::empty(), rest);
    lemma_starts(0, None, quiet, Seq::empty(), t3);
    lemma_key_reads(key, t1);
    lemma_spaced_reads(n, count_max(verb), t2);
    lemma_noreply_reads(quiet, t3);
    lemma_tag_reads(crlf, rest);
}

/// What follows `flush_all` is read back as it was written.
pub proof fn lemma_flush_reads(delay: Option<u32>, quiet: bool, rest: Seq<u8>)
    ensures
        flush(flush_bytes(delay, quiet) + rest) == Scan::Done(
            RequestView::FlushAll { delay, noreply: quiet },
            rest,
        ),
{
    reveal(flush);
    let crlf = utf8("\r\n"@);
    let t2 = crlf + rest;
    let t1 = noreply_bytes(quiet) + t2;
    lemma_join4(opt_number_bytes(wide(delay)), noreply_bytes(quiet), crlf, rest);
    lemma_starts(0, None, quiet, Seq::empty(), rest);
    lemma_starts(0, None, quiet, Seq::empty(), t2);
    lemma_space();
    lemma_opt_number_reads(wide(delay), u32::MAX as u64, t1);
    lemma_noreply_reads(quiet, t2);
    lemma_tag_fails(t2, utf8(" "@), 0);
    lemma_tag_reads(crlf, rest);
}

/// The bytes of the name of a command, as far as they tell the names apart.
pub proof fn lemma_name(verb: Verb)
    ensures
        3 <= utf8(verb.word()).len() <= 9,
        utf8(verb.word())[0] == first_byte(verb),
        verb == Verb::Add ==> utf8(verb.word())[1] == 0x64,
        verb == Verb::Append ==> utf8(verb.word())[1] == 0x70,
        verb == Verb::Delete ==> utf8(verb.word())[2] == 0x6c,
        verb == Verb::Decr ==> utf8(verb.word())[1] == 0x65 && utf8(verb.word())[2] == 0x63,
        verb == Verb::Gets ==> utf8(verb.word()).len() == 4 && utf8(verb.word())[3] == 0x73,
        verb == Verb::Get ==> utf8(verb.word()).len() == 3,
{
    match verb {
        Verb::Put => {
            reveal_strlit("set ");
            lemma_word("set "@);
        },
        Verb::Add => {
            reveal_strlit("add ");
            lemma_word("add "@);
        },
        Verb::Replace => {
            reveal_strlit("replace ");
            lemma_word("replace "@);
        },
        Verb::Append => {
            reveal_strlit("append ");
            lemma_word("append "@);
        },
        Verb::Prepend => {
            reveal_strlit("prepend ");
            lemma_word("prepend "@);
        },
        Verb::Cas => {
            reveal_strlit("cas ");
            lemma_word("cas "@);
        },
        Verb::Gets => {
            reveal_strlit("gets");
            lemma_word("gets"@);
        },
        Verb::Get => {
            reveal_strlit("get");
            lemma_word("get"@);
        },
        Verb::Delete => {
            reveal_strlit("delete ");
            lemma_word("delete "@);
        },
        Verb::Incr => {
            reveal_strlit("incr ");
            lemma_word("incr "@);
        },
        Verb::Decr => {
            reveal_strlit("decr ");
            lemma_word("decr "@);
        },
        Verb::Touch => {
            reveal_strlit("touch ");
            lemma_word("touch "@);
        },
        Verb::FlushAll => {
            reveal_strlit("flush_all");
            lemma_word("flush_all"@);
        },
        Verb::Version => {
            reveal_strlit("version\r\n");
            lemma_word("version\r\n"@);
        },
    }
}

/// The first byte of the name of a command.
pub open spec fn first_byte(verb: Verb) -> u8 {
    match verb {
        Verb::Put => 0x73,
        Verb::Add | Verb::Append => 0x61,
        Verb::Replace => 0x72,
        Verb::Prepend => 0x70,
        Verb::Cas => 0x63,
        Verb::Gets | Verb::Get => 0x67,
        Verb::Delete | Verb::Decr => 0x64,
        Verb::Incr => 0x69,
        Verb::Touch => 0x74,
        Verb::FlushAll => 0x66,
        Verb::Version => 0x76,
    }
}

/// A line that starts with the name of a command does not start with a name
/// that is tried before it. `get` is the start of `gets`: there the byte
/// behind the name decides.
pub proof fn lemma_rules_out(s: Seq<u8>, verb: Verb, other: Verb)
    requires
        utf8(verb.word()).is_prefix_of(s),
        other.place() < verb.place(),
        verb == Verb::Get ==> s.len() > 3 && s[3] != 0x73,
    ensures
        tag(s, utf8(other.word())) is Error,
{
    lemma_name(verb);
    lemma_name(other);
    let w = utf8(verb.word());
    let o = utf8(other.word());
    let at: int = if first_byte(verb) != first_byte(other) {
        0
    } else if verb == Verb::Append {
        1
    } else if verb == Verb::Decr {
        2
    } else {
        3
    };
    if at < 3 {
        assert(s.subrange(0, w.len() as int)[at] == s[at]);
    }
    lemma_tag_fails(s, o, at);
}

/// A line that starts with the name of a command is read as that command.
pub proof fn lemma_picks(s: Seq<u8>, verb: Verb, from: int)
    requires
        utf8(verb.word()).is_prefix_of(s),
        0 <= from <= verb.place(),
        verb == Verb::Get ==> s.len() > 3 && s[3] != 0x73,
    ensures
        choice(s, from) == body(s.skip(utf8(verb.word()).len() as int), verb),
    decreases verb.place() - from,
{
    if from < verb.place() {
        assert(Verb::nth(from).place() == from);
        lemma_rules_out(s, verb, Verb::nth(from));
        lemma_picks(s, verb, from + 1);
    } else {
        assert(Verb::nth(from) == verb);
    }
}

/// What follows the name of a command is read back as it was written.
pub proof fn lemma_body_reads(r: RequestView, rest: Seq<u8>)
    requires
        r.wf(),
    ensures
        body(body_bytes(r) + rest, r.verb()) == Scan::Done(r, rest),
{
    match r {
        RequestView::Put { key, value, flags, expiry, noreply } => {
            lemma_store_reads(Verb::Put, key, value, flags, expiry, noreply, rest);
        },
        RequestView::Add { key, value, flags, expiry, noreply } => {
            lemma_store_reads(Verb::Add, key, value, flags, expiry, noreply, rest);
        },
        RequestView::Replace { key, value, flags, expiry, noreply } => {
            lemma_store_reads(Verb::Replace, key, value, flags, expiry, noreply, rest);
        },
        RequestView::Append { key, value, noreply } => {
            lemma_extend_reads(Verb::Append, key, value, noreply, rest);
        },
        RequestView::Prepend { key, value, noreply } => {
            lemma_extend_reads(Verb::Prepend, key, value, noreply, rest);
        },
        RequestView::Cas { key, value, flags, expiry, cas, noreply } => {
            lemma_swap_reads(key, value, flags, expiry, cas, noreply, rest);
        },
        _ => {
            lemma_plain_reads(r, rest);
        },
    }
}

/// What follows the name of a command that carries no payload is read back
/// as it was written.
pub proof fn lemma_plain_reads(r: RequestView, rest: Seq<u8>)
    requires
        r.wf(),
        r is Get || r is Gets || r is Delete || r is Incr || r is Decr || r is Touch
            || r is FlushAll || r is Version,
    ensures
        body(body_bytes(r) + rest, r.verb()) == Scan::Done(r, rest),
{
    match r {
        RequestView::Get { keys } => {
            lemma_fetch_reads(Verb::Get, keys, rest);
        },
        RequestView::Gets { keys } => {
            lemma_fetch_reads(Verb::Gets, keys, rest);
        },
        RequestView::Delete { key, noreply } => {
            assert(key_ok(seq![key][0]));
            lemma_delete_reads(key, noreply, rest);
        },
        RequestView::Incr { key, value, noreply } => {
            assert(key_ok(seq![key][0]));
            lemma_count_reads(Verb::Incr, key, value, noreply, rest);
        },
        RequestView::Decr { key, value, noreply } => {
            assert(key_ok(seq![key][0]));
            lemma_count_reads(Verb::Decr, key, value, noreply, rest);
        },
        RequestView::Touch { key, expiry, noreply } => {
            assert(key_ok(seq![key][0]));
            lemma_count_reads(Verb::Touch, key, expiry as u64, noreply, rest);
        },
        RequestView::FlushAll { delay, noreply } => {
            lemma_flush_reads(delay, noreply, rest);
        },
        _ => {
            assert(body_bytes(r) + rest =~= rest);
        },
    }
}

/// A name and what follows it: the line starts with the name, and with no
/// name that is tried before it.
pub proof fn lemma_named(word: Seq<u8>, then: Seq<u8>)
    ensures
        word.is_prefix_of(word + then),
        (word + then).skip(word.len() as int) == then,
        then.len() > 0 ==> (word + then).len() > word.len() && (word + then)[word.len() as int]
            == then[0],
{
    assert((word + then).subrange(0, word.len() as int) =~= word);
    assert((word + then).skip(word.len() as int) =~= then);
}

/// A command that was written is read back as it was, and what follows it is
/// left.
pub proof fn lemma_request_reads(r: RequestView, rest: Seq<u8>)
    requires
        r.wf(),
    ensures
        parse_request(request_bytes(r) + rest) == Scan::Done(r, rest),
{
    let verb = r.verb();
    let word = utf8(verb.word());
    let then = body_bytes(r) + rest;
    lemma_join3(word, body_bytes(r), rest);
    lemma_named(word, then);
    lemma_body_reads(r, rest);
    if verb == Verb::Get {
        lemma_fetch_starts(r->Get_keys, rest);
        lemma_name(verb);
    }
    lemma_picks(word + then, verb, 0);
}

/// A command that carries a payload is longer than the payload and what ends
/// it.
pub proof fn lemma_line_len(r: RequestView)
    ensures
        r.line_len() >= 0,
{
    lemma_crlf();
}

/// What follows `get` starts with a space or with the end of the line.
pub proof fn lemma_fetch_starts(all: Seq<Seq<char>>, rest: Seq<u8>)
    ensures
        (fetch_bytes(all) + rest).len() > 0,
        (fetch_bytes(all) + rest)[0] == 0x20 || (fetch_bytes(all) + rest)[0] == 0x0d,
{
    lemma_space();
    lemma_crlf();
    if all.len() == 0 {
        assert(keys_bytes(all) + utf8("\r\n"@) =~= utf8("\r\n"@));
    } else {
        assert(keys_bytes(all)[0] == 0x20);
    }
}

// ---------------------------------------------------------------------------
// What is read from an input that was cut short

/// What follows `set `, `add ` or `replace `, read from an input that was cut
/// short.
pub proof fn lemma_store_cut(a: Seq<u8>, b: Seq<u8>, verb: Verb)
    ensures
        a.is_prefix_of(b) ==> cut_of(store(a, verb), store(b, verb), b.len() - a.len()),
{
    reveal(store);
    lemma_key_cut(a, b);
    let (a, b) = (key(a).rest(), key(b).rest());
    lemma_spaced_cut(a, b, u16::MAX as u64);
    let (a, b) = (spaced(a, u16::MAX as u64).rest(), spaced(b, u16::MAX as u64).rest());
    lemma_spaced_cut(a, b, u32::MAX as u64);
    let (a, b) = (spaced(a, u32::MAX as u64).rest(), spaced(b, u32::MAX as u64).rest());
    lemma_spaced_cut(a, b, u32::MAX as u64);
    let len = spaced(b, u32::MAX as u64).value() as nat;
    let (a, b) = (spaced(a, u32::MAX as u64).rest(), spaced(b, u32::MAX as u64).rest());
    lemma_noreply_cut(a, b);
    let (a, b) = (noreply(a).rest(), noreply(b).rest());
    lemma_block_cut(a, b, len);
}

/// What follows `append ` or `prepend `, read from an input that was cut
/// short.
pub proof fn lemma_extend_cut(a: Seq<u8>, b: Seq<u8>, verb: Verb)
    ensures
        a.is_prefix_of(b) ==> cut_of(extend(a, verb), extend(b, verb), b.len() - a.len()),
{
    reveal(extend);
    lemma_key_cut(a, b);
    let (a, b) = (key(a).rest(), key(b).rest());
    lemma_spaced_cut(a, b, u32::MAX as u64);
    let len = spaced(b, u32::MAX as u64).value() as nat;
    let (a, b) = (spaced(a, u32::MAX as u64).rest(), spaced(b, u32::MAX as u64).rest());
    lemma_noreply_cut(a, b);
    let (a, b) = (noreply(a).rest(), noreply(b).rest());
    lemma_block_cut(a, b, len);
}

/// What follows `cas `, read from an input that was cut short.
pub proof fn lemma_swap_cut(a: Seq<u8>, b: Seq<u8>)
    ensures
        a.is_prefix_of(b) ==> cut_of(swap(a), swap(b), b.len() - a.len()),
{
    reveal(swap);
    lemma_key_cut(a, b);
    let (a, b) = (key(a).rest(), key(b).rest());
    lemma_spaced_cut(a, b, u16::MAX as u64);
    let (a, b) = (spaced(a, u16::MAX as u64).rest(), spaced(b, u16::MAX as u64).rest());
    lemma_spaced_cut(a, b, u32::MAX as u64);
    let (a, b) = (spaced(a, u32::MAX as u64).rest(), spaced(b, u32::MAX as u64).rest());
    lemma_spaced_cut(a, b, u32::MAX as u64);
    let len = spaced(b, u32::MAX as u64).value() as nat;
    let (a, b) = (spaced(a, u32::MAX as u64).rest(), spaced(b, u32::MAX as u64).rest());
    lemma_spaced_cut(a, b, u64::MAX);
    let (a, b) = (spaced(a, u64::MAX).rest(), spaced(b, u64::MAX).rest());
    lemma_noreply_cut(a, b);
    let (a, b) = (noreply(a).rest(), noreply(b).rest());
    lemma_block_cut(a, b, len);
}

/// Keys, read from an input that was cut short.
pub proof fn lemma_keys_cut(a: Seq<u8>, b: Seq<u8>)
    ensures
        a.is_prefix_of(b) ==> cut_of(keys(a), keys(b), b.len() - a.len()),
    decreases a.len(),
{
    if a.is_prefix_of(b) {
        let space = utf8(" "@);
        lemma_space();
        lemma_tag_cut(a, b, space);
        if tag(a, space) is Done {
            let (a1, b1) = (tag(a, space).rest(), tag(b, space).rest());
            lemma_key_cut(a1, b1);
            if key(a1) is Done {
                let (a2, b2) = (key(a1).rest(), key(b1).rest());
                lemma_run(a1, Class::Key);
                lemma_run(b1, Class::Key);
                assert(a2.len() < a.len());
                assert(b2.len() < b.len());
                lemma_keys_cut(a2, b2);
            }
        }
    }
}

/// What follows `get` or `gets`, read from an input that was cut short.
pub proof fn lemma_fetch_cut(a: Seq<u8>, b: Seq<u8>, verb: Verb)
    ensures
        a.is_prefix_of(b) ==> cut_of(fetch(a, verb), fetch(b, verb), b.len() - a.len()),
{
    reveal(fetch);
    lemma_keys_cut(a, b);
    lemma_tag_cut(keys(a).rest(), keys(b).rest(), utf8("\r\n"@));
}

/// What follows `delete `, read from an input that was cut short.
pub proof fn lemma_delete_cut(a: Seq<u8>, b: Seq<u8>)
    ensures
        a.is_prefix_of(b) ==> cut_of(delete(a), delete(b), b.len() - a.len()),
{
    reveal(delete);
    lemma_key_cut(a, b);
    let (a, b) = (key(a).rest(), key(b).rest());
    lemma_noreply_cut(a, b);
    let (a, b) = (noreply(a).rest(), noreply(b).rest());
    lemma_tag_cut(a, b, utf8("\r\n"@));
}

/// What follows `incr `, `decr ` or `touch `, read from an input that was cut
/// short.
pub proof fn lemma_count_cut(a: Seq<u8>, b: Seq<u8>, verb: Verb)
    ensures
        a.is_prefix_of(b) ==> cut_of(count(a, verb), count(b, verb), b.len() - a.len()),
{
    reveal(count);
    lemma_key_cut(a, b);
    let (a, b) = (key(a).rest(), key(b).rest());
    lemma_spaced_cut(a, b, count_max(verb));
    let (a, b) = (spaced(a, count_max(verb)).rest(), spaced(b, count_max(verb)).rest());
    lemma_noreply_cut(a, b);
    let (a, b) = (noreply(a).rest(), noreply(b).rest());
    lemma_tag_cut(a, b, utf8("\r\n"@));
}

/// What follows `flush_all`, read from an input that was cut short.
pub proof fn lemma_flush_cut(a: Seq<u8>, b: Seq<u8>)
    ensures
        a.is_prefix_of(b) ==> cut_of(flush(a), flush(b), b.len() - a.len()),
{
    reveal(flush);
    lemma_opt_number_cut(a, b, u32::MAX as u64);
    let (a, b) = (
        opt_number(a, u32::MAX as u64).rest(),
        opt_number(b, u32::MAX as u64).rest(),
    );
    lemma_noreply_cut(a, b);
    let (a, b) = (noreply(a).rest(), noreply(b).rest());
    lemma_tag_cut(a, b, utf8(" "@));
    lemma_tag_cut(a, b, utf8("\r\n"@));
    let (a, b) = (opt_space(a).rest(), opt_space(b).rest());
    lemma_tag_cut(a, b, utf8("\r\n"@));
}

/// What follows the name of a command, read from an input that was cut
/// short.
pub proof fn lemma_body_cut(a: Seq<u8>, b: Seq<u8>, verb: Verb)
    ensures
        a.is_prefix_of(b) ==> cut_of(body(a, verb), body(b, verb), b.len() - a.len()),
{
    match verb {
        Verb::Put | Verb::Add | Verb::Replace => lemma_store_cut(a, b, verb),
        Verb::Append | Verb::Prepend => lemma_extend_cut(a, b, verb),
        Verb::Cas => lemma_swap_cut(a, b),
        Verb::Gets | Verb::Get => lemma_fetch_cut(a, b, verb),
        Verb::Delete => lemma_delete_cut(a, b),
        Verb::Incr | Verb::Decr | Verb::Touch => lemma_count_cut(a, b, verb),
        Verb::FlushAll => lemma_flush_cut(a, b),
        Verb::Version => {},
    }
}

/// A command whose name is tried from place `from` on, read from an input
/// that was cut short.
pub proof fn lemma_choice_cut(a: Seq<u8>, b: Seq<u8>, from: int)
    ensures
        a.is_prefix_of(b) ==> cut_of(choice(a, from), choice(b, from), b.len() - a.len()),
    decreases VERBS - from,
{
    if 0 <= from < VERBS {
        let word = utf8(Verb::nth(from).word());
        lemma_tag_cut(a, b, word);
        lemma_body_cut(tag(a, word).rest(), tag(b, word).rest(), Verb::nth(from));
        lemma_choice_cut(a, b, from + 1);
    }
}

/// A command read from an input that was cut short is the command read from
/// the whole input, or a call for more bytes.
pub proof fn lemma_request_cut(a: Seq<u8>, b: Seq<u8>)
    ensures
        a.is_prefix_of(b) ==> cut_of(parse_request(a), parse_request(b), b.len() - a.len()),
{
    lemma_choice_cut(a, b, 0);
}

} // verus!
