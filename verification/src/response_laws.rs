//! Replies, written and read: what is written is read back, and what is read
//! from an input that was cut short is what is read from the whole input, or
//! a call for more bytes.

use crate::decimal::{decimal, is_digit, lemma_decimal_digits};
use crate::response::{amount, check_values, choice, listing, message, parse_response, reply,
    response_bytes, values, values_bytes, worded, Kind, ResponseView, KINDS};
use crate::scan::{cut_of, lemma_crlf, lemma_join3, lemma_join4, lemma_line_cut,
    lemma_line_reads, lemma_number_cut, lemma_number_reads, lemma_tag_cut, lemma_tag_fails,
    lemma_tag_reads, line, number, tag, Scan};
use crate::text::{lemma_word, text_ok, utf8};
use crate::value::{lemma_value_cut, lemma_value_reads, parse_value, value_bytes, ValueView};
use vstd::prelude::*;

verus! {

// ---------------------------------------------------------------------------
// What was written is read back

/// A value record on the wire starts with its word, which is 6 bytes long.
pub proof fn lemma_value_starts(v: ValueView, rest: Seq<u8>)
    ensures
        utf8("VALUE "@).len() == 6,
        utf8("VALUE "@).is_prefix_of(value_bytes(v) + rest),
        value_bytes(v).len() >= 6,
{
    lemma_value_word();
    let word = utf8("VALUE "@);
    assert((value_bytes(v) + rest).subrange(0, word.len() as int) =~= word);
}

/// Records are read back as they were written, where no record follows.
pub proof fn lemma_values_read(all: Seq<ValueView>, rest: Seq<u8>)
    requires
        check_values(all) is Ok,
        parse_value(rest) is Error,
    ensures
        values(values_bytes(all) + rest) == Scan::Done(all, rest),
    decreases all.len(),
{
    if all.len() == 0 {
        assert(values_bytes(all) + rest =~= rest);
        assert(all =~= Seq::<ValueView>::empty());
    } else {
        let more = all.drop_first();
        let after = values_bytes(more) + rest;
        let s = values_bytes(all) + rest;
        lemma_join3(value_bytes(all[0]), values_bytes(more), rest);
        lemma_value_starts(all[0], after);
        lemma_value_reads(all[0], after);
        lemma_values_read(more, rest);
        assert(s == value_bytes(all[0]) + after);
        assert(parse_value(s) == Scan::Done(all[0], after));
        assert(after.len() < s.len());
        assert(seq![all[0]] + more =~= all);
    }
}

/// A list of values is read back as it was written.
pub proof fn lemma_listing_reads(all: Seq<ValueView>, rest: Seq<u8>)
    requires
        check_values(all) is Ok,
    ensures
        listing(values_bytes(all) + utf8("END\r\n"@) + rest) == Scan::Done(
            ResponseView::Values(all),
            rest,
        ),
{
    reveal(listing);
    let end = utf8("END\r\n"@);
    lemma_name(Kind::Values);
    lemma_value_word();
    lemma_join3(values_bytes(all), end, rest);
    assert(parse_value(end + rest) is Error) by {
        reveal(parse_value);
        lemma_tag_fails(end + rest, utf8("VALUE "@), 0);
    }
    lemma_values_read(all, end + rest);
    lemma_tag_reads(end, rest);
}

/// A reply that carries a message is read back as it was written.
pub proof fn lemma_message_reads(kind: Kind, text: Seq<char>, rest: Seq<u8>)
    requires
        text_ok(text),
    ensures
        message(utf8(kind.word()) + utf8(text) + utf8("\r\n"@) + rest, kind) == Scan::Done(
            worded(kind, text),
            rest,
        ),
{
    reveal(message);
    let crlf = utf8("\r\n"@);
    lemma_crlf();
    lemma_join4(utf8(kind.word()), utf8(text), crlf, rest);
    lemma_tag_reads(utf8(kind.word()), utf8(text) + (crlf + rest));
    lemma_line_reads(text, crlf + rest);
    lemma_tag_reads(crlf, rest);
}

/// A number on a line of its own is read back as it was written.
pub proof fn lemma_amount_reads(n: u64, rest: Seq<u8>)
    ensures
        amount(decimal(n as nat) + utf8("\r\n"@) + rest) == Scan::Done(
            ResponseView::UpdatedValue(n),
            rest,
        ),
{
    reveal(amount);
    let crlf = utf8("\r\n"@);
    lemma_crlf();
    lemma_join3(decimal(n as nat), crlf, rest);
    lemma_number_reads(n, u64::MAX, crlf + rest);
    lemma_tag_reads(crlf, rest);
}

/// A reply is read back as it was written, where its kind is the one that is
/// tried.
pub proof fn lemma_reply_reads(r: ResponseView, rest: Seq<u8>)
    requires
        r.wf(),
    ensures
        reply(response_bytes(r) + rest, r.kind()) == Scan::Done(r, rest),
{
    match r {
        ResponseView::ClientError(text) => lemma_message_reads(Kind::ClientError, text, rest),
        ResponseView::ServerError(text) => lemma_message_reads(Kind::ServerError, text, rest),
        ResponseView::Version(text) => lemma_message_reads(Kind::Version, text, rest),
        ResponseView::Values(all) => lemma_listing_reads(all, rest),
        ResponseView::UpdatedValue(n) => lemma_amount_reads(n, rest),
        _ => lemma_tag_reads(utf8(r.kind().word()), rest),
    }
}

/// What a reply starts with on the wire, as far as it tells the kinds apart.
pub open spec fn lead(r: ResponseView) -> Seq<u8> {
    match r {
        ResponseView::Values(all) => if all.len() == 0 {
            utf8("END\r\n"@)
        } else {
            utf8("VALUE "@)
        },
        ResponseView::UpdatedValue(n) => decimal(n as nat).take(1),
        _ => utf8(r.kind().word()),
    }
}

/// A reply on the wire starts with what tells its kind.
pub proof fn lemma_leads(r: ResponseView, rest: Seq<u8>)
    ensures
        lead(r).is_prefix_of(response_bytes(r) + rest),
{
    let s = response_bytes(r) + rest;
    let l = lead(r);
    match r {
        ResponseView::Values(all) => {
            if all.len() == 0 {
                assert(values_bytes(all) + utf8("END\r\n"@) =~= utf8("END\r\n"@));
            } else {
                lemma_value_starts(
                    all[0],
                    values_bytes(all.drop_first()) + utf8("END\r\n"@) + rest,
                );
                lemma_join4(
                    value_bytes(all[0]),
                    values_bytes(all.drop_first()),
                    utf8("END\r\n"@),
                    rest,
                );
            }
        },
        ResponseView::UpdatedValue(n) => {
            lemma_decimal_digits(n as nat);
        },
        _ => {},
    }
    assert(s.subrange(0, l.len() as int) =~= l);
}

/// The bytes of the literal of a kind, as far as they tell the kinds apart.
pub proof fn lemma_name(kind: Kind)
    requires
        kind != Kind::UpdatedValue,
    ensures
        4 <= utf8(kind.word()).len() <= 13,
        utf8(kind.word())[0] == mark(kind).0,
        utf8(kind.word())[1] == mark(kind).1,
        kind == Kind::NotStored ==> utf8(kind.word()).len() == 12 && utf8(kind.word())[4] == 0x53,
        kind == Kind::NotFound ==> utf8(kind.word()).len() == 11 && utf8(kind.word())[4] == 0x46,
{
    match kind {
        Kind::Error => {
            reveal_strlit("ERROR\r\n");
            lemma_word("ERROR\r\n"@);
        },
        Kind::ClientError => {
            reveal_strlit("CLIENT_ERROR ");
            lemma_word("CLIENT_ERROR "@);
        },
        Kind::ServerError => {
            reveal_strlit("SERVER_ERROR ");
            lemma_word("SERVER_ERROR "@);
        },
        Kind::Stored => {
            reveal_strlit("STORED\r\n");
            lemma_word("STORED\r\n"@);
        },
        Kind::NotStored => {
            reveal_strlit("NOT STORED\r\n");
            lemma_word("NOT STORED\r\n"@);
        },
        Kind::Exists => {
            reveal_strlit("EXISTS\r\n");
            lemma_word("EXISTS\r\n"@);
        },
        Kind::NotFound => {
            reveal_strlit("NOT FOUND\r\n");
            lemma_word("NOT FOUND\r\n"@);
        },
        Kind::Values => {
            reveal_strlit("END\r\n");
            lemma_word("END\r\n"@);
        },
        Kind::Deleted => {
            reveal_strlit("DELETED\r\n");
            lemma_word("DELETED\r\n"@);
        },
        Kind::Touched => {
            reveal_strlit("TOUCHED\r\n");
            lemma_word("TOUCHED\r\n"@);
        },
        Kind::Okay => {
            reveal_strlit("OK\r\n");
            lemma_word("OK\r\n"@);
        },
        _ => {
            reveal_strlit("VERSION ");
            lemma_word("VERSION "@);
        },
    }
}

/// The first bytes of the word of a value record.
pub proof fn lemma_value_word()
    ensures
        utf8("VALUE "@).len() == 6,
        utf8("VALUE "@)[0] == 0x56,
        utf8("VALUE "@)[1] == 0x41,
{
    reveal_strlit("VALUE ");
    lemma_word("VALUE "@);
}

/// The first two bytes of the literal of a kind.
pub open spec fn mark(kind: Kind) -> (u8, u8) {
    match kind {
        Kind::Error => (0x45, 0x52),
        Kind::ClientError => (0x43, 0x4c),
        Kind::ServerError => (0x53, 0x45),
        Kind::Stored => (0x53, 0x54),
        Kind::NotStored => (0x4e, 0x4f),
        Kind::Exists => (0x45, 0x58),
        Kind::NotFound => (0x4e, 0x4f),
        Kind::Values => (0x45, 0x4e),
        Kind::Deleted => (0x44, 0x45),
        Kind::Touched => (0x54, 0x4f),
        Kind::Okay => (0x4f, 0x4b),
        Kind::Version => (0x56, 0x45),
        Kind::UpdatedValue => (0x0d, 0x0a),
    }
}

/// An input that starts as a reply of one kind is no reply of a kind that is
/// tried before it.
pub proof fn lemma_rules_out(s: Seq<u8>, r: ResponseView, other: Kind)
    requires
        lead(r).is_prefix_of(s),
        other.place() < r.kind().place(),
    ensures
        reply(s, other) is Error,
{
    reveal(message);
    reveal(listing);
    reveal(amount);
    let l = lead(r);
    let o = utf8(other.word());
    lemma_name(other);
    lemma_value_word();
    // The first two bytes of the input, and the fifth where there is one.
    let (first, second) = if r is Values && r->Values_0.len() > 0 {
        (0x56u8, 0x41u8)
    } else {
        mark(r.kind())
    };
    if r is UpdatedValue {
        lemma_decimal_digits(r->UpdatedValue_0 as nat);
        assert(is_digit(l[0]));
        assert(s.subrange(0, l.len() as int)[0] == s[0]);
        assert(is_digit(s[0]));
    } else {
        if !(r is Values && r->Values_0.len() > 0) {
            lemma_name(r.kind());
        }
        assert(4 <= l.len());
        assert(l[0] == first && l[1] == second);
        assert(s.subrange(0, l.len() as int)[0] == s[0]);
        assert(s.subrange(0, l.len() as int)[1] == s[1]);
        assert(s[0] == first && s[1] == second);
        if r is NotFound {
            assert(s.subrange(0, l.len() as int)[4] == s[4]);
        }
    }
    let at: int = if s[0] != o[0] {
        0
    } else if s[1] != o[1] {
        1
    } else {
        4
    };
    assert(at == 4 ==> r is NotFound && other == Kind::NotStored);
    lemma_tag_fails(s, o, at);
    if other == Kind::Values {
        let word = utf8("VALUE "@);
        let at: int = if s[0] != word[0] {
            0
        } else {
            1
        };
        lemma_tag_fails(s, word, at);
        reveal(parse_value);
    }
}

/// An input that starts as a reply of one kind is read as that reply.
pub proof fn lemma_picks(r: ResponseView, rest: Seq<u8>, from: int)
    requires
        r.wf(),
        0 <= from <= r.kind().place(),
    ensures
        choice(response_bytes(r) + rest, from) == Scan::Done(r, rest),
    decreases r.kind().place() - from,
{
    let s = response_bytes(r) + rest;
    if from < r.kind().place() {
        assert(Kind::nth(from).place() == from);
        lemma_leads(r, rest);
        lemma_rules_out(s, r, Kind::nth(from));
        lemma_picks(r, rest, from + 1);
    } else {
        assert(Kind::nth(from) == r.kind());
        lemma_reply_reads(r, rest);
    }
}

/// A reply that was written is read back as it was, and what follows it is
/// left.
pub proof fn lemma_response_reads(r: ResponseView, rest: Seq<u8>)
    requires
        r.wf(),
    ensures
        parse_response(response_bytes(r) + rest) == Scan::Done(r, rest),
{
    lemma_picks(r, rest, 0);
}

// ---------------------------------------------------------------------------
// What is read from an input that was cut short

/// A reply that carries a message, read from an input that was cut short.
pub proof fn lemma_message_cut(a: Seq<u8>, b: Seq<u8>, kind: Kind)
    ensures
        a.is_prefix_of(b) ==> cut_of(message(a, kind), message(b, kind), b.len() - a.len()),
{
    reveal(message);
    let word = utf8(kind.word());
    lemma_tag_cut(a, b, word);
    let (a, b) = (tag(a, word).rest(), tag(b, word).rest());
    lemma_line_cut(a, b);
    let (a, b) = (line(a).rest(), line(b).rest());
    lemma_tag_cut(a, b, utf8("\r\n"@));
}

/// Value records, read from an input that was cut short.
pub proof fn lemma_values_cut(a: Seq<u8>, b: Seq<u8>)
    ensures
        a.is_prefix_of(b) ==> cut_of(values(a), values(b), b.len() - a.len()),
    decreases a.len(),
{
    if a.is_prefix_of(b) {
        lemma_value_cut(a, b);
        if parse_value(a) is Done {
            let (a1, b1) = (parse_value(a).rest(), parse_value(b).rest());
            if a1.len() < a.len() {
                lemma_values_cut(a1, b1);
            }
        }
    }
}

/// A list of values, read from an input that was cut short.
pub proof fn lemma_listing_cut(a: Seq<u8>, b: Seq<u8>)
    ensures
        a.is_prefix_of(b) ==> cut_of(listing(a), listing(b), b.len() - a.len()),
{
    reveal(listing);
    lemma_values_cut(a, b);
    lemma_tag_cut(values(a).rest(), values(b).rest(), utf8(Kind::Values.word()));
}

/// A number on a line of its own, read from an input that was cut short.
pub proof fn lemma_amount_cut(a: Seq<u8>, b: Seq<u8>)
    ensures
        a.is_prefix_of(b) ==> cut_of(amount(a), amount(b), b.len() - a.len()),
{
    reveal(amount);
    lemma_number_cut(a, b, u64::MAX);
    lemma_tag_cut(
        number(a, u64::MAX).rest(),
        number(b, u64::MAX).rest(),
        utf8(Kind::UpdatedValue.word()),
    );
}

/// A reply of one kind, read from an input that was cut short.
pub proof fn lemma_reply_cut(a: Seq<u8>, b: Seq<u8>, kind: Kind)
    ensures
        a.is_prefix_of(b) ==> cut_of(reply(a, kind), reply(b, kind), b.len() - a.len()),
{
    match kind {
        Kind::ClientError | Kind::ServerError | Kind::Version => lemma_message_cut(a, b, kind),
        Kind::Values => lemma_listing_cut(a, b),
        Kind::UpdatedValue => lemma_amount_cut(a, b),
        _ => lemma_tag_cut(a, b, utf8(kind.word())),
    }
}

/// A reply whose kind is tried from place `from` on, read from an input that
/// was cut short.
pub proof fn lemma_choice_cut(a: Seq<u8>, b: Seq<u8>, from: int)
    ensures
        a.is_prefix_of(b) ==> cut_of(choice(a, from), choice(b, from), b.len() - a.len()),
    decreases KINDS - from,
{
    if 0 <= from < KINDS {
        lemma_reply_cut(a, b, Kind::nth(from));
        lemma_choice_cut(a, b, from + 1);
    }
}

/// A reply read from an input that was cut short is the reply read from the
/// whole input, or a call for more bytes.
pub proof fn lemma_response_cut(a: Seq<u8>, b: Seq<u8>)
    ensures
        a.is_prefix_of(b) ==> cut_of(parse_response(a), parse_response(b), b.len() - a.len()),
{
    lemma_choice_cut(a, b, 0);
}

} // verus!
