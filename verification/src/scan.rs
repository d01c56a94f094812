//! Reading the elements of the grammar from the front of an input.
//!
//! Each element is a function from the input to a [`Scan`]: what was read and
//! what is left, or the reason why nothing was read. An element never looks
//! past what it needs, so an input that was cut short is told apart from one
//! that is wrong.

use crate::decimal::{all_digits, decimal, decimal_value, is_digit, lemma_decimal_digits,
    lemma_decimal_value, lemma_value_grows, lemma_value_push, push_decimal};
use crate::text::{is_key_byte, is_line_break, key_ok, lemma_ascii_valid, lemma_bytes_of, lemma_utf8,
    lemma_word,
    push_bytes, push_text, string_from_utf8, text_ok, utf8, KEY_MAX};
use vstd::prelude::*;
use vstd::slice::{slice_subrange, slice_to_vec};
use vstd::utf8::*;

verus! {

/// What reading one element from the front of an input gives.
pub enum Scan<T> {
    /// The element was read: its value, and the input that follows it.
    Done(T, Seq<u8>),
    /// The input ends before the element does.
    Incomplete,
    /// The input does not start with the element.
    Error,
}

impl<T> Scan<T> {
    /// The value that was read.
    pub open spec fn value(self) -> T {
        self->0
    }

    /// The input that follows what was read.
    pub open spec fn rest(self) -> Seq<u8> {
        self->1
    }

    /// `next` where this element was read, else the reason why it was not.
    pub open spec fn and<U>(self, next: Scan<U>) -> Scan<U> {
        match self {
            Scan::Done(_, _) => next,
            Scan::Incomplete => Scan::Incomplete,
            Scan::Error => Scan::Error,
        }
    }
}

/// Why nothing was read.
#[derive(Clone, Copy, Debug, PartialEq, Eq)]
pub enum Halt {
    /// The input ends too early.
    Incomplete,
    /// The input is wrong.
    Error,
}

/// What reading one frame from the front of a buffer gives.
#[derive(Clone, Debug, PartialEq, Eq)]
pub enum Parsed<T> {
    /// A frame, and the number of bytes that it took.
    Done(T, usize),
    /// The buffer ends before the frame does: nothing was taken.
    Incomplete,
    /// The buffer does not start with a frame.
    Error,
}

impl<T: View> Parsed<T> {
    /// This outcome of reading the front of `buf`, as a [`Scan`].
    pub open spec fn scan(self, buf: Seq<u8>) -> Scan<T::V> {
        match self {
            Parsed::Done(frame, used) => Scan::Done(frame@, buf.skip(used as int)),
            Parsed::Incomplete => Scan::Incomplete,
            Parsed::Error => Scan::Error,
        }
    }
}

/// The outcome of reading at the front of a buffer, the position taken as a
/// count of bytes.
pub fn parsed<T: View>(r: Result<(T, usize), Halt>) -> (p: Parsed<T>)
    ensures
        forall|buf: Seq<u8>| #[trigger] p.scan(buf) == reads(r, buf),
        p matches Parsed::Done(_, used) ==> (r matches Ok((_, next)) && used == next),
{
    match r {
        Ok((frame, next)) => Parsed::Done(frame, next),
        Err(Halt::Incomplete) => Parsed::Incomplete,
        Err(Halt::Error) => Parsed::Error,
    }
}

/// The outcome `r` of reading at some position of `buf`, as a [`Scan`]: what
/// is left starts at the position that `r` holds.
pub open spec fn reads<T: View>(r: Result<(T, usize), Halt>, buf: Seq<u8>) -> Scan<T::V> {
    match r {
        Ok((value, next)) => Scan::Done(value@, buf.skip(next as int)),
        Err(Halt::Incomplete) => Scan::Incomplete,
        Err(Halt::Error) => Scan::Error,
    }
}

/// Whether `short`, read from an input that stops `cut` bytes early, fits
/// `full`, read from the whole input: either it asks for more bytes, or it is
/// the same outcome, with what is left stopping `cut` bytes early too.
pub open spec fn cut_of<T>(short: Scan<T>, full: Scan<T>, cut: int) -> bool {
    match short {
        Scan::Incomplete => true,
        Scan::Error => full is Error,
        Scan::Done(v, r) => full is Done && full.value() == v && r.is_prefix_of(full.rest())
            && r.len() + cut == full.rest().len(),
    }
}

/// The kinds of bytes that the grammar takes in runs.
#[derive(Clone, Copy, Debug, PartialEq, Eq)]
pub enum Class {
    /// The bytes of a key.
    Key,
    /// The decimal digits.
    Digit,
    /// The bytes of a message: all but those that end a line.
    Text,
}

impl Class {
    /// Whether `b` is of this kind.
    pub open spec fn has(self, b: u8) -> bool {
        match self {
            Class::Key => is_key_byte(b),
            Class::Digit => is_digit(b),
            Class::Text => !is_line_break(b),
        }
    }

    /// Whether `b` is of this kind.
    pub fn holds(self, b: u8) -> (r: bool)
        ensures
            r == self.has(b),
    {
        match self {
            Class::Key => b >= 0x21 && b <= 0x7e,
            Class::Digit => b >= 0x30 && b <= 0x39,
            Class::Text => b != 0x0d && b != 0x0a,
        }
    }
}

/// The length of the longest run of bytes of one kind that `s` starts with.
pub open spec fn run(s: Seq<u8>, class: Class) -> int
    decreases s.len(),
{
    if s.len() > 0 && class.has(s[0]) {
        1 + run(s.skip(1), class)
    } else {
        0
    }
}

/// The literal `word`: read when the input starts with it, and asked for when
/// the input is the start of it.
pub open spec fn tag(s: Seq<u8>, word: Seq<u8>) -> Scan<()> {
    if word.is_prefix_of(s) {
        Scan::Done((), s.skip(word.len() as int))
    } else if s.is_prefix_of(word) {
        Scan::Incomplete
    } else {
        Scan::Error
    }
}

/// A key: the longest run of key bytes, 1 to 250 of them, with a byte of
/// another kind behind it.
pub open spec fn key(s: Seq<u8>) -> Scan<Seq<char>> {
    let n = run(s, Class::Key);
    if n > KEY_MAX {
        Scan::Error
    } else if n == s.len() {
        Scan::Incomplete
    } else if n == 0 {
        Scan::Error
    } else {
        Scan::Done(decode_utf8(s.take(n)), s.skip(n))
    }
}

/// A number of at most `max`: the longest run of digits, with a byte of
/// another kind behind it.
pub open spec fn number(s: Seq<u8>, max: u64) -> Scan<u64> {
    let n = run(s, Class::Digit);
    if decimal_value(s.take(n)) > max {
        Scan::Error
    } else if n == s.len() {
        Scan::Incomplete
    } else if n == 0 {
        Scan::Error
    } else {
        Scan::Done(decimal_value(s.take(n)) as u64, s.skip(n))
    }
}

/// A message: the bytes up to the first one that ends a line, where they are
/// well-formed UTF-8.
pub open spec fn line(s: Seq<u8>) -> Scan<Seq<char>> {
    let n = run(s, Class::Text);
    if n == s.len() {
        Scan::Incomplete
    } else if !valid_utf8(s.take(n)) {
        Scan::Error
    } else {
        Scan::Done(decode_utf8(s.take(n)), s.skip(n))
    }
}

/// A payload of `len` bytes, whatever they are.
pub open spec fn payload(s: Seq<u8>, len: nat) -> Scan<Seq<u8>> {
    if len <= s.len() {
        Scan::Done(s.take(len as int), s.skip(len as int))
    } else {
        Scan::Incomplete
    }
}

/// The flag ` noreply`, which may be missing.
pub open spec fn noreply(s: Seq<u8>) -> Scan<bool> {
    match tag(s, utf8(" noreply"@)) {
        Scan::Done(_, rest) => Scan::Done(true, rest),
        Scan::Incomplete => Scan::Incomplete,
        Scan::Error => Scan::Done(false, s),
    }
}

/// A space and a number of at most `max`.
pub open spec fn spaced(s: Seq<u8>, max: u64) -> Scan<u64> {
    match tag(s, utf8(" "@)) {
        Scan::Done(_, rest) => number(rest, max),
        Scan::Incomplete => Scan::Incomplete,
        Scan::Error => Scan::Error,
    }
}

/// A space and a number of at most `max`, which may both be missing.
pub open spec fn opt_number(s: Seq<u8>, max: u64) -> Scan<Option<u64>> {
    match spaced(s, max) {
        Scan::Done(n, rest) => Scan::Done(Some(n), rest),
        Scan::Incomplete => Scan::Incomplete,
        Scan::Error => Scan::Done(None, s),
    }
}

/// The end of a line, a payload of `len` bytes, and the end of a line again.
pub open spec fn block(s: Seq<u8>, len: nat) -> Scan<Seq<u8>> {
    let head = tag(s, utf8("\r\n"@));
    let data = payload(head.rest(), len);
    let tail = tag(data.rest(), utf8("\r\n"@));
    head.and(data).and(tail).and(Scan::Done(data.value(), tail.rest()))
}

/// What a number is on the wire behind another field: a space and the
/// numeral.
pub open spec fn field_bytes(n: nat) -> Seq<u8> {
    utf8(" "@) + decimal(n)
}

/// What a payload is on the wire: on a line of its own, whatever bytes it
/// holds.
pub open spec fn block_bytes(data: Seq<u8>) -> Seq<u8> {
    utf8("\r\n"@) + data + utf8("\r\n"@)
}

/// What ` noreply` is on the wire, set or not.
pub open spec fn noreply_bytes(flag: bool) -> Seq<u8> {
    if flag {
        utf8(" noreply"@)
    } else {
        Seq::empty()
    }
}

/// What a number that may be missing is on the wire: a space and the
/// numeral, or nothing.
pub open spec fn opt_number_bytes(n: Option<u64>) -> Seq<u8> {
    match n {
        Some(v) => field_bytes(v as nat),
        None => Seq::empty(),
    }
}

// ---------------------------------------------------------------------------
// Runs

/// A run lies within the input, holds bytes of its kind only, and ends where
/// the input ends or a byte of another kind stands.
pub proof fn lemma_run(s: Seq<u8>, class: Class)
    ensures
        0 <= run(s, class) <= s.len(),
        forall|i: int| 0 <= i < run(s, class) ==> class.has(#[trigger] s[i]),
        run(s, class) < s.len() ==> !class.has(s[run(s, class)]),
    decreases s.len(),
{
    if s.len() > 0 && class.has(s[0]) {
        lemma_run(s.skip(1), class);
        assert forall|i: int| 0 <= i < run(s, class) implies class.has(#[trigger] s[i]) by {
            if i > 0 {
                assert(s[i] == s.skip(1)[i - 1]);
            }
        }
    }
}

/// The run is the only stretch that holds bytes of its kind only and ends
/// where the input ends or a byte of another kind stands.
pub proof fn lemma_run_is(s: Seq<u8>, class: Class, n: int)
    requires
        0 <= n <= s.len(),
        forall|i: int| 0 <= i < n ==> class.has(#[trigger] s[i]),
        n < s.len() ==> !class.has(s[n]),
    ensures
        run(s, class) == n,
    decreases n,
{
    if n > 0 {
        assert(class.has(s[0]));
        assert forall|i: int| 0 <= i < n - 1 implies class.has(#[trigger] s.skip(1)[i]) by {
            assert(s.skip(1)[i] == s[i + 1]);
        }
        lemma_run_is(s.skip(1), class, n - 1);
    }
}

/// The run of an input that was cut short is the run of the whole input, cut
/// short likewise.
pub proof fn lemma_run_cut(a: Seq<u8>, b: Seq<u8>, class: Class)
    requires
        a.is_prefix_of(b),
    ensures
        run(a, class) == if run(b, class) <= a.len() {
            run(b, class)
        } else {
            a.len() as int
        },
{
    lemma_run(b, class);
    let n = if run(b, class) <= a.len() {
        run(b, class)
    } else {
        a.len() as int
    };
    assert forall|i: int| 0 <= i < n implies class.has(#[trigger] a[i]) by {
        assert(a[i] == b[i]);
    }
    if n < a.len() {
        assert(a[n] == b[n]);
    }
    lemma_run_is(a, class, n);
}

// ---------------------------------------------------------------------------
// What an element reads from its own bytes

/// A literal is read from itself, whatever follows.
pub proof fn lemma_tag_reads(word: Seq<u8>, rest: Seq<u8>)
    ensures
        tag(word + rest, word) == Scan::Done((), rest),
{
    assert((word + rest).subrange(0, word.len() as int) =~= word);
    assert((word + rest).skip(word.len() as int) =~= rest);
}

/// A literal is not read where a byte differs.
pub proof fn lemma_tag_fails(s: Seq<u8>, word: Seq<u8>, at: int)
    requires
        0 <= at < s.len(),
        at < word.len(),
        s[at] != word[at],
    ensures
        tag(s, word) is Error,
{
    if word.is_prefix_of(s) {
        assert(s.subrange(0, word.len() as int)[at] == word[at]);
    }
    if s.is_prefix_of(word) {
        assert(word.subrange(0, s.len() as int)[at] == s[at]);
    }
}

/// A key is read from its bytes, where a byte that no key holds follows.
pub proof fn lemma_key_reads(k: Seq<char>, rest: Seq<u8>)
    requires
        key_ok(k),
        rest.len() > 0,
        !is_key_byte(rest[0]),
    ensures
        key(utf8(k) + rest) == Scan::Done(k, rest),
{
    let s = utf8(k) + rest;
    let n = utf8(k).len() as int;
    assert forall|i: int| 0 <= i < n implies Class::Key.has(#[trigger] s[i]) by {
        assert(s[i] == utf8(k)[i]);
    }
    assert(s[n] == rest[0]);
    lemma_run_is(s, Class::Key, n);
    assert(s.take(n) =~= utf8(k));
    assert(s.skip(n) =~= rest);
    lemma_utf8(k);
}

/// A number is read from its numeral, where a byte that is no digit follows.
pub proof fn lemma_number_reads(n: u64, max: u64, rest: Seq<u8>)
    requires
        n <= max,
        rest.len() > 0,
        !is_digit(rest[0]),
    ensures
        number(decimal(n as nat) + rest, max) == Scan::Done(n, rest),
{
    let d = decimal(n as nat);
    let s = d + rest;
    let len = d.len() as int;
    lemma_decimal_digits(n as nat);
    lemma_decimal_value(n as nat);
    assert forall|i: int| 0 <= i < len implies Class::Digit.has(#[trigger] s[i]) by {
        assert(s[i] == d[i]);
    }
    assert(s[len] == rest[0]);
    lemma_run_is(s, Class::Digit, len);
    assert(s.take(len) =~= d);
    assert(s.skip(len) =~= rest);
}

/// A message is read from its bytes, where a byte that ends a line follows.
pub proof fn lemma_line_reads(text: Seq<char>, rest: Seq<u8>)
    requires
        text_ok(text),
        rest.len() > 0,
        is_line_break(rest[0]),
    ensures
        line(utf8(text) + rest) == Scan::Done(text, rest),
{
    let s = utf8(text) + rest;
    let n = utf8(text).len() as int;
    assert forall|i: int| 0 <= i < n implies Class::Text.has(#[trigger] s[i]) by {
        assert(s[i] == utf8(text)[i]);
    }
    assert(s[n] == rest[0]);
    lemma_run_is(s, Class::Text, n);
    assert(s.take(n) =~= utf8(text));
    assert(s.skip(n) =~= rest);
    lemma_utf8(text);
}

/// A payload is read from its bytes, whatever follows.
pub proof fn lemma_payload_reads(data: Seq<u8>, rest: Seq<u8>)
    ensures
        payload(data + rest, data.len()) == Scan::Done(data, rest),
{
    assert((data + rest).take(data.len() as int) =~= data);
    assert((data + rest).skip(data.len() as int) =~= rest);
}

/// The flag is read as it was written, where the end of the line follows.
pub proof fn lemma_noreply_reads(flag: bool, rest: Seq<u8>)
    requires
        rest.len() > 0,
        rest[0] == 0x0d,
    ensures
        noreply(noreply_bytes(flag) + rest) == Scan::Done(flag, rest),
{
    let word = utf8(" noreply"@);
    reveal_strlit(" noreply");
    lemma_word(" noreply"@);
    if flag {
        lemma_tag_reads(word, rest);
    } else {
        assert(noreply_bytes(flag) + rest =~= rest);
        lemma_tag_fails(rest, word, 0);
    }
}

/// A space and a number are read as they were written, where a byte that is
/// no digit follows.
pub proof fn lemma_spaced_reads(n: u64, max: u64, rest: Seq<u8>)
    requires
        n <= max,
        rest.len() > 0,
        !is_digit(rest[0]),
    ensures
        spaced(field_bytes(n as nat) + rest, max) == Scan::Done(n, rest),
{
    let space = utf8(" "@);
    assert(field_bytes(n as nat) + rest =~= space + (decimal(n as nat) + rest));
    lemma_tag_reads(space, decimal(n as nat) + rest);
    lemma_number_reads(n, max, rest);
}

/// A number that may be missing is read as it was written, where neither a
/// digit nor a space and a digit follows.
pub proof fn lemma_opt_number_reads(n: Option<u64>, max: u64, rest: Seq<u8>)
    requires
        n matches Some(v) ==> v <= max,
        rest.len() > 0,
        !is_digit(rest[0]),
        rest[0] == 0x20 ==> rest.len() > 1 && !is_digit(rest[1]),
    ensures
        opt_number(opt_number_bytes(n) + rest, max) == Scan::Done(n, rest),
{
    match n {
        Some(v) => {
            lemma_spaced_reads(v, max, rest);
        },
        None => {
            let space = utf8(" "@);
            assert(opt_number_bytes(n) + rest =~= rest);
            lemma_space();
            if rest[0] == 0x20 {
                assert(rest =~= space + rest.skip(1));
                lemma_tag_reads(space, rest.skip(1));
                lemma_run_is(rest.skip(1), Class::Digit, 0);
                assert(rest.skip(1).take(0) =~= Seq::<u8>::empty());
            } else {
                lemma_tag_fails(rest, space, 0);
            }
        },
    }
}

/// A payload on its line is read as it was written, whatever follows.
pub proof fn lemma_block_reads(data: Seq<u8>, rest: Seq<u8>)
    ensures
        block(block_bytes(data) + rest, data.len()) == Scan::Done(data, rest),
{
    let crlf = utf8("\r\n"@);
    assert(block_bytes(data) + rest =~= crlf + (data + (crlf + rest)));
    lemma_tag_reads(crlf, data + (crlf + rest));
    lemma_payload_reads(data, crlf + rest);
    lemma_tag_reads(crlf, rest);
}

/// The space is the one byte 0x20.
pub proof fn lemma_space()
    ensures
        utf8(" "@).len() == 1,
        utf8(" "@)[0] == 0x20,
{
    reveal_strlit(" ");
    lemma_word(" "@);
}

/// The end of a line is the two bytes 0x0d and 0x0a.
pub proof fn lemma_crlf()
    ensures
        utf8("\r\n"@).len() == 2,
        utf8("\r\n"@)[0] == 0x0d,
        utf8("\r\n"@)[1] == 0x0a,
{
    reveal_strlit("\r\n");
    lemma_word("\r\n"@);
}

/// What stands first on the wire where a field, a flag or a payload is
/// written: a space or the end of a line, so neither a digit nor a key byte.
pub proof fn lemma_starts(n: nat, o: Option<u64>, flag: bool, data: Seq<u8>, rest: Seq<u8>)
    ensures
        (field_bytes(n) + rest).len() > 0,
        (field_bytes(n) + rest)[0] == 0x20,
        (block_bytes(data) + rest).len() > 0,
        (block_bytes(data) + rest)[0] == 0x0d,
        (utf8("\r\n"@) + rest).len() > 0,
        (utf8("\r\n"@) + rest)[0] == 0x0d,
        rest.len() > 0 && rest[0] == 0x0d ==> (noreply_bytes(flag) + rest).len() > 0 && ((
        noreply_bytes(flag) + rest)[0] == 0x0d || ((noreply_bytes(flag) + rest)[0] == 0x20 && (
        noreply_bytes(flag) + rest).len() > 1 && (noreply_bytes(flag) + rest)[1] == 0x6e)),
        rest.len() > 0 && rest[0] == 0x0d ==> (opt_number_bytes(o) + rest).len() > 0 && ((
        opt_number_bytes(o) + rest)[0] == 0x20 || (opt_number_bytes(o) + rest)[0] == 0x0d),
{
    lemma_space();
    lemma_crlf();
    reveal_strlit(" noreply");
    lemma_word(" noreply"@);
    assert(field_bytes(n)[0] == 0x20);
    assert(block_bytes(data)[0] == 0x0d);
    if rest.len() > 0 && rest[0] == 0x0d {
        if !flag {
            assert(noreply_bytes(flag) + rest =~= rest);
        } else {
            assert((noreply_bytes(flag) + rest)[1] == noreply_bytes(flag)[1]);
        }
        match o {
            Some(v) => {
                assert(field_bytes(v as nat)[0] == 0x20);
            },
            None => {
                assert(opt_number_bytes(o) + rest =~= rest);
            },
        }
    }
}

// ---------------------------------------------------------------------------
// What an element reads from an input that was cut short

/// A literal, read from an input that was cut short.
pub proof fn lemma_tag_cut(a: Seq<u8>, b: Seq<u8>, word: Seq<u8>)
    ensures
        a.is_prefix_of(b) ==> cut_of(tag(a, word), tag(b, word), b.len() - a.len()),
{
    if a.is_prefix_of(b) {
        let w = word.len() as int;
        if word.is_prefix_of(a) {
            assert(b.subrange(0, w) =~= a.subrange(0, w));
            assert(a.skip(w) =~= b.skip(w).subrange(0, a.len() - w));
        } else if a.is_prefix_of(word) {
        } else {
            if word.is_prefix_of(b) {
                if w <= a.len() {
                    assert(a.subrange(0, w) =~= b.subrange(0, w));
                } else {
                    assert(word.subrange(0, a.len() as int) =~= a);
                }
            }
            if b.is_prefix_of(word) {
                assert(word.subrange(0, a.len() as int) =~= a);
            }
        }
    }
}

/// A key, read from an input that was cut short.
pub proof fn lemma_key_cut(a: Seq<u8>, b: Seq<u8>)
    ensures
        a.is_prefix_of(b) ==> cut_of(key(a), key(b), b.len() - a.len()),
{
    if a.is_prefix_of(b) {
        lemma_run_cut(a, b, Class::Key);
        lemma_run(b, Class::Key);
        let n = run(a, Class::Key);
        if n < a.len() {
            assert(a.take(n) =~= b.take(n));
            assert(a.skip(n) =~= b.skip(n).subrange(0, a.len() - n));
        }
    }
}

/// A number, read from an input that was cut short.
pub proof fn lemma_number_cut(a: Seq<u8>, b: Seq<u8>, max: u64)
    ensures
        a.is_prefix_of(b) ==> cut_of(number(a, max), number(b, max), b.len() - a.len()),
{
    if a.is_prefix_of(b) {
        lemma_run_cut(a, b, Class::Digit);
        lemma_run(b, Class::Digit);
        let n = run(a, Class::Digit);
        let m = run(b, Class::Digit);
        if n < a.len() {
            assert(a.take(n) =~= b.take(n));
            assert(a.skip(n) =~= b.skip(n).subrange(0, a.len() - n));
        } else {
            assert(a.take(n) =~= b.take(m).take(n));
            assert(all_digits(b.take(m)));
            lemma_value_grows(b.take(m), n);
        }
    }
}

/// A message, read from an input that was cut short.
pub proof fn lemma_line_cut(a: Seq<u8>, b: Seq<u8>)
    ensures
        a.is_prefix_of(b) ==> cut_of(line(a), line(b), b.len() - a.len()),
{
    if a.is_prefix_of(b) {
        lemma_run_cut(a, b, Class::Text);
        lemma_run(b, Class::Text);
        let n = run(a, Class::Text);
        if n < a.len() {
            assert(a.take(n) =~= b.take(n));
            assert(a.skip(n) =~= b.skip(n).subrange(0, a.len() - n));
        }
    }
}

/// A payload, read from an input that was cut short.
pub proof fn lemma_payload_cut(a: Seq<u8>, b: Seq<u8>, len: nat)
    ensures
        a.is_prefix_of(b) ==> cut_of(payload(a, len), payload(b, len), b.len() - a.len()),
{
    if a.is_prefix_of(b) && len <= a.len() {
        assert(a.take(len as int) =~= b.take(len as int));
        assert(a.skip(len as int) =~= b.skip(len as int).subrange(0, a.len() - len));
    }
}

/// The flag, read from an input that was cut short.
pub proof fn lemma_noreply_cut(a: Seq<u8>, b: Seq<u8>)
    ensures
        a.is_prefix_of(b) ==> cut_of(noreply(a), noreply(b), b.len() - a.len()),
{
    lemma_tag_cut(a, b, utf8(" noreply"@));
}

/// A space and a number, read from an input that was cut short.
pub proof fn lemma_spaced_cut(a: Seq<u8>, b: Seq<u8>, max: u64)
    ensures
        a.is_prefix_of(b) ==> cut_of(spaced(a, max), spaced(b, max), b.len() - a.len()),
{
    let space = utf8(" "@);
    lemma_tag_cut(a, b, space);
    lemma_number_cut(tag(a, space).rest(), tag(b, space).rest(), max);
}

/// A number that may be missing, read from an input that was cut short.
pub proof fn lemma_opt_number_cut(a: Seq<u8>, b: Seq<u8>, max: u64)
    ensures
        a.is_prefix_of(b) ==> cut_of(opt_number(a, max), opt_number(b, max), b.len() - a.len()),
{
    lemma_spaced_cut(a, b, max);
}

/// A payload on its line, read from an input that was cut short.
pub proof fn lemma_block_cut(a: Seq<u8>, b: Seq<u8>, len: nat)
    ensures
        a.is_prefix_of(b) ==> cut_of(block(a, len), block(b, len), b.len() - a.len()),
{
    let crlf = utf8("\r\n"@);
    lemma_tag_cut(a, b, crlf);
    let (a, b) = (tag(a, crlf).rest(), tag(b, crlf).rest());
    lemma_payload_cut(a, b, len);
    let (a, b) = (payload(a, len).rest(), payload(b, len).rest());
    lemma_tag_cut(a, b, crlf);
}

// ---------------------------------------------------------------------------
// Reading from a buffer

/// The end of the longest run of bytes of one kind that starts at `pos`.
pub fn run_end(buf: &[u8], pos: usize, class: Class) -> (end: usize)
    requires
        pos <= buf.len(),
    ensures
        pos <= end <= buf.len(),
        end - pos == run(buf@.skip(pos as int), class),
{
    let mut end: usize = pos;
    while end < buf.len() && class.holds(buf[end])
        invariant
            pos <= end <= buf.len(),
            forall|i: int| pos <= i < end ==> class.has(#[trigger] buf@[i]),
        decreases buf.len() - end,
    {
        end += 1;
    }
    proof {
        let s = buf@.skip(pos as int);
        assert forall|i: int| 0 <= i < end - pos implies class.has(#[trigger] s[i]) by {
            assert(s[i] == buf@[pos + i]);
        }
        lemma_run_is(s, class, end - pos);
    }
    end
}

/// Reads the literal `word` at `pos`.
pub fn read_tag(buf: &[u8], pos: usize, word: &str) -> (r: Result<((), usize), Halt>)
    requires
        pos <= buf.len(),
    ensures
        reads(r, buf@) == tag(buf@.skip(pos as int), utf8(word@)),
        r matches Ok((_, next)) ==> pos <= next <= buf.len(),
{
    let w = word.as_bytes();
    proof {
        lemma_bytes_of(word@);
    }
    let room: usize = buf.len() - pos;
    let ghost s = buf@.skip(pos as int);
    let mut k: usize = 0;
    while k < w.len()
        invariant
            pos <= buf.len(),
            room == buf.len() - pos,
            k <= w.len(),
            k <= room,
            w@ == utf8(word@),
            s == buf@.skip(pos as int),
            forall|i: int| 0 <= i < k ==> #[trigger] s[i] == w@[i],
        decreases w.len() - k,
    {
        if k >= room {
            proof {
                assert(s =~= w@.subrange(0, s.len() as int));
            }
            return Err(Halt::Incomplete);
        }
        if buf[pos + k] != w[k] {
            proof {
                assert(s[k as int] == buf@[pos + k]);
                lemma_tag_fails(s, w@, k as int);
            }
            return Err(Halt::Error);
        }
        proof {
            assert(s[k as int] == buf@[pos + k]);
        }
        k += 1;
    }
    proof {
        assert(w@ =~= s.subrange(0, w@.len() as int));
        assert(s.skip(w@.len() as int) =~= buf@.skip(pos + w@.len()));
    }
    Ok(((), pos + w.len()))
}

/// Reads a key at `pos`.
pub fn read_key(buf: &[u8], pos: usize) -> (r: Result<(String, usize), Halt>)
    requires
        pos <= buf.len(),
    ensures
        reads(r, buf@) == key(buf@.skip(pos as int)),
        r matches Ok((_, next)) ==> pos <= next <= buf.len(),
{
    let end = run_end(buf, pos, Class::Key);
    let ghost s = buf@.skip(pos as int);
    if end - pos > KEY_MAX {
        Err(Halt::Error)
    } else if end == buf.len() {
        Err(Halt::Incomplete)
    } else if end == pos {
        Err(Halt::Error)
    } else {
        let bytes = slice_to_vec(slice_subrange(buf, pos, end));
        proof {
            lemma_run(s, Class::Key);
            assert(bytes@ =~= s.take(end - pos));
            assert forall|i: int| 0 <= i < bytes@.len() implies #[trigger] bytes@[i] <= 0x7f by {
                assert(Class::Key.has(s[i]));
            }
            lemma_ascii_valid(bytes@);
            assert(s.skip(end - pos) =~= buf@.skip(end as int));
        }
        match string_from_utf8(bytes) {
            Some(k) => {
                proof {
                    lemma_utf8(k@);
                }
                Ok((k, end))
            },
            None => Err(Halt::Error),
        }
    }
}

/// Reads a number of at most `max` at `pos`.
pub fn read_number(buf: &[u8], pos: usize, max: u64) -> (r: Result<(u64, usize), Halt>)
    requires
        pos <= buf.len(),
    ensures
        reads(r, buf@) == number(buf@.skip(pos as int), max),
        r matches Ok((_, next)) ==> pos <= next <= buf.len(),
{
    let ghost s = buf@.skip(pos as int);
    let mut end: usize = pos;
    let mut value: u64 = 0;
    let mut over = false;
    while end < buf.len() && Class::Digit.holds(buf[end])
        invariant
            pos <= end <= buf.len(),
            s == buf@.skip(pos as int),
            forall|i: int| 0 <= i < end - pos ==> is_digit(#[trigger] s[i]),
            over == (decimal_value(s.take(end - pos)) > max),
            !over ==> value == decimal_value(s.take(end - pos)),
        decreases buf.len() - end,
    {
        let d: u64 = (buf[end] - 0x30) as u64;
        proof {
            assert(s[end - pos] == buf@[end as int]);
            assert(s.take(end - pos + 1) =~= s.take(end - pos).push(buf@[end as int]));
            lemma_value_push(s.take(end - pos), buf@[end as int]);
        }
        if !over {
            if value > max / 10 {
                over = true;
            } else {
                let tens: u64 = value * 10;
                if d > max - tens {
                    over = true;
                } else {
                    value = tens + d;
                }
            }
        }
        end += 1;
    }
    proof {
        lemma_run_is(s, Class::Digit, end - pos);
        assert(s.skip(end - pos) =~= buf@.skip(end as int));
    }
    if over {
        Err(Halt::Error)
    } else if end == buf.len() {
        Err(Halt::Incomplete)
    } else if end == pos {
        Err(Halt::Error)
    } else {
        Ok((value, end))
    }
}

/// Reads a message at `pos`.
pub fn read_line(buf: &[u8], pos: usize) -> (r: Result<(String, usize), Halt>)
    requires
        pos <= buf.len(),
    ensures
        reads(r, buf@) == line(buf@.skip(pos as int)),
        r matches Ok((_, next)) ==> pos <= next <= buf.len(),
{
    let end = run_end(buf, pos, Class::Text);
    let ghost s = buf@.skip(pos as int);
    if end == buf.len() {
        Err(Halt::Incomplete)
    } else {
        let bytes = slice_to_vec(slice_subrange(buf, pos, end));
        proof {
            assert(bytes@ =~= s.take(end - pos));
            assert(s.skip(end - pos) =~= buf@.skip(end as int));
        }
        match string_from_utf8(bytes) {
            Some(text) => {
                proof {
                    lemma_utf8(text@);
                }
                Ok((text, end))
            },
            None => Err(Halt::Error),
        }
    }
}

/// Reads a payload of `len` bytes at `pos`.
pub fn read_payload(buf: &[u8], pos: usize, len: usize) -> (r: Result<(Vec<u8>, usize), Halt>)
    requires
        pos <= buf.len(),
    ensures
        reads(r, buf@) == payload(buf@.skip(pos as int), len as nat),
        r matches Ok((_, next)) ==> pos <= next <= buf.len(),
{
    if len > buf.len() - pos {
        Err(Halt::Incomplete)
    } else {
        let data = slice_to_vec(slice_subrange(buf, pos, pos + len));
        proof {
            let s = buf@.skip(pos as int);
            assert(data@ =~= s.take(len as int));
            assert(s.skip(len as int) =~= buf@.skip(pos + len));
        }
        Ok((data, pos + len))
    }
}

/// Reads the flag ` noreply` at `pos`.
pub fn read_noreply(buf: &[u8], pos: usize) -> (r: Result<(bool, usize), Halt>)
    requires
        pos <= buf.len(),
    ensures
        reads(r, buf@) == noreply(buf@.skip(pos as int)),
        r matches Ok((_, next)) ==> pos <= next <= buf.len(),
{
    match read_tag(buf, pos, " noreply") {
        Ok((_, next)) => Ok((true, next)),
        Err(Halt::Incomplete) => Err(Halt::Incomplete),
        Err(Halt::Error) => Ok((false, pos)),
    }
}

/// Reads a space and a number of at most `max` at `pos`.
pub fn read_spaced(buf: &[u8], pos: usize, max: u64) -> (r: Result<(u64, usize), Halt>)
    requires
        pos <= buf.len(),
    ensures
        reads(r, buf@) == spaced(buf@.skip(pos as int), max),
        r matches Ok((_, next)) ==> pos <= next <= buf.len(),
{
    let (_, next) = read_tag(buf, pos, " ")?;
    read_number(buf, next, max)
}

/// Reads a space and a number of at most `max` at `pos`, where they are there.
pub fn read_opt_number(buf: &[u8], pos: usize, max: u64) -> (r: Result<
    (Option<u64>, usize),
    Halt,
>)
    requires
        pos <= buf.len(),
    ensures
        reads(r, buf@) == opt_number(buf@.skip(pos as int), max),
        r matches Ok((_, next)) ==> pos <= next <= buf.len(),
{
    match read_spaced(buf, pos, max) {
        Ok((n, next)) => Ok((Some(n), next)),
        Err(Halt::Incomplete) => Err(Halt::Incomplete),
        Err(Halt::Error) => Ok((None, pos)),
    }
}

/// Reads the end of a line, a payload of `len` bytes and the end of a line
/// at `pos`.
pub fn read_block(buf: &[u8], pos: usize, len: usize) -> (r: Result<(Vec<u8>, usize), Halt>)
    requires
        pos <= buf.len(),
    ensures
        reads(r, buf@) == block(buf@.skip(pos as int), len as nat),
        r matches Ok((_, next)) ==> pos < next <= buf.len(),
{
    let (_, next) = read_tag(buf, pos, "\r\n")?;
    let (data, next) = read_payload(buf, next, len)?;
    let (_, next) = read_tag(buf, next, "\r\n")?;
    proof {
        lemma_crlf();
    }
    Ok((data, next))
}

// ---------------------------------------------------------------------------
// Writing to a buffer

/// Appends a space and the numeral of `n` to `buf`.
pub fn push_field(buf: &mut Vec<u8>, n: u64)
    ensures
        final(buf)@ == old(buf)@ + field_bytes(n as nat),
{
    push_text(buf, " ");
    push_decimal(buf, n);
    assert(buf@ =~= old(buf)@ + field_bytes(n as nat));
}

/// Appends a space and the numeral of `n` to `buf`, where there is an `n`.
pub fn push_opt_number(buf: &mut Vec<u8>, n: Option<u64>)
    ensures
        final(buf)@ == old(buf)@ + opt_number_bytes(n),
{
    match n {
        Some(v) => push_field(buf, v),
        None => {
            assert(buf@ =~= old(buf)@ + opt_number_bytes(n));
        },
    }
}

/// Appends ` noreply` to `buf`, where `flag` is set.
pub fn push_noreply(buf: &mut Vec<u8>, flag: bool)
    ensures
        final(buf)@ == old(buf)@ + noreply_bytes(flag),
{
    if flag {
        push_text(buf, " noreply");
    } else {
        assert(buf@ =~= old(buf)@ + noreply_bytes(flag));
    }
}

/// Appends `data` to `buf`, on a line of its own.
pub fn push_block(buf: &mut Vec<u8>, data: &[u8])
    ensures
        final(buf)@ == old(buf)@ + block_bytes(data@),
{
    push_text(buf, "\r\n");
    push_bytes(buf, data);
    push_text(buf, "\r\n");
    assert(buf@ =~= old(buf)@ + block_bytes(data@));
}

// ---------------------------------------------------------------------------
// Pieces in a row
//
// A frame is its pieces one after the other. It is also its first piece and
// then all the others, however these are grouped: that is what is written
// behind a buffer, and what is read piece by piece.

/// Three pieces in a row.
pub proof fn lemma_join3(a: Seq<u8>, b: Seq<u8>, c: Seq<u8>)
    ensures
        a + b + c == a + (b + c),
{
    assert(a + b + c =~= a + (b + c));
}

/// Four pieces in a row.
pub proof fn lemma_join4(a: Seq<u8>, b: Seq<u8>, c: Seq<u8>, d: Seq<u8>)
    ensures
        a + b + c + d == a + (b + c + d),
        a + b + c + d == a + (b + (c + d)),
{
    assert(a + b + c + d =~= a + (b + c + d));
    assert(a + b + c + d =~= a + (b + (c + d)));
}

/// Five pieces in a row.
pub proof fn lemma_join5(a: Seq<u8>, b: Seq<u8>, c: Seq<u8>, d: Seq<u8>, e: Seq<u8>)
    ensures
        a + b + c + d + e == a + (b + c + d + e),
        a + b + c + d + e == a + (b + (c + (d + e))),
{
    assert(a + b + c + d + e =~= a + (b + c + d + e));
    assert(a + b + c + d + e =~= a + (b + (c + (d + e))));
}

/// Seven pieces in a row.
pub proof fn lemma_join7(
    a: Seq<u8>,
    b: Seq<u8>,
    c: Seq<u8>,
    d: Seq<u8>,
    e: Seq<u8>,
    f: Seq<u8>,
    g: Seq<u8>,
)
    ensures
        a + b + c + d + e + f + g == a + (b + c + d + e + f + g),
        a + b + c + d + e + f + g == a + (b + (c + (d + (e + (f + g))))),
{
    assert(a + b + c + d + e + f + g =~= a + (b + c + d + e + f + g));
    assert(a + b + c + d + e + f + g =~= a + (b + (c + (d + (e + (f + g))))));
}

/// Eight pieces in a row.
pub proof fn lemma_join8(
    a: Seq<u8>,
    b: Seq<u8>,
    c: Seq<u8>,
    d: Seq<u8>,
    e: Seq<u8>,
    f: Seq<u8>,
    g: Seq<u8>,
    h: Seq<u8>,
)
    ensures
        a + b + c + d + e + f + g + h == a + (b + c + d + e + f + g + h),
        a + b + c + d + e + f + g + h == a + (b + (c + (d + (e + (f + (g + h)))))),
{
    assert(a + b + c + d + e + f + g + h =~= a + (b + c + d + e + f + g + h));
    assert(a + b + c + d + e + f + g + h =~= a + (b + (c + (d + (e + (f + (g + h)))))));
}

} // verus!
