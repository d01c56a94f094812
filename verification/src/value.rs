//! The record of one cached value, as it stands in a reply.

use crate::scan::{block, block_bytes, cut_of, field_bytes, key, lemma_block_cut,
    lemma_block_reads, lemma_join7, lemma_key_cut, lemma_key_reads, lemma_opt_number_cut,
    lemma_opt_number_reads, lemma_spaced_cut, lemma_spaced_reads, lemma_starts, lemma_tag_cut,
    lemma_tag_reads, opt_number, opt_number_bytes, parsed, push_block, push_field,
    push_opt_number, read_block, read_key, read_opt_number, read_spaced, read_tag, reads, spaced,
    tag, Halt, Parsed, Scan};
use crate::text::{check_key, key_ok, push_text, utf8, BuildError};
use vstd::prelude::*;

verus! {

/// One cached value: its key, its bytes, the flags stored with it, and the
/// token of the version that was read, where one was asked for.
#[derive(Clone, Debug, Default, PartialEq, Eq)]
pub struct Value {
    pub key: String,
    pub value: Vec<u8>,
    pub flags: u16,
    pub cas: Option<u64>,
}

/// A [`Value`] as plain data.
pub struct ValueView {
    pub key: Seq<char>,
    pub value: Seq<u8>,
    pub flags: u16,
    pub cas: Option<u64>,
}

impl View for Value {
    type V = ValueView;

    open spec fn view(&self) -> ValueView {
        ValueView { key: self.key@, value: self.value@, flags: self.flags, cas: self.cas }
    }
}

impl ValueView {
    /// Why this record cannot be written, if it cannot.
    pub open spec fn check(self) -> Result<(), BuildError> {
        if !key_ok(self.key) {
            Err(BuildError::BadKey)
        } else if self.value.len() > u32::MAX {
            Err(BuildError::PayloadTooLong)
        } else {
            Ok(())
        }
    }

    /// Whether this record can be written: its key is one, and the length of
    /// its payload fits 32 bits.
    pub open spec fn wf(self) -> bool {
        self.check() is Ok
    }
}

/// A value record on the wire:
/// `VALUE <key> <flags> <length>[ <cas>]\r\n<payload>\r\n`.
pub open spec fn value_bytes(v: ValueView) -> Seq<u8> {
    utf8("VALUE "@) + utf8(v.key) + field_bytes(v.flags as nat) + field_bytes(v.value.len())
        + opt_number_bytes(v.cas) + block_bytes(v.value)
}

/// Reading a value record from the front of `s`.
#[verifier::opaque]
pub open spec fn parse_value(s: Seq<u8>) -> Scan<ValueView> {
    let word = tag(s, utf8("VALUE "@));
    let key = key(word.rest());
    let flags = spaced(key.rest(), u16::MAX as u64);
    let len = spaced(flags.rest(), u32::MAX as u64);
    let cas = opt_number(len.rest(), u64::MAX);
    let data = block(cas.rest(), len.value() as nat);
    word.and(key).and(flags).and(len).and(cas).and(data).and(
        Scan::Done(
            ValueView {
                key: key.value(),
                value: data.value(),
                flags: flags.value() as u16,
                cas: cas.value(),
            },
            data.rest(),
        ),
    )
}

/// A record that was written is read back as it was, and what follows it is
/// left.
pub proof fn lemma_value_reads(v: ValueView, rest: Seq<u8>)
    requires
        v.wf(),
    ensures
        parse_value(value_bytes(v) + rest) == Scan::Done(v, rest),
{
    reveal(parse_value);
    let len = v.value.len() as u64;
    let t5 = block_bytes(v.value) + rest;
    let t4 = opt_number_bytes(v.cas) + t5;
    let t3 = field_bytes(len as nat) + t4;
    let t2 = field_bytes(v.flags as nat) + t3;
    let t1 = utf8(v.key) + t2;
    lemma_join7(
        utf8("VALUE "@),
        utf8(v.key),
        field_bytes(v.flags as nat),
        field_bytes(len as nat),
        opt_number_bytes(v.cas),
        block_bytes(v.value),
        rest,
    );
    lemma_starts(v.flags as nat, v.cas, false, v.value, t3);
    lemma_starts(len as nat, v.cas, false, v.value, t4);
    lemma_starts(0, v.cas, false, v.value, rest);
    lemma_starts(0, v.cas, false, v.value, t5);
    lemma_tag_reads(utf8("VALUE "@), t1);
    lemma_key_reads(v.key, t2);
    lemma_spaced_reads(v.flags as u64, u16::MAX as u64, t3);
    lemma_spaced_reads(len, u32::MAX as u64, t4);
    lemma_opt_number_reads(v.cas, u64::MAX, t5);
    lemma_block_reads(v.value, rest);
}

/// A record read from an input that was cut short is the record read from
/// the whole input, or a call for more bytes.
pub proof fn lemma_value_cut(a: Seq<u8>, b: Seq<u8>)
    ensures
        a.is_prefix_of(b) ==> cut_of(parse_value(a), parse_value(b), b.len() - a.len()),
{
    reveal(parse_value);
    lemma_tag_cut(a, b, utf8("VALUE "@));
    let (a, b) = (tag(a, utf8("VALUE "@)).rest(), tag(b, utf8("VALUE "@)).rest());
    lemma_key_cut(a, b);
    let (a, b) = (key(a).rest(), key(b).rest());
    lemma_spaced_cut(a, b, u16::MAX as u64);
    let (a, b) = (spaced(a, u16::MAX as u64).rest(), spaced(b, u16::MAX as u64).rest());
    lemma_spaced_cut(a, b, u32::MAX as u64);
    let len = spaced(b, u32::MAX as u64).value() as nat;
    let (a, b) = (spaced(a, u32::MAX as u64).rest(), spaced(b, u32::MAX as u64).rest());
    lemma_opt_number_cut(a, b, u64::MAX);
    let (a, b) = (opt_number(a, u64::MAX).rest(), opt_number(b, u64::MAX).rest());
    lemma_block_cut(a, b, len);
}

/// Reads a value record at `pos`.
pub fn read_value(buf: &[u8], pos: usize) -> (r: Result<(Value, usize), Halt>)
    requires
        pos <= buf.len(),
    ensures
        reads(r, buf@) == parse_value(buf@.skip(pos as int)),
        r matches Ok((_, next)) ==> pos < next <= buf.len(),
{
    proof {
        reveal(parse_value);
    }
    let (_, p) = read_tag(buf, pos, "VALUE ")?;
    let (key, p) = read_key(buf, p)?;
    let (flags, p) = read_spaced(buf, p, u16::MAX as u64)?;
    let (len, p) = read_spaced(buf, p, u32::MAX as u64)?;
    let (cas, p) = read_opt_number(buf, p, u64::MAX)?;
    let (value, p) = read_block(buf, p, len as usize)?;
    Ok((Value { key, value, flags: flags as u16, cas }, p))
}

impl Value {
    /// Why this record cannot be written, if it cannot.
    pub fn check(&self) -> (r: Result<(), BuildError>)
        ensures
            r == self@.check(),
    {
        if !check_key(&self.key) {
            Err(BuildError::BadKey)
        } else if self.value.len() > u32::MAX as usize {
            Err(BuildError::PayloadTooLong)
        } else {
            Ok(())
        }
    }

    /// Appends this record to `buf` as it stands on the wire, unchecked.
    pub fn push(&self, buf: &mut Vec<u8>)
        ensures
            final(buf)@ == old(buf)@ + value_bytes(self@),
    {
        push_text(buf, "VALUE ");
        push_text(buf, self.key.as_str());
        push_field(buf, self.flags as u64);
        push_field(buf, self.value.len() as u64);
        push_opt_number(buf, self.cas);
        push_block(buf, self.value.as_slice());
        proof {
            lemma_join7(
                old(buf)@,
                utf8("VALUE "@),
                utf8(self.key@),
                field_bytes(self.flags as nat),
                field_bytes(self.value@.len()),
                opt_number_bytes(self.cas),
                block_bytes(self.value@),
            );
        }
    }

    /// Appends this record to `buf` as it stands on the wire. A record that
    /// cannot be written is refused, and `buf` stays as it was.
    pub fn build(&self, buf: &mut Vec<u8>) -> (r: Result<(), BuildError>)
        ensures
            r == self@.check(),
            r is Ok ==> final(buf)@ == old(buf)@ + value_bytes(self@),
            r is Err ==> final(buf)@ == old(buf)@,
    {
        self.check()?;
        self.push(buf);
        Ok(())
    }

    /// Reads one record from the front of `buf`.
    pub fn parse(buf: &[u8]) -> (r: Parsed<Value>)
        ensures
            r.scan(buf@) == parse_value(buf@),
            r matches Parsed::Done(_, used) ==> 0 < used <= buf.len(),
    {
        assert(buf@.skip(0) =~= buf@);
        parsed(read_value(buf, 0))
    }
}

} // verus!
