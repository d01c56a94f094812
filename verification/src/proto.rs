//! Frames in a byte stream: the two ends of a connection, each writing its
//! own frames and reading the other's from the bytes that have arrived.

use crate::request::{parse_request, read_request, request_bytes, Request, RequestView};
use crate::response::{parse_response, read_response, response_bytes, Response, ResponseView};
use crate::scan::{Halt, Scan};
use crate::text::BuildError;
use tokio_core::io::EasyBuf;
use vstd::prelude::*;

verus! {

/// The bytes that have arrived and were not yet read as frames, in a buffer
/// that gives up its front without moving the rest.
#[verifier::external_body]
pub struct ReadBuf {
    inner: EasyBuf,
}

/// The bytes that a buffer holds, first to last.
pub uninterp spec fn held(buf: ReadBuf) -> Seq<u8>;

/// `EasyBuf::from`: a buffer that holds the bytes of the vector.
#[verifier::external_body]
fn easy_from(bytes: Vec<u8>) -> (buf: ReadBuf)
    ensures
        held(buf) == bytes@,
{
    ReadBuf { inner: EasyBuf::from(bytes) }
}

/// `EasyBuf::as_slice`: the bytes that the buffer holds.
#[verifier::external_body]
fn easy_slice(buf: &ReadBuf) -> (bytes: &[u8])
    ensures
        bytes@ == held(*buf),
{
    buf.inner.as_slice()
}

/// `EasyBuf::drain_to`: takes the first `at` bytes out of the buffer, which
/// keeps the others. It panics where the buffer holds fewer than `at` bytes.
#[verifier::external_body]
fn easy_drain(buf: &mut ReadBuf, at: usize)
    requires
        at <= held(*old(buf)).len(),
    ensures
        held(*final(buf)) == held(*old(buf)).skip(at as int),
{
    buf.inner.drain_to(at);
}

/// `EasyBuf::get_mut`, and `Vec::extend_from_slice` on what it gives: the
/// bytes that the buffer holds, as a vector to change. What is appended to
/// that vector, the buffer holds behind what it held.
#[verifier::external_body]
fn easy_extend(buf: &mut ReadBuf, bytes: &[u8])
    ensures
        held(*final(buf)) == held(*old(buf)) + bytes@,
{
    buf.inner.get_mut().extend_from_slice(bytes);
}

impl View for ReadBuf {
    type V = Seq<u8>;

    open spec fn view(&self) -> Seq<u8> {
        held(*self)
    }
}

impl ReadBuf {
    /// A buffer that holds `bytes`.
    pub fn from_vec(bytes: Vec<u8>) -> (buf: ReadBuf)
        ensures
            buf@ == bytes@,
    {
        easy_from(bytes)
    }

    /// A buffer that holds nothing.
    pub fn new() -> (buf: ReadBuf)
        ensures
            buf@ == Seq::<u8>::empty(),
    {
        easy_from(Vec::new())
    }

    /// The bytes that the buffer holds.
    pub fn as_slice(&self) -> (bytes: &[u8])
        ensures
            bytes@ == self@,
    {
        easy_slice(self)
    }

    /// The number of bytes that the buffer holds.
    pub fn len(&self) -> (n: usize)
        ensures
            n == self@.len(),
    {
        easy_slice(self).len()
    }

    /// Puts `bytes` behind what the buffer holds.
    pub fn extend(&mut self, bytes: &[u8])
        ensures
            final(self)@ == old(self)@ + bytes@,
    {
        easy_extend(self, bytes)
    }

    /// Takes the first `at` bytes out of the buffer, or all where it holds
    /// fewer.
    pub fn advance(&mut self, at: usize)
        ensures
            final(self)@ == if at <= old(self)@.len() {
                old(self)@.skip(at as int)
            } else {
                Seq::<u8>::empty()
            },
    {
        let n = self.len();
        if at <= n {
            easy_drain(self, at);
        } else {
            easy_drain(self, n);
            assert(old(self)@.skip(n as int) =~= Seq::<u8>::empty());
        }
    }
}

/// Why bytes that arrived were not read.
#[derive(Clone, Copy, Debug, PartialEq, Eq)]
pub enum FrameError {
    /// The bytes are no command.
    BadCommand,
    /// The bytes are no reply.
    BadReply,
}

/// What came of reading a frame from a buffer that held `before` and holds
/// `after`, where `scan` is what the front of `before` reads as: a frame is
/// taken out of the buffer, a call for more bytes or a failure leaves the
/// buffer as it was.
pub open spec fn decoded<T: View>(
    scan: Scan<T::V>,
    before: Seq<u8>,
    after: Seq<u8>,
    r: Result<Option<T>, FrameError>,
) -> bool {
    match scan {
        Scan::Done(frame, rest) => r matches Ok(Some(found)) && found@ == frame && after == rest,
        Scan::Incomplete => r matches Ok(None) && after == before,
        Scan::Error => r is Err && after == before,
    }
}

/// Where the line that starts at or behind `from` ends: behind the first
/// `\r\n` that stands there.
pub open spec fn line_end(s: Seq<u8>, from: int) -> Option<int>
    decreases s.len() - from,
{
    if from < 0 || from + 2 > s.len() {
        None
    } else if s[from] == 0x0d && s[from + 1] == 0x0a {
        Some(from + 2)
    } else {
        line_end(s, from + 1)
    }
}

/// The reply to a line that is no command.
pub open spec fn bad_command() -> ResponseView {
    ResponseView::ClientError("bad command line"@)
}

/// The longest payload that a server takes from a command, in bytes.
pub const VALUE_MAX: usize = 1048576;

/// The reply to a command whose payload is longer than a server takes.
pub open spec fn too_large() -> ResponseView {
    ResponseView::ClientError("object too large for cache"@)
}

/// What a server has to deal with next.
#[derive(Clone, Debug, PartialEq, Eq)]
pub enum Arrival {
    /// A command, to hand to the backend.
    Command(Request),
    /// The reply to bytes that the server does not take as a command.
    Refused(Response),
}

/// An [`Arrival`] as plain data.
pub enum ArrivalView {
    Command(RequestView),
    Refused(ResponseView),
}

impl View for Arrival {
    type V = ArrivalView;

    open spec fn view(&self) -> ArrivalView {
        match *self {
            Arrival::Command(req) => ArrivalView::Command(req@),
            Arrival::Refused(rsp) => ArrivalView::Refused(rsp@),
        }
    }
}

/// What a server that goes on after bad bytes makes of a buffer that holds
/// `before`: what it has to deal with next, if anything, and what the buffer
/// holds afterwards.
///
/// A command is taken out of the buffer; where its payload is longer than
/// 1 MiB, the reply that says so takes its place. A call for more bytes
/// leaves the buffer as it was. What is no command is taken out up to the
/// end of its line, and answered with the reply that says so; while that
/// line has not ended, the buffer stays as it was.
pub open spec fn received(before: Seq<u8>) -> (Option<ArrivalView>, Seq<u8>) {
    match parse_request(before) {
        Scan::Done(frame, rest) => if frame.payload_len() matches Some(len) && len > VALUE_MAX {
            (Some(ArrivalView::Refused(too_large())), rest)
        } else {
            (Some(ArrivalView::Command(frame)), rest)
        },
        Scan::Incomplete => (None, before),
        Scan::Error => match line_end(before, 0) {
            Some(end) => (Some(ArrivalView::Refused(bad_command())), before.skip(end)),
            None => (None, before),
        },
    }
}

/// The client's end: writes commands, reads replies.
#[derive(Clone, Copy, Debug, Default)]
pub struct ClientCodec;

/// The server's end: reads commands, writes replies.
#[derive(Clone, Copy, Debug, Default)]
pub struct ServerCodec;

impl ClientCodec {
    /// Appends `req` to `buf` as it stands on the wire. A command that cannot
    /// be written, or whose first line is longer than 256 bytes, is refused,
    /// and `buf` stays as it was.
    pub fn encode(&mut self, req: Request, buf: &mut Vec<u8>) -> (r: Result<(), BuildError>)
        ensures
            r == req@.sendable(),
            r is Ok ==> final(buf)@ == old(buf)@ + request_bytes(req@),
            r is Err ==> final(buf)@ == old(buf)@,
    {
        req.send(buf)
    }

    /// Reads one reply from the front of `buf` and takes its bytes out.
    /// Where the reply has not arrived whole, or what arrived is no reply,
    /// `buf` stays as it was.
    pub fn decode(&mut self, buf: &mut ReadBuf) -> (r: Result<Option<Response>, FrameError>)
        ensures
            decoded(parse_response(old(buf)@), old(buf)@, final(buf)@, r),
            r is Err ==> r == Err::<Option<Response>, FrameError>(FrameError::BadReply),
    {
        let found = {
            let bytes = buf.as_slice();
            assert(bytes@.skip(0) =~= bytes@);
            read_response(bytes, 0)
        };
        match found {
            Ok((frame, used)) => {
                buf.advance(used);
                Ok(Some(frame))
            },
            Err(Halt::Incomplete) => Ok(None),
            Err(Halt::Error) => Err(FrameError::BadReply),
        }
    }
}

impl ServerCodec {
    /// Reads one command from the front of `buf` and takes its bytes out.
    /// Where the command has not arrived whole, or what arrived is no
    /// command, `buf` stays as it was.
    ///
    /// This fails on bytes that are no command, and leaves them where they
    /// are. A server that is to answer such bytes and go on reads with
    /// [`ServerCodec::receive`] instead.
    pub fn decode(&mut self, buf: &mut ReadBuf) -> (r: Result<Option<Request>, FrameError>)
        ensures
            decoded(parse_request(old(buf)@), old(buf)@, final(buf)@, r),
            r is Err ==> r == Err::<Option<Request>, FrameError>(FrameError::BadCommand),
    {
        let found = {
            let bytes = buf.as_slice();
            assert(bytes@.skip(0) =~= bytes@);
            read_request(bytes, 0)
        };
        match found {
            Ok((frame, used)) => {
                buf.advance(used);
                Ok(Some(frame))
            },
            Err(Halt::Incomplete) => Ok(None),
            Err(Halt::Error) => Err(FrameError::BadCommand),
        }
    }

    /// Gives up on the line at the front of `buf`, which is no command: takes
    /// it out, with the end of the line, and gives the reply that says so.
    /// Where the line has not ended yet, `buf` stays as it was and there is
    /// nothing to reply.
    pub fn reject(&mut self, buf: &mut ReadBuf) -> (r: Option<Response>)
        ensures
            match line_end(old(buf)@, 0) {
                Some(end) => r matches Some(rsp) && rsp@ == bad_command() && final(buf)@ == old(
                    buf,
                )@.skip(end),
                None => r is None && final(buf)@ == old(buf)@,
            },
    {
        let end = {
            let bytes = buf.as_slice();
            let mut at: usize = 0;
            let mut end: Option<usize> = None;
            while end.is_none() && at < bytes.len() && bytes.len() - at >= 2
                invariant
                    at <= bytes.len(),
                    line_end(bytes@, 0) == match end {
                        Some(found) => Some(found as int),
                        None => line_end(bytes@, at as int),
                    },
                    end matches Some(found) ==> found <= bytes.len(),
                decreases bytes.len() - at + if end is None { 1int } else { 0int },
            {
                if bytes[at] == 0x0d && bytes[at + 1] == 0x0a {
                    end = Some(at + 2);
                } else {
                    at += 1;
                }
            }
            end
        };
        match end {
            Some(end) => {
                buf.advance(end);
                Some(Response::ClientError("bad command line".to_owned()))
            },
            None => None,
        }
    }

    /// Reads what the server has to deal with next from the front of `buf`,
    /// and goes on after bad bytes: these are answered, not failed on.
    pub fn receive(&mut self, buf: &mut ReadBuf) -> (r: Option<Arrival>)
        ensures
            final(buf)@ == received(old(buf)@).1,
            match received(old(buf)@).0 {
                Some(arrival) => r matches Some(found) && found@ == arrival,
                None => r is None,
            },
    {
        let found = {
            let bytes = buf.as_slice();
            assert(bytes@.skip(0) =~= bytes@);
            read_request(bytes, 0)
        };
        match found {
            Ok((frame, used)) => {
                buf.advance(used);
                let large = match frame.payload_len() {
                    Some(len) => len > VALUE_MAX,
                    None => false,
                };
                if large {
                    Some(
                        Arrival::Refused(
                            Response::ClientError("object too large for cache".to_owned()),
                        ),
                    )
                } else {
                    Some(Arrival::Command(frame))
                }
            },
            Err(Halt::Incomplete) => None,
            Err(Halt::Error) => match self.reject(buf) {
                Some(rsp) => Some(Arrival::Refused(rsp)),
                None => None,
            },
        }
    }

    /// Appends `rsp` to `buf` as it stands on the wire. A reply that cannot
    /// be written is refused, and `buf` stays as it was.
    pub fn encode(&mut self, rsp: Response, buf: &mut Vec<u8>) -> (r: Result<(), BuildError>)
        ensures
            r == rsp@.check(),
            r is Ok ==> final(buf)@ == old(buf)@ + response_bytes(rsp@),
            r is Err ==> final(buf)@ == old(buf)@,
    {
        rsp.build(buf)
    }
}

} // verus!
