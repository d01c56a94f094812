use tokio_memcache::scan::Parsed;
use tokio_memcache::text::BuildError;
use tokio_memcache::Request;

fn bytes_of(req: &Request) -> Vec<u8> {
    let mut buf = Vec::new();
    assert_eq!(req.build(&mut buf), Ok(()));
    buf
}

fn key(text: &str) -> String {
    String::from(text)
}

fn every_kind(noreply: bool) -> Vec<(Request, &'static [u8], &'static [u8])> {
    vec![
        (
            Request::Put { key: key("abcd"), value: b"blah".to_vec(), flags: 0, expiry: 0, noreply },
            b"set abcd 0 0 4",
            b"\r\nblah\r\n",
        ),
        (
            Request::Add { key: key("k"), value: b"".to_vec(), flags: 65535, expiry: 4294967295, noreply },
            b"add k 65535 4294967295 0",
            b"\r\n\r\n",
        ),
        (
            Request::Replace { key: key("k1"), value: b"v\r\nw".to_vec(), flags: 10, expiry: 3600, noreply },
            b"replace k1 10 3600 4",
            b"\r\nv\r\nw\r\n",
        ),
        (
            Request::Append { key: key("k"), value: b"tail".to_vec(), noreply },
            b"append k 4",
            b"\r\ntail\r\n",
        ),
        (
            Request::Prepend { key: key("k"), value: b"head!".to_vec(), noreply },
            b"prepend k 5",
            b"\r\nhead!\r\n",
        ),
        (
            Request::Cas {
                key: key("k"),
                value: b"new".to_vec(),
                flags: 1,
                expiry: 2,
                cas: 18446744073709551615,
                noreply,
            },
            b"cas k 1 2 3 18446744073709551615",
            b"\r\nnew\r\n",
        ),
        (Request::Delete { key: key("gone") , noreply }, b"delete gone", b"\r\n"),
        (Request::Incr { key: key("counter"), value: 1, noreply }, b"incr counter 1", b"\r\n"),
        (
            Request::Decr { key: key("counter"), value: 18446744073709551615, noreply },
            b"decr counter 18446744073709551615",
            b"\r\n",
        ),
        (Request::Touch { key: key("k"), expiry: 4294967295, noreply }, b"touch k 4294967295", b"\r\n"),
        (Request::FlushAll { delay: Some(30), noreply }, b"flush_all 30", b"\r\n"),
        (Request::FlushAll { delay: None, noreply }, b"flush_all", b"\r\n"),
    ]
}

fn without_flag() -> Vec<(Request, &'static [u8])> {
    vec![
        (Request::Get { keys: vec![key("missing")] }, b"get missing\r\n"),
        (Request::Get { keys: vec![] }, b"get\r\n"),
        (Request::Get { keys: vec![key("a"), key("b"), key("gets")] }, b"get a b gets\r\n"),
        (Request::Gets { keys: vec![key("abcd")] }, b"gets abcd\r\n"),
        (Request::Gets { keys: vec![] }, b"gets\r\n"),
        (Request::Gets { keys: vec![key("s"), key("get")] }, b"gets s get\r\n"),
        (Request::Version, b"version\r\n"),
    ]
}

fn all_frames() -> Vec<(Request, Vec<u8>)> {
    let mut frames = Vec::new();
    for noreply in [false, true] {
        for (req, head, tail) in every_kind(noreply) {
            let flag: &[u8] = if noreply { b" noreply" } else { b"" };
            frames.push((req, [head, flag, tail].concat()));
        }
    }
    for (req, bytes) in without_flag() {
        frames.push((req, bytes.to_vec()));
    }
    frames
}

#[test]
fn request_is_written_as_the_grammar_says() {
    for (req, bytes) in all_frames() {
        assert_eq!(bytes_of(&req), bytes, "{:?}", req);
    }
}

#[test]
fn request_round_trip() {
    for (req, bytes) in all_frames() {
        assert_eq!(Request::parse(&bytes), Parsed::Done(req, bytes.len()));
    }
}

#[test]
fn request_leaves_what_follows() {
    for (req, bytes) in all_frames() {
        for tail in [&b"get a\r\n"[..], b" ", b"0", b"\r\n", b"noreply"] {
            let both = [bytes.as_slice(), tail].concat();
            assert_eq!(Request::parse(&both), Parsed::Done(req.clone(), bytes.len()));
        }
    }
}

#[test]
fn request_cut_short_is_incomplete() {
    for (req, bytes) in all_frames() {
        for n in 0..bytes.len() {
            assert_eq!(Request::parse(&bytes[..n]), Parsed::Incomplete, "{:?} cut at {}", req, n);
        }
    }
}

#[test]
fn binary_safe_value() {
    let payload = b"a\r\nb\x00c".to_vec();
    assert_eq!(payload.len(), 6);
    let req = Request::Put { key: key("k"), value: payload.clone(), flags: 0, expiry: 0, noreply: false };
    let bytes = bytes_of(&req);
    assert_eq!(bytes, b"set k 0 0 6\r\na\r\nb\x00c\r\n");
    match Request::parse(&bytes) {
        Parsed::Done(Request::Put { value, .. }, used) => {
            assert_eq!(value, payload);
            assert_eq!(used, bytes.len());
        },
        other => panic!("{:?}", other),
    }
}

#[test]
fn binary_safe_value_of_seven_bytes() {
    let payload = b"a\r\nb\x00c\xff".to_vec();
    assert_eq!(payload.len(), 7);
    let req = Request::Put { key: key("k"), value: payload, flags: 0, expiry: 0, noreply: false };
    let bytes = bytes_of(&req);
    assert_eq!(bytes, b"set k 0 0 7\r\na\r\nb\x00c\xff\r\n");
    assert_eq!(Request::parse(&bytes), Parsed::Done(req, bytes.len()));
}

#[test]
fn payload_is_as_long_as_the_header_says() {
    assert_eq!(Request::parse(b"set k 0 0 7\r\na\r\nb\x00c\r\n"), Parsed::Error);
    assert_eq!(Request::parse(b"set k 0 0 5\r\na\r\nb\x00c\r\n"), Parsed::Error);
    assert_eq!(Request::parse(b"set k 0 0 8\r\na\r\nb\x00c\r\n"), Parsed::Incomplete);
}

#[test]
fn payload_comes_back_byte_for_byte() {
    let mut payload = Vec::new();
    for round in 0..4u32 {
        for b in 0..=255u8 {
            payload.push(b.wrapping_add(round as u8));
        }
        payload.extend_from_slice(b"\r\nEND\r\n");
    }
    let req = Request::Put { key: key("k"), value: payload, flags: 0, expiry: 0, noreply: false };
    let bytes = bytes_of(&req);
    assert_eq!(Request::parse(&bytes), Parsed::Done(req, bytes.len()));
}

#[test]
fn storage_command_waits_for_its_whole_payload() {
    assert_eq!(Request::parse(b"set k 0 0 10\r\n123456789"), Parsed::Incomplete);
    assert_eq!(Request::parse(b"set k 0 0 10\r\n1234567890"), Parsed::Incomplete);
    assert_eq!(Request::parse(b"set k 0 0 10\r\n1234567890\r"), Parsed::Incomplete);
    assert_eq!(Request::parse(b"set k 0 0 10\r\n1234567890\rX"), Parsed::Error);
    assert_eq!(Request::parse(b"set k 0 0 10\r\n12345678901\r\n"), Parsed::Error);
}

#[test]
fn gets_is_not_taken_for_get() {
    assert_eq!(Request::parse(b"gets a\r\n"), Parsed::Done(Request::Gets { keys: vec![key("a")] }, 8));
    assert_eq!(Request::parse(b"get s\r\n"), Parsed::Done(Request::Get { keys: vec![key("s")] }, 7));
    assert_eq!(Request::parse(b"get"), Parsed::Incomplete);
    assert_eq!(Request::parse(b"gets"), Parsed::Incomplete);
    assert_eq!(Request::parse(b"getx\r\n"), Parsed::Error);
    assert_eq!(Request::parse(b"getsx\r\n"), Parsed::Error);
}

#[test]
fn flush_all_with_a_stray_space() {
    assert_eq!(
        Request::parse(b"flush_all \r\n"),
        Parsed::Done(Request::FlushAll { delay: None, noreply: false }, 12)
    );
    assert_eq!(
        Request::parse(b"flush_all\r\n"),
        Parsed::Done(Request::FlushAll { delay: None, noreply: false }, 11)
    );
    assert_eq!(Request::parse(b"flush_all "), Parsed::Incomplete);
    assert_eq!(Request::parse(b"flush_all  \r\n"), Parsed::Error);
    assert_eq!(Request::parse(b"flush_all 5 \r\n"), Parsed::Error);
    assert_eq!(Request::parse(b"flush_all noreply \r\n"), Parsed::Error);
    assert_eq!(Request::parse(b"flush_all 4294967296\r\n"), Parsed::Error);
    assert_eq!(
        Request::parse(b"flush_all noreply\r\n"),
        Parsed::Done(Request::FlushAll { delay: None, noreply: true }, 19)
    );
}

#[test]
fn unknown_command_is_an_error() {
    let wrong: Vec<&[u8]> = vec![
        b"bogus\r\n",
        b"SET k 0 0 1\r\nx\r\n",
        b"\r\n",
        b" get a\r\n",
        b"stats\r\n",
        b"version \r\n",
        b"version\n",
        b"setk 0 0 1\r\nx\r\n",
        b"\x80\x01\x00\x03",
    ];
    for bytes in wrong {
        assert_eq!(Request::parse(bytes), Parsed::Error, "{:?}", bytes);
    }
}

#[test]
fn number_that_does_not_fit_is_an_error() {
    let wrong: Vec<&[u8]> = vec![
        b"set k 65536 0 1\r\nx\r\n",
        b"set k 0 4294967296 1\r\nx\r\n",
        b"set k 0 0 4294967296\r\n",
        b"cas k 0 0 1 18446744073709551616\r\nx\r\n",
        b"incr k 18446744073709551616\r\n",
        b"decr k 99999999999999999999999999\r\n",
        b"touch k 4294967296\r\n",
        b"incr k -1\r\n",
        b"incr k +1\r\n",
        b"incr k 1.5\r\n",
        b"incr k \r\n",
    ];
    for bytes in wrong {
        assert_eq!(Request::parse(bytes), Parsed::Error, "{:?}", bytes);
    }
    assert_eq!(
        Request::parse(b"incr k 0018446744073709551615\r\n"),
        Parsed::Done(Request::Incr { key: key("k"), value: u64::MAX, noreply: false }, 31)
    );
}

#[test]
fn key_outside_the_grammar_is_an_error() {
    let long = [&b"delete "[..], &[b'k'; 251], b"\r\n"].concat();
    let longest = [&b"delete "[..], &[b'k'; 250], b"\r\n"].concat();
    assert_eq!(Request::parse(&long), Parsed::Error);
    assert_eq!(
        Request::parse(&longest),
        Parsed::Done(Request::Delete { key: "k".repeat(250), noreply: false }, longest.len())
    );
    assert_eq!(Request::parse(b"delete \r\n"), Parsed::Error);
    assert_eq!(Request::parse(b"delete a\tb\r\n"), Parsed::Error);
    assert_eq!(Request::parse(b"delete a b\r\n"), Parsed::Error);
    assert_eq!(Request::parse(b"delete caf\xc3\xa9\r\n"), Parsed::Error);
    assert_eq!(Request::parse(b"get \r\n"), Parsed::Error);
    assert_eq!(Request::parse(b"get a  b\r\n"), Parsed::Error);
}

#[test]
fn command_with_a_bad_key_is_refused() {
    let long = "k".repeat(251);
    let bad = ["", "a b", "a\tb", "a\rb", "a\nb", "a\x7f", "\u{e9}", long.as_str()];
    for text in bad {
        let commands = vec![
            Request::Put { key: key(text), value: vec![], flags: 0, expiry: 0, noreply: false },
            Request::Add { key: key(text), value: vec![], flags: 0, expiry: 0, noreply: false },
            Request::Replace { key: key(text), value: vec![], flags: 0, expiry: 0, noreply: false },
            Request::Append { key: key(text), value: vec![], noreply: false },
            Request::Prepend { key: key(text), value: vec![], noreply: false },
            Request::Cas { key: key(text), value: vec![], flags: 0, expiry: 0, cas: 0, noreply: false },
            Request::Get { keys: vec![key("good"), key(text)] },
            Request::Gets { keys: vec![key(text), key("good")] },
            Request::Delete { key: key(text), noreply: false },
            Request::Incr { key: key(text), value: 1, noreply: false },
            Request::Decr { key: key(text), value: 1, noreply: false },
            Request::Touch { key: key(text), expiry: 1, noreply: false },
        ];
        for req in commands {
            let mut buf = b"before".to_vec();
            assert_eq!(req.build(&mut buf), Err(BuildError::BadKey), "{:?}", req);
            assert_eq!(buf, b"before");
            assert_eq!(req.check(), Err(BuildError::BadKey));
        }
    }
}

#[test]
fn command_says_whether_it_awaits_a_reply() {
    for (req, _) in all_frames() {
        let expected = format!("{:?}", req).contains("noreply: true");
        assert_eq!(req.noreply(), expected, "{:?}", req);
    }
}

#[test]
fn command_that_a_client_cannot_send() {
    for (req, bytes) in all_frames() {
        assert_eq!(req.sendable(), Ok(()), "{:?}", req);
        let mut buf = b"before".to_vec();
        assert_eq!(req.send(&mut buf), Ok(()));
        assert_eq!(buf, [&b"before"[..], bytes.as_slice()].concat());
    }
    let bad = Request::Delete { key: key("two words"), noreply: false };
    assert_eq!(bad.sendable(), Err(BuildError::BadKey));
    let long = Request::Delete { key: "k".repeat(250), noreply: false };
    assert_eq!(long.check(), Ok(()));
    assert_eq!(long.sendable(), Err(BuildError::LineTooLong));
    let mut buf = b"before".to_vec();
    assert_eq!(long.send(&mut buf), Err(BuildError::LineTooLong));
    assert_eq!(buf, b"before");
    let fits = Request::Delete { key: "k".repeat(247), noreply: false };
    assert_eq!(fits.sendable(), Ok(()));
    let over = Request::Delete { key: "k".repeat(248), noreply: false };
    assert_eq!(over.sendable(), Err(BuildError::LineTooLong));
}
