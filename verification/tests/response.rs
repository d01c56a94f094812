use tokio_memcache::scan::Parsed;
use tokio_memcache::text::BuildError;
use tokio_memcache::{Response, Value};

fn value(key: &str, payload: &[u8], flags: u16, cas: Option<u64>) -> Value {
    Value { key: String::from(key), value: payload.to_vec(), flags, cas }
}

fn all_replies() -> Vec<(Response, &'static [u8])> {
    vec![
        (Response::Error, b"ERROR\r\n"),
        (Response::ClientError(String::from("bad command line")), b"CLIENT_ERROR bad command line\r\n"),
        (Response::ClientError(String::new()), b"CLIENT_ERROR \r\n"),
        (Response::ServerError(String::from("out of memory")), b"SERVER_ERROR out of memory\r\n"),
        (Response::ServerError(String::from("caf\u{e9} \u{2014} ferm\u{e9}")), "SERVER_ERROR caf\u{e9} \u{2014} ferm\u{e9}\r\n".as_bytes()),
        (Response::Stored, b"STORED\r\n"),
        (Response::NotStored, b"NOT STORED\r\n"),
        (Response::Exists, b"EXISTS\r\n"),
        (Response::NotFound, b"NOT FOUND\r\n"),
        (Response::Values(vec![]), b"END\r\n"),
        (Response::Values(vec![value("abcd", b"blah", 0, None)]), b"VALUE abcd 0 4\r\nblah\r\nEND\r\n"),
        (Response::Values(vec![value("abcd", b"blah", 0, Some(8))]), b"VALUE abcd 0 4 8\r\nblah\r\nEND\r\n"),
        (
            Response::Values(vec![value("a", b"END\r\n", 1, None), value("b", b"", 2, Some(3))]),
            b"VALUE a 1 5\r\nEND\r\n\r\nVALUE b 2 0 3\r\n\r\nEND\r\n",
        ),
        (Response::Deleted, b"DELETED\r\n"),
        (Response::UpdatedValue(4), b"4\r\n"),
        (Response::UpdatedValue(0), b"0\r\n"),
        (Response::UpdatedValue(u64::MAX), b"18446744073709551615\r\n"),
        (Response::Touched, b"TOUCHED\r\n"),
        (Response::Okay, b"OK\r\n"),
        (Response::Version(String::from("1.2.3.4")), b"VERSION 1.2.3.4\r\n"),
    ]
}

#[test]
fn response_is_written_as_the_grammar_says() {
    for (rsp, bytes) in all_replies() {
        let mut buf = Vec::new();
        assert_eq!(rsp.build(&mut buf), Ok(()));
        assert_eq!(buf, bytes, "{:?}", rsp);
    }
}

#[test]
fn response_round_trip() {
    for (rsp, bytes) in all_replies() {
        assert_eq!(Response::parse(bytes), Parsed::Done(rsp, bytes.len()));
    }
}

#[test]
fn response_leaves_what_follows() {
    for (rsp, bytes) in all_replies() {
        for tail in [&b"STORED\r\n"[..], b"VALUE", b"1", b"\r\n", b"END\r\n"] {
            let both = [bytes, tail].concat();
            assert_eq!(Response::parse(&both), Parsed::Done(rsp.clone(), bytes.len()));
        }
    }
}

#[test]
fn response_cut_short_is_incomplete() {
    for (rsp, bytes) in all_replies() {
        for n in 0..bytes.len() {
            assert_eq!(Response::parse(&bytes[..n]), Parsed::Incomplete, "{:?} cut at {}", rsp, n);
        }
    }
}

#[test]
fn number_is_told_from_the_words() {
    assert_eq!(Response::parse(b"4\r\n"), Parsed::Done(Response::UpdatedValue(4), 3));
    assert_eq!(Response::parse(b"007\r\n"), Parsed::Done(Response::UpdatedValue(7), 5));
    assert_eq!(Response::parse(b"18446744073709551616\r\n"), Parsed::Error);
    assert_eq!(Response::parse(b"4 \r\n"), Parsed::Error);
    assert_eq!(Response::parse(b"4\n"), Parsed::Error);
    assert_eq!(Response::parse(b"-4\r\n"), Parsed::Error);
    assert_eq!(Response::parse(b"4"), Parsed::Incomplete);
}

#[test]
fn what_is_no_reply_is_an_error() {
    let wrong: Vec<&[u8]> = vec![
        b"stored\r\n",
        b"STORED\n",
        b"NOT_STORED\r\n",
        b"NOT_FOUND\r\n",
        b"BOGUS\r\n",
        b"\r\n",
        b"VALUE k 0 1\r\nx\r\nSTORED\r\n",
        b"VALUE k 0 x\r\n",
        b"ENDED\r\n",
        b"CLIENT_ERROR one\ntwo\r\n",
        b"SERVER_ERROR \xff\xfe\r\n",
        b"VERSION 1\r2\r\n",
        b"OKAY\r\n",
    ];
    for bytes in wrong {
        assert_eq!(Response::parse(bytes), Parsed::Error, "{:?}", bytes);
    }
}

#[test]
fn message_that_is_cut_within_a_character_is_incomplete() {
    let whole = "SERVER_ERROR caf\u{e9}\r\n".as_bytes();
    assert_eq!(Response::parse(&whole[..whole.len() - 3]), Parsed::Incomplete);
    assert_eq!(
        Response::parse(whole),
        Parsed::Done(Response::ServerError(String::from("caf\u{e9}")), whole.len())
    );
}

#[test]
fn reply_with_a_line_break_in_its_message_is_refused() {
    let replies = vec![
        Response::ClientError(String::from("one\ntwo")),
        Response::ServerError(String::from("one\r\ntwo")),
        Response::Version(String::from("1.2\r")),
    ];
    for rsp in replies {
        let mut buf = b"before".to_vec();
        assert_eq!(rsp.build(&mut buf), Err(BuildError::BadText), "{:?}", rsp);
        assert_eq!(buf, b"before");
    }
}

#[test]
fn reply_with_a_bad_record_is_refused() {
    let rsp = Response::Values(vec![value("good", b"v", 0, None), value("not good", b"v", 0, None)]);
    let mut buf = b"before".to_vec();
    assert_eq!(rsp.build(&mut buf), Err(BuildError::BadKey));
    assert_eq!(buf, b"before");
}

#[test]
fn gets_returns_cas() {
    match Response::parse(b"VALUE abcd 0 4 8\r\nblah\r\nEND\r\n") {
        Parsed::Done(Response::Values(values), 29) => {
            assert_eq!(values.len(), 1);
            assert_eq!(values[0].cas, Some(8));
            assert_eq!(values[0].key, "abcd");
            assert_eq!(values[0].value, b"blah");
            assert_eq!(values[0].flags, 0);
        },
        other => panic!("{:?}", other),
    }
}
