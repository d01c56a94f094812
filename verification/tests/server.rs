use std::cell::RefCell;
use tokio_memcache::api;
use tokio_memcache::api::ApiError;
use tokio_memcache::proto::Arrival;
use tokio_memcache::request::Verb;
use tokio_memcache::server::{answer, call_for, perform, reply, single_line, Call, Outcome};
use tokio_memcache::{Api, ApiService, Request, Response, Value};

/// A backend that writes down what it is asked, and answers as it was told.
struct Recorder {
    fail: Option<String>,
    calls: RefCell<Vec<String>>,
}

impl Recorder {
    fn new(fail: Option<&str>) -> Recorder {
        Recorder { fail: fail.map(String::from), calls: RefCell::new(Vec::new()) }
    }

    fn note<T>(&self, call: String, done: T) -> Result<T, String> {
        self.calls.borrow_mut().push(call);
        match &self.fail {
            Some(message) => Err(message.clone()),
            None => Ok(done),
        }
    }

    fn values(keys: &[String], cas: Option<u64>) -> Vec<Value> {
        keys.iter()
            .map(|key| Value {
                key: key.clone(),
                value: (key.clone() + "'s value").as_bytes().to_vec(),
                flags: 0,
                cas,
            })
            .collect()
    }
}

impl Api for Recorder {
    fn set(&self, key: String, value: Vec<u8>, flags: u16, expiry: u32) -> Result<(), String> {
        self.note(format!("set {} {:?} {} {}", key, value, flags, expiry), ())
    }

    fn add(&self, key: String, value: Vec<u8>, flags: u16, expiry: u32) -> Result<(), String> {
        self.note(format!("add {} {:?} {} {}", key, value, flags, expiry), ())
    }

    fn replace(&self, key: String, value: Vec<u8>, flags: u16, expiry: u32) -> Result<(), String> {
        self.note(format!("replace {} {:?} {} {}", key, value, flags, expiry), ())
    }

    fn append(&self, key: String, value: Vec<u8>) -> Result<(), String> {
        self.note(format!("append {} {:?}", key, value), ())
    }

    fn prepend(&self, key: String, value: Vec<u8>) -> Result<(), String> {
        self.note(format!("prepend {} {:?}", key, value), ())
    }

    fn cas(&self, key: String, value: Vec<u8>, flags: u16, expiry: u32, token: u64) -> Result<(), String> {
        self.note(format!("cas {} {:?} {} {} {}", key, value, flags, expiry, token), ())
    }

    fn get(&self, keys: Vec<String>) -> Result<Vec<Value>, String> {
        self.note(format!("get {:?}", keys), Recorder::values(&keys, None))
    }

    fn gets(&self, keys: Vec<String>) -> Result<Vec<Value>, String> {
        self.note(format!("gets {:?}", keys), Recorder::values(&keys, Some(8)))
    }

    fn delete(&self, key: String) -> Result<(), String> {
        self.note(format!("delete {}", key), ())
    }

    fn incr(&self, key: String, value: u64) -> Result<u64, String> {
        self.note(format!("incr {} {}", key, value), 4)
    }

    fn decr(&self, key: String, value: u64) -> Result<u64, String> {
        self.note(format!("decr {} {}", key, value), 2)
    }

    fn touch(&self, key: String, expiry: u32) -> Result<(), String> {
        self.note(format!("touch {} {}", key, expiry), ())
    }

    fn flush_all(&self, delay: u32) -> Result<(), String> {
        self.note(format!("flush_all {}", delay), ())
    }

    fn version(&self) -> Result<String, String> {
        self.note(String::from("version"), String::from("1.2.3.4"))
    }
}

fn key(text: &str) -> String {
    String::from(text)
}

fn commands(noreply: bool) -> Vec<(Request, &'static str, Response)> {
    let value = |k: &str, cas| Value {
        key: key(k),
        value: format!("{}'s value", k).into_bytes(),
        flags: 0,
        cas,
    };
    let mut all = vec![
        (
            Request::Put { key: key("k"), value: vec![1, 2], flags: 3, expiry: 4, noreply },
            "set k [1, 2] 3 4",
            Response::Stored,
        ),
        (
            Request::Add { key: key("k"), value: vec![1], flags: 5, expiry: 6, noreply },
            "add k [1] 5 6",
            Response::Stored,
        ),
        (
            Request::Replace { key: key("k"), value: vec![], flags: 7, expiry: 8, noreply },
            "replace k [] 7 8",
            Response::Stored,
        ),
        (Request::Append { key: key("k"), value: vec![9], noreply }, "append k [9]", Response::Stored),
        (Request::Prepend { key: key("k"), value: vec![8], noreply }, "prepend k [8]", Response::Stored),
        (
            Request::Cas { key: key("k"), value: vec![7], flags: 1, expiry: 2, cas: 99, noreply },
            "cas k [7] 1 2 99",
            Response::Stored,
        ),
        (Request::Delete { key: key("k"), noreply }, "delete k", Response::Deleted),
        (Request::Incr { key: key("n"), value: 10, noreply }, "incr n 10", Response::UpdatedValue(4)),
        (Request::Decr { key: key("n"), value: 11, noreply }, "decr n 11", Response::UpdatedValue(2)),
        (Request::Touch { key: key("k"), expiry: 60, noreply }, "touch k 60", Response::Stored),
        (Request::FlushAll { delay: Some(5), noreply }, "flush_all 5", Response::Okay),
        (Request::FlushAll { delay: None, noreply }, "flush_all 0", Response::Okay),
    ];
    if !noreply {
        all.push((
            Request::Get { keys: vec![key("a"), key("b")] },
            "get [\"a\", \"b\"]",
            Response::Values(vec![value("a", None), value("b", None)]),
        ));
        all.push((Request::Get { keys: vec![] }, "get []", Response::Values(vec![])));
        all.push((
            Request::Gets { keys: vec![key("a")] },
            "gets [\"a\"]",
            Response::Values(vec![value("a", Some(8))]),
        ));
        all.push((Request::Version, "version", Response::Version(key("1.2.3.4"))));
    }
    all
}

#[test]
fn command_becomes_a_call_and_its_result_the_reply() {
    for (req, call, rsp) in commands(false) {
        let service = ApiService::new(Recorder::new(None));
        assert_eq!(service.call(req), Some(rsp));
        assert_eq!(service.get_ref().calls.borrow().as_slice(), &[String::from(call)]);
    }
}

#[test]
fn command_without_reply_is_still_a_call() {
    for (req, call, _) in commands(true) {
        let service = ApiService::new(Recorder::new(None));
        assert_eq!(service.call(req), None);
        assert_eq!(service.get_ref().calls.borrow().as_slice(), &[String::from(call)]);
    }
}

#[test]
fn backend_failure_becomes_a_server_error() {
    for (req, call, _) in commands(false) {
        let service = ApiService::new(Recorder::new(Some("disk full\r\nsee the log")));
        assert_eq!(service.call(req), Some(Response::ServerError(key("disk full"))));
        assert_eq!(service.get_ref().calls.borrow().as_slice(), &[String::from(call)]);
    }
    for (req, _, _) in commands(true) {
        let service = ApiService::new(Recorder::new(Some("disk full")));
        assert_eq!(service.call(req), None);
    }
}

#[test]
fn first_line_of_a_message() {
    assert_eq!(single_line(key("one line")), "one line");
    assert_eq!(single_line(key("")), "");
    assert_eq!(single_line(key("one\ntwo")), "one");
    assert_eq!(single_line(key("one\rtwo\nthree")), "one");
    assert_eq!(single_line(key("\r\nlate")), "");
    assert_eq!(single_line(key("caf\u{e9} \u{2014}\nrest \u{1f600}")), "caf\u{e9} \u{2014}");
    assert_eq!(single_line(key("\u{1f600}\u{e9}")), "\u{1f600}\u{e9}");
}

fn every_verb() -> Vec<Verb> {
    vec![
        Verb::Put,
        Verb::Add,
        Verb::Replace,
        Verb::Append,
        Verb::Prepend,
        Verb::Cas,
        Verb::Gets,
        Verb::Get,
        Verb::Delete,
        Verb::Incr,
        Verb::Decr,
        Verb::Touch,
        Verb::FlushAll,
        Verb::Version,
    ]
}

#[test]
fn replies_of_the_server() {
    let mismatch = || Response::ServerError(key("unexpected result"));
    let found = || vec![Value { key: key("k"), value: vec![1], flags: 2, cas: Some(3) }];
    for verb in every_verb() {
        let done = match verb {
            Verb::Put | Verb::Add | Verb::Replace | Verb::Append | Verb::Prepend | Verb::Cas => Response::Stored,
            Verb::Touch => Response::Stored,
            Verb::Delete => Response::Deleted,
            Verb::FlushAll => Response::Okay,
            _ => mismatch(),
        };
        assert_eq!(reply(verb, Outcome::Done), done, "{:?}", verb);
        let values = match verb {
            Verb::Get | Verb::Gets => Response::Values(found()),
            _ => mismatch(),
        };
        assert_eq!(reply(verb, Outcome::Values(found())), values, "{:?}", verb);
        let number = match verb {
            Verb::Incr | Verb::Decr => Response::UpdatedValue(7),
            _ => mismatch(),
        };
        assert_eq!(reply(verb, Outcome::Number(7)), number, "{:?}", verb);
        let text = match verb {
            Verb::Version => Response::Version(key("1.4")),
            _ => mismatch(),
        };
        assert_eq!(reply(verb, Outcome::Text(key("1.4"))), text, "{:?}", verb);
        assert_eq!(reply(verb, Outcome::Failed(key("no\nway"))), Response::ServerError(key("no")));
        assert_eq!(answer(verb, true, Outcome::Done), None);
        assert_eq!(answer(verb, true, Outcome::Failed(key("no"))), None);
        assert_eq!(answer(verb, false, Outcome::Done), Some(done));
    }
}

#[test]
fn outcomes_of_the_backend() {
    assert_eq!(Outcome::unit(Ok(())), Outcome::Done);
    assert_eq!(Outcome::unit(Err(key("no"))), Outcome::Failed(key("no")));
    assert_eq!(Outcome::values(Ok(vec![])), Outcome::Values(vec![]));
    assert_eq!(Outcome::values(Err(key("no"))), Outcome::Failed(key("no")));
    assert_eq!(Outcome::number(Ok(5)), Outcome::Number(5));
    assert_eq!(Outcome::number(Err(key("no"))), Outcome::Failed(key("no")));
    assert_eq!(Outcome::text(Ok(key("1.4"))), Outcome::Text(key("1.4")));
    assert_eq!(Outcome::text(Err(key("no"))), Outcome::Failed(key("no")));
}

#[test]
fn calls_send_commands_that_await_a_reply() {
    let k = || key("k");
    let built = vec![
        (api::set(k(), vec![1], 2, 3), Request::Put { key: k(), value: vec![1], flags: 2, expiry: 3, noreply: false }),
        (api::add(k(), vec![1], 2, 3), Request::Add { key: k(), value: vec![1], flags: 2, expiry: 3, noreply: false }),
        (
            api::replace(k(), vec![1], 2, 3),
            Request::Replace { key: k(), value: vec![1], flags: 2, expiry: 3, noreply: false },
        ),
        (api::append(k(), vec![4]), Request::Append { key: k(), value: vec![4], noreply: false }),
        (api::prepend(k(), vec![5]), Request::Prepend { key: k(), value: vec![5], noreply: false }),
        (
            api::cas(k(), vec![6], 7, 8, 9),
            Request::Cas { key: k(), value: vec![6], flags: 7, expiry: 8, cas: 9, noreply: false },
        ),
        (api::get(vec![k(), key("l")]), Request::Get { keys: vec![k(), key("l")] }),
        (api::gets(vec![k()]), Request::Gets { keys: vec![k()] }),
        (api::get_one(k()), Request::Get { keys: vec![k()] }),
        (api::gets_one(k()), Request::Gets { keys: vec![k()] }),
        (api::delete(k()), Request::Delete { key: k(), noreply: false }),
        (api::incr(k(), 10), Request::Incr { key: k(), value: 10, noreply: false }),
        (api::decr(k(), 11), Request::Decr { key: k(), value: 11, noreply: false }),
        (api::touch(k(), 12), Request::Touch { key: k(), expiry: 12, noreply: false }),
        (api::flush_all(13), Request::FlushAll { delay: Some(13), noreply: false }),
        (api::version(), Request::Version),
    ];
    for (req, expected) in built {
        assert!(!req.noreply());
        assert_eq!(req, expected);
    }
}

fn every_reply() -> Vec<Response> {
    vec![
        Response::Error,
        Response::ClientError(key("bad")),
        Response::ServerError(key("worse")),
        Response::Stored,
        Response::NotStored,
        Response::Exists,
        Response::NotFound,
        Response::Values(vec![]),
        Response::Deleted,
        Response::UpdatedValue(4),
        Response::Touched,
        Response::Okay,
        Response::Version(key("1.2.3.4")),
    ]
}

fn failure(rsp: Response) -> ApiError {
    match rsp {
        Response::Error | Response::ClientError(_) | Response::ServerError(_) => ApiError::Refused(rsp),
        _ => ApiError::Unexpected(rsp),
    }
}

#[test]
fn reply_that_is_not_awaited_is_a_failure() {
    for rsp in every_reply() {
        let unit = |wanted: Response| if rsp == wanted { Ok(()) } else { Err(failure(rsp.clone())) };
        assert_eq!(api::stored(rsp.clone()), unit(Response::Stored));
        assert_eq!(api::touched(rsp.clone()), unit(Response::Touched));
        assert_eq!(api::deleted(rsp.clone()), unit(Response::Deleted));
        assert_eq!(api::flushed(rsp.clone()), unit(Response::Okay));
        let number = match rsp {
            Response::UpdatedValue(n) => Ok(n),
            _ => Err(failure(rsp.clone())),
        };
        assert_eq!(api::updated_value(rsp.clone()), number);
        let text = match &rsp {
            Response::Version(text) => Ok(text.clone()),
            _ => Err(failure(rsp.clone())),
        };
        assert_eq!(api::version_text(rsp.clone()), text);
        let values = match &rsp {
            Response::Values(found) => Ok(found.clone()),
            _ => Err(failure(rsp.clone())),
        };
        assert_eq!(api::values(rsp.clone()), values);
        let one = match &rsp {
            Response::Values(_) => Err(ApiError::NoValue),
            _ => Err(failure(rsp.clone())),
        };
        assert_eq!(api::one_value(rsp.clone()), one);
    }
}

#[test]
fn one_value_is_the_first_of_the_reply() {
    let value = |k: &str| Value { key: key(k), value: k.as_bytes().to_vec(), flags: 1, cas: None };
    assert_eq!(api::one_value(Response::Values(vec![value("a")])), Ok(value("a")));
    assert_eq!(api::one_value(Response::Values(vec![value("b"), value("a")])), Ok(value("b")));
    assert_eq!(api::one_value(Response::Values(vec![])), Err(ApiError::NoValue));
    assert_eq!(
        api::values(Response::Values(vec![value("b"), value("a")])),
        Ok(vec![value("b"), value("a")])
    );
}

#[test]
fn reply_to_bad_bytes_is_passed_on() {
    let service = ApiService::new(Recorder::new(None));
    let refused = Response::ClientError(key("bad command line"));
    assert_eq!(service.serve(Arrival::Refused(refused.clone())), Some(refused));
    assert!(service.get_ref().calls.borrow().is_empty());
    assert_eq!(service.serve(Arrival::Command(Request::Version)), Some(Response::Version(key("1.2.3.4"))));
    let quiet = Request::Delete { key: key("k"), noreply: true };
    assert_eq!(service.serve(Arrival::Command(quiet)), None);
    assert_eq!(
        service.get_ref().calls.borrow().as_slice(),
        &[String::from("version"), String::from("delete k")]
    );
}

fn routed(noreply: bool) -> Vec<(Request, Call)> {
    let k = || key("k");
    vec![
        (
            Request::Put { key: k(), value: vec![1, 2], flags: 3, expiry: 4, noreply },
            Call::Put { key: k(), value: vec![1, 2], flags: 3, expiry: 4 },
        ),
        (
            Request::Add { key: k(), value: vec![1], flags: 5, expiry: 6, noreply },
            Call::Add { key: k(), value: vec![1], flags: 5, expiry: 6 },
        ),
        (
            Request::Replace { key: k(), value: vec![], flags: 7, expiry: 8, noreply },
            Call::Replace { key: k(), value: vec![], flags: 7, expiry: 8 },
        ),
        (
            Request::Append { key: k(), value: vec![9], noreply },
            Call::Append { key: k(), value: vec![9] },
        ),
        (
            Request::Prepend { key: k(), value: vec![8], noreply },
            Call::Prepend { key: k(), value: vec![8] },
        ),
        (
            Request::Cas { key: k(), value: vec![7], flags: 1, expiry: 2, cas: 99, noreply },
            Call::Cas { key: k(), value: vec![7], flags: 1, expiry: 2, cas: 99 },
        ),
        (Request::Get { keys: vec![k(), key("l")] }, Call::Get { keys: vec![k(), key("l")] }),
        (Request::Gets { keys: vec![k()] }, Call::Gets { keys: vec![k()] }),
        (Request::Delete { key: k(), noreply }, Call::Delete { key: k() }),
        (Request::Incr { key: k(), value: 10, noreply }, Call::Incr { key: k(), value: 10 }),
        (Request::Decr { key: k(), value: 11, noreply }, Call::Decr { key: k(), value: 11 }),
        (Request::Touch { key: k(), expiry: 60, noreply }, Call::Touch { key: k(), expiry: 60 }),
        (Request::FlushAll { delay: Some(5), noreply }, Call::FlushAll { delay: 5 }),
        (Request::FlushAll { delay: None, noreply }, Call::FlushAll { delay: 0 }),
        (Request::Version, Call::Version),
    ]
}

#[test]
fn command_asks_for_the_call_of_its_name() {
    for noreply in [false, true] {
        for (req, call) in routed(noreply) {
            assert_eq!(call_for(req), call);
        }
    }
}

#[test]
fn call_is_made_on_the_method_that_it_names() {
    let made = |call: Call| {
        let backend = Recorder::new(None);
        let outcome = perform(&backend, call);
        let calls = backend.calls.borrow().clone();
        (calls, outcome)
    };
    let one = |text: &str| vec![String::from(text)];
    let k = || key("k");
    let found = |cas| Value { key: k(), value: b"k's value".to_vec(), flags: 0, cas };
    assert_eq!(
        made(Call::Put { key: k(), value: vec![1], flags: 2, expiry: 3 }),
        (one("set k [1] 2 3"), Outcome::Done)
    );
    assert_eq!(
        made(Call::Add { key: k(), value: vec![1], flags: 2, expiry: 3 }),
        (one("add k [1] 2 3"), Outcome::Done)
    );
    assert_eq!(
        made(Call::Replace { key: k(), value: vec![1], flags: 2, expiry: 3 }),
        (one("replace k [1] 2 3"), Outcome::Done)
    );
    assert_eq!(made(Call::Append { key: k(), value: vec![4] }), (one("append k [4]"), Outcome::Done));
    assert_eq!(made(Call::Prepend { key: k(), value: vec![5] }), (one("prepend k [5]"), Outcome::Done));
    assert_eq!(
        made(Call::Cas { key: k(), value: vec![6], flags: 7, expiry: 8, cas: 9 }),
        (one("cas k [6] 7 8 9"), Outcome::Done)
    );
    assert_eq!(made(Call::Get { keys: vec![k()] }), (one("get [\"k\"]"), Outcome::Values(vec![found(None)])));
    assert_eq!(
        made(Call::Gets { keys: vec![k()] }),
        (one("gets [\"k\"]"), Outcome::Values(vec![found(Some(8))]))
    );
    assert_eq!(made(Call::Delete { key: k() }), (one("delete k"), Outcome::Done));
    assert_eq!(made(Call::Incr { key: k(), value: 10 }), (one("incr k 10"), Outcome::Number(4)));
    assert_eq!(made(Call::Decr { key: k(), value: 11 }), (one("decr k 11"), Outcome::Number(2)));
    assert_eq!(made(Call::Touch { key: k(), expiry: 12 }), (one("touch k 12"), Outcome::Done));
    assert_eq!(made(Call::FlushAll { delay: 13 }), (one("flush_all 13"), Outcome::Done));
    assert_eq!(made(Call::Version), (one("version"), Outcome::Text(key("1.2.3.4"))));

    let failing = Recorder::new(Some("no"));
    assert_eq!(perform(&failing, Call::Version), Outcome::Failed(key("no")));
}

#[test]
fn set_is_done_on_stored_alone() {
    assert_eq!(api::stored(Response::Stored), Ok(()));
    assert_eq!(api::stored(Response::Touched), Err(ApiError::Unexpected(Response::Touched)));
    assert_eq!(api::stored(Response::NotStored), Err(ApiError::Unexpected(Response::NotStored)));
    assert_eq!(api::stored(Response::Exists), Err(ApiError::Unexpected(Response::Exists)));
    assert_eq!(api::stored(Response::Values(vec![])), Err(ApiError::Unexpected(Response::Values(vec![]))));
    assert_eq!(api::stored(Response::Error), Err(ApiError::Refused(Response::Error)));
    assert_eq!(
        api::stored(Response::ClientError(key("no"))),
        Err(ApiError::Refused(Response::ClientError(key("no"))))
    );
}

#[test]
fn touch_is_done_on_touched_alone() {
    assert_eq!(api::touched(Response::Touched), Ok(()));
    assert_eq!(api::touched(Response::Stored), Err(ApiError::Unexpected(Response::Stored)));
    assert_eq!(api::touched(Response::NotFound), Err(ApiError::Unexpected(Response::NotFound)));
    assert_eq!(
        api::touched(Response::ServerError(key("no"))),
        Err(ApiError::Refused(Response::ServerError(key("no"))))
    );
}
