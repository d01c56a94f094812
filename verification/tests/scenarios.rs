use tokio_memcache::api;
use tokio_memcache::proto::ReadBuf;
use tokio_memcache::{Api, ApiService, ClientCodec, Request, Response, ServerCodec, Value};

/// A server with one key in it.
struct OneKey;

impl OneKey {
    fn find(keys: Vec<String>, cas: Option<u64>) -> Vec<Value> {
        keys.into_iter()
            .filter(|key| key == "abcd")
            .map(|key| Value { key, value: b"blah".to_vec(), flags: 0, cas })
            .collect()
    }
}

impl Api for OneKey {
    fn set(&self, _: String, _: Vec<u8>, _: u16, _: u32) -> Result<(), String> {
        Ok(())
    }

    fn add(&self, _: String, _: Vec<u8>, _: u16, _: u32) -> Result<(), String> {
        Ok(())
    }

    fn replace(&self, _: String, _: Vec<u8>, _: u16, _: u32) -> Result<(), String> {
        Ok(())
    }

    fn append(&self, _: String, _: Vec<u8>) -> Result<(), String> {
        Ok(())
    }

    fn prepend(&self, _: String, _: Vec<u8>) -> Result<(), String> {
        Ok(())
    }

    fn cas(&self, _: String, _: Vec<u8>, _: u16, _: u32, _: u64) -> Result<(), String> {
        Ok(())
    }

    fn get(&self, keys: Vec<String>) -> Result<Vec<Value>, String> {
        Ok(OneKey::find(keys, None))
    }

    fn gets(&self, keys: Vec<String>) -> Result<Vec<Value>, String> {
        Ok(OneKey::find(keys, Some(8)))
    }

    fn delete(&self, _: String) -> Result<(), String> {
        Ok(())
    }

    fn incr(&self, _: String, _: u64) -> Result<u64, String> {
        Ok(4)
    }

    fn decr(&self, _: String, _: u64) -> Result<u64, String> {
        Ok(2)
    }

    fn touch(&self, _: String, _: u32) -> Result<(), String> {
        Ok(())
    }

    fn flush_all(&self, _: u32) -> Result<(), String> {
        Ok(())
    }

    fn version(&self) -> Result<String, String> {
        Ok(String::from("1.2.3.4"))
    }
}

/// Sends `req` through both ends of a connection to a server with one key in
/// it: the bytes that the client sent, those that the server sent, and the
/// reply that the client read.
fn exchange(req: Request) -> (Vec<u8>, Vec<u8>, Response) {
    let mut client = ClientCodec;
    let mut server = ServerCodec;
    let service = ApiService::new(OneKey);

    let mut sent = Vec::new();
    client.encode(req, &mut sent).unwrap();
    let mut arrived = ReadBuf::from_vec(sent.clone());
    let command = server.decode(&mut arrived).unwrap().unwrap();
    assert_eq!(arrived.len(), 0);

    let reply = service.call(command).unwrap();
    let mut answered = Vec::new();
    server.encode(reply, &mut answered).unwrap();
    let mut back = ReadBuf::from_vec(answered.clone());
    let read = client.decode(&mut back).unwrap().unwrap();
    assert_eq!(back.len(), 0);
    (sent, answered, read)
}

#[test]
fn version_handshake() {
    let (sent, answered, reply) = exchange(api::version());
    assert_eq!(sent, b"version\r\n");
    assert_eq!(answered, b"VERSION 1.2.3.4\r\n");
    assert_eq!(api::version_text(reply), Ok(String::from("1.2.3.4")));
}

#[test]
fn get_on_empty_cache() {
    let (sent, answered, reply) = exchange(api::get(vec![String::from("missing")]));
    assert_eq!(sent, b"get missing\r\n");
    assert_eq!(answered, b"END\r\n");
    assert_eq!(api::values(reply), Ok(vec![]));
}

#[test]
fn set_then_get() {
    let (sent, answered, reply) = exchange(api::set(String::from("abcd"), b"blah".to_vec(), 0, 0));
    assert_eq!(sent, b"set abcd 0 0 4\r\nblah\r\n");
    assert_eq!(answered, b"STORED\r\n");
    assert_eq!(api::stored(reply), Ok(()));

    let (sent, answered, reply) = exchange(api::get(vec![String::from("abcd")]));
    assert_eq!(sent, b"get abcd\r\n");
    assert_eq!(answered, b"VALUE abcd 0 4\r\nblah\r\nEND\r\n");
    let expected = Value { key: String::from("abcd"), value: b"blah".to_vec(), flags: 0, cas: None };
    assert_eq!(api::values(reply), Ok(vec![expected]));
}

#[test]
fn get_one_gives_the_value() {
    let (sent, _, reply) = exchange(api::get_one(String::from("abcd")));
    assert_eq!(sent, b"get abcd\r\n");
    let expected = Value { key: String::from("abcd"), value: b"blah".to_vec(), flags: 0, cas: None };
    assert_eq!(api::one_value(reply), Ok(expected));
    let (_, _, reply) = exchange(api::get_one(String::from("missing")));
    assert_eq!(api::one_value(reply), Err(api::ApiError::NoValue));
}

#[test]
fn gets_carries_the_token() {
    let (sent, answered, reply) = exchange(api::gets(vec![String::from("abcd")]));
    assert_eq!(sent, b"gets abcd\r\n");
    assert_eq!(answered, b"VALUE abcd 0 4 8\r\nblah\r\nEND\r\n");
    let found = api::values(reply).unwrap();
    assert_eq!(found.len(), 1);
    assert_eq!(found[0].cas, Some(8));
}

#[test]
fn incr() {
    let (sent, answered, reply) = exchange(api::incr(String::from("counter"), 1));
    assert_eq!(sent, b"incr counter 1\r\n");
    assert_eq!(answered, b"4\r\n");
    assert_eq!(api::updated_value(reply), Ok(4));
}

#[test]
fn decr_is_sent_as_decr() {
    let (sent, answered, reply) = exchange(api::decr(String::from("counter"), 1));
    assert_eq!(sent, b"decr counter 1\r\n");
    assert_eq!(answered, b"2\r\n");
    assert_eq!(api::updated_value(reply), Ok(2));
}

#[test]
fn binary_safe_value_through_the_server() {
    let payload = b"a\r\nb\x00c".to_vec();
    let mut client = ClientCodec;
    let mut sent = Vec::new();
    client.encode(api::set(String::from("k"), payload.clone(), 0, 0), &mut sent).unwrap();
    assert_eq!(sent, b"set k 0 0 6\r\na\r\nb\x00c\r\n");
    let mut arrived = ReadBuf::from_vec(sent);
    let mut server = ServerCodec;
    let command = server.decode(&mut arrived).unwrap().unwrap();
    assert_eq!(
        command,
        Request::Put { key: String::from("k"), value: payload, flags: 0, expiry: 0, noreply: false }
    );
    assert_eq!(arrived.len(), 0);
    assert_eq!(server.decode(&mut arrived), Ok(None));
}

#[test]
fn replies_come_back_in_the_order_of_the_commands() {
    let mut client = ClientCodec;
    let mut server = ServerCodec;
    let service = ApiService::new(OneKey);
    let calls = vec![
        api::version(),
        api::get(vec![String::from("abcd")]),
        api::incr(String::from("n"), 1),
        api::delete(String::from("abcd")),
        api::touch(String::from("abcd"), 10),
        api::flush_all(0),
    ];
    let mut sent = Vec::new();
    for req in calls {
        client.encode(req, &mut sent).unwrap();
    }
    let mut arrived = ReadBuf::new();
    let mut answered = Vec::new();
    for chunk in sent.chunks(5) {
        arrived.extend(chunk);
        while let Some(command) = server.decode(&mut arrived).unwrap() {
            server.encode(service.call(command).unwrap(), &mut answered).unwrap();
        }
    }
    assert_eq!(arrived.len(), 0);
    let mut back = ReadBuf::from_vec(answered);
    let mut replies = Vec::new();
    while let Some(reply) = client.decode(&mut back).unwrap() {
        replies.push(reply);
    }
    let value = Value { key: String::from("abcd"), value: b"blah".to_vec(), flags: 0, cas: None };
    assert_eq!(
        replies,
        vec![
            Response::Version(String::from("1.2.3.4")),
            Response::Values(vec![value]),
            Response::UpdatedValue(4),
            Response::Deleted,
            Response::Stored,
            Response::Okay,
        ]
    );
}

/// A backend that answers as if every key held a value made of its name.
struct ApiImpl;

impl Api for ApiImpl {
    fn set(&self, _: String, _: Vec<u8>, _: u16, _: u32) -> Result<(), String> {
        Ok(())
    }

    fn add(&self, _: String, _: Vec<u8>, _: u16, _: u32) -> Result<(), String> {
        Ok(())
    }

    fn replace(&self, _: String, _: Vec<u8>, _: u16, _: u32) -> Result<(), String> {
        Ok(())
    }

    fn append(&self, _: String, _: Vec<u8>) -> Result<(), String> {
        Ok(())
    }

    fn prepend(&self, _: String, _: Vec<u8>) -> Result<(), String> {
        Ok(())
    }

    fn cas(&self, _: String, _: Vec<u8>, _: u16, _: u32, _: u64) -> Result<(), String> {
        Ok(())
    }

    fn get(&self, keys: Vec<String>) -> Result<Vec<Value>, String> {
        Ok(keys
            .iter()
            .map(|key| Value {
                key: key.clone(),
                value: (key.clone() + "'s value").as_bytes().to_vec(),
                flags: 0,
                cas: None,
            })
            .collect())
    }

    fn gets(&self, keys: Vec<String>) -> Result<Vec<Value>, String> {
        Ok(keys
            .iter()
            .map(|key| Value {
                key: key.clone(),
                value: (key.clone() + "'s value").as_bytes().to_vec(),
                flags: 0,
                cas: Some(8),
            })
            .collect())
    }

    fn delete(&self, _: String) -> Result<(), String> {
        Ok(())
    }

    fn incr(&self, _: String, _: u64) -> Result<u64, String> {
        Ok(4)
    }

    fn decr(&self, _: String, _: u64) -> Result<u64, String> {
        Ok(2)
    }

    fn touch(&self, _: String, _: u32) -> Result<(), String> {
        Ok(())
    }

    fn flush_all(&self, _: u32) -> Result<(), String> {
        Ok(())
    }

    fn version(&self) -> Result<String, String> {
        Ok(String::from("1.2.3.4"))
    }
}

/// Sends `req` to a server on top of `ApiImpl`, bytes and all, and gives the
/// reply that the client reads.
fn ask(req: Request) -> Response {
    let mut client = ClientCodec;
    let mut server = ServerCodec;
    let service = ApiService::new(ApiImpl);
    let mut wire = Vec::new();
    client.encode(req, &mut wire).unwrap();
    let mut arrived = ReadBuf::from_vec(wire);
    let command = server.decode(&mut arrived).unwrap().unwrap();
    let mut wire = Vec::new();
    server.encode(service.call(command).unwrap(), &mut wire).unwrap();
    let mut back = ReadBuf::from_vec(wire);
    client.decode(&mut back).unwrap().unwrap()
}

#[test]
fn it_works() {
    let version = api::version_text(ask(api::version())).unwrap();
    assert_eq!(version, "1.2.3.4");
    let value = api::one_value(ask(api::get_one(String::from("abcd")))).unwrap();
    assert_eq!(
        value,
        Value { key: String::from("abcd"), value: b"abcd's value".to_vec(), flags: 0, cas: None }
    );
    let stored = api::stored(ask(api::set(String::from("abcd"), b"blah".to_vec(), 0, 0)));
    assert_eq!(stored, Ok(()));
}

#[test]
fn touch_awaits_touched() {
    let (sent, answered, reply) = exchange(api::touch(String::from("abcd"), 60));
    assert_eq!(sent, b"touch abcd 60\r\n");
    assert_eq!(answered, b"STORED\r\n");
    assert_eq!(api::touched(reply), Err(api::ApiError::Unexpected(Response::Stored)));
    assert_eq!(api::touched(Response::Touched), Ok(()));
}
