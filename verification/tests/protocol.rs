use xproxy::cfg::to_hash;
use xproxy::local::prot::{host, is_http, is_https, Protocol, ProtocolError};
use xproxy::prot::{RequestError, ResponseError, XRequest, XResponse};
use xproxy::util::encrypt;

#[test]
fn request_layout_is_hash_then_encrypted_host() {
    let key = b"k3y";
    let bytes = XRequest::new("example.com:443".to_string(), key, "12345").to_vec();
    assert_eq!(&bytes[..5], b"12345");
    let mut host = bytes[5..].to_vec();
    encrypt(&mut host, key, 0);
    assert_eq!(host, b"example.com:443".to_vec());
    assert_ne!(&bytes[5..], b"example.com:443");
}

#[test]
fn request_round_trip() {
    let key = "芜湖，起飞~🚀".as_bytes();
    let hash = to_hash(key);
    for target in ["example.com:443", "www.example.org:80", "例子.测试:8080"] {
        let sent = XRequest::new(target.to_string(), key, &hash).to_vec();
        let received = XRequest::read(&sent, hash.as_bytes()).unwrap();
        assert_eq!(received.to_host(key, hash.as_bytes()), target);
    }
}

#[test]
fn request_with_wrong_hash_is_refused() {
    let sent = XRequest::new("a:1".to_string(), b"k", "111").to_vec();
    assert_eq!(XRequest::read(&sent, b"222").err(), Some(RequestError::BadHash));
    assert_eq!(XRequest::read(b"11", b"111").err(), Some(RequestError::BadHash));
}

#[test]
fn response_texts() {
    assert_eq!(XResponse::Success.text(), "🤪肉蛋葱鸡");
    assert_eq!(XResponse::NotFound.text(), "😵歪比歪比，歪比巴卜");
    assert_eq!(XResponse::BadHash.text(), "🤔你是神魔捏？你在干神魔");
    assert_eq!(XResponse::NotFound.to_vec(), "😵歪比歪比，歪比巴卜".as_bytes().to_vec());
}

#[test]
fn response_round_trip() {
    for r in [XResponse::Success, XResponse::NotFound, XResponse::BadHash] {
        let text = String::from_utf8_lossy(&r.to_vec()).to_string();
        assert_eq!(XResponse::parse(&text), Ok(r));
        assert_eq!(text.parse::<XResponse>(), Ok(r));
    }
}

#[test]
fn unknown_response_is_an_error() {
    assert_eq!(XResponse::parse("ok"), Err(ResponseError::Unknown));
    assert_eq!(XResponse::parse(""), Err(ResponseError::Unknown));
    assert_eq!(XResponse::parse("🤪肉蛋葱鸡 "), Err(ResponseError::Unknown));
}

const HTTP_GET: &str = "GET http://example.com/ HTTP/1.1\r\nHost: example.com\r\nAccept: */*\r\n\r\n";
const CONNECT: &str = "CONNECT example.com:443 HTTP/1.1\r\nHost: example.com:443\r\n\r\n";

#[test]
fn http_detection() {
    assert!(is_http(HTTP_GET));
    assert!(!is_https(HTTP_GET));
    assert!(is_http(CONNECT));
    assert!(is_https(CONNECT));
    assert!(!is_http("GET / HTTP/1.1\r\nHost: a\r\n"));
    assert!(!is_http("Host: a\r\n\r\n"));
    assert!(!is_https("CONNECT a:443 HTTP/1.1\r\n\r\n"));
}

#[test]
fn host_header_is_found() {
    assert_eq!(host(HTTP_GET), Some("example.com"));
    assert_eq!(host(CONNECT), Some("example.com:443"));
    assert_eq!(host("GET / HTTP/1.1\r\nAccept: x\r\nHost: h.org\r\n\r\n"), Some("h.org"));
}

#[test]
fn host_missing_or_malformed() {
    assert_eq!(host("GET / HTTP/1.1\r\nHost: a.com\r\n"), None);
    assert_eq!(host("GET / HTTP/1.1\r\nAccept: x\r\n\r\nHost: a.com\r\n"), None);
    assert_eq!(host("GET / HTTP/1.1\r\nHostile: x\r\nHost: a.com\r\n\r\n"), None);
    assert_eq!(host("GET / HTTP/1.1\r\nHost:a.com\r\n\r\n"), None);
}

#[test]
fn protocol_check() {
    assert_eq!(Protocol::check(HTTP_GET.as_bytes()), Ok(Protocol::Http));
    assert_eq!(Protocol::check(CONNECT.as_bytes()), Ok(Protocol::Https));
    assert_eq!(Protocol::check(b"\x16\x03\x01 hello"), Err(ProtocolError::Unsupported));
}

#[test]
fn protocol_to_host() {
    assert_eq!(Protocol::Http.to_host(HTTP_GET.as_bytes()), Ok("example.com:80".to_string()));
    assert_eq!(Protocol::Https.to_host(CONNECT.as_bytes()), Ok("example.com:443".to_string()));
    assert_eq!(Protocol::Http.to_host(b"GET / HTTP/1.1\r\n\r\n"), Err(ProtocolError::NoHost));
}

#[test]
fn invalid_utf8_is_replaced_before_parsing() {
    let mut msg = b"GET / HTTP/1.1\r\nX: \xff\xfe\r\nHost: a.b\r\n\r\n".to_vec();
    assert_eq!(Protocol::check(&msg), Ok(Protocol::Http));
    assert_eq!(Protocol::Http.to_host(&msg), Ok("a.b:80".to_string()));
    msg[0] = 0xff;
    assert_eq!(Protocol::check(&msg), Ok(Protocol::Http));
}

#[test]
fn to_host_replaces_invalid_utf8() {
    let request = XRequest::read(b"h\xffok", b"h").unwrap();
    assert_eq!(request.to_host(&[], b"h"), "\u{FFFD}ok");
}
