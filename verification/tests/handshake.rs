use xproxy::cfg::to_hash;
use xproxy::local;
use xproxy::prot::XResponse;
use xproxy::remote;

const CONNECT: &str = "CONNECT example.com:443 HTTP/1.1\r\nHost: example.com:443\r\n\r\n";
const HTTP_GET: &str = "GET http://example.com/ HTTP/1.1\r\nHost: example.com\r\n\r\n";

fn key() -> Vec<u8> {
    "芜湖，起飞~🚀".as_bytes().to_vec()
}

#[test]
fn tunnel_request_end_to_end() {
    let key = key();
    let hash = to_hash(&key);
    let (mut client, first) = local::Handshake::new(key.clone(), hash.clone());
    assert_eq!(first, local::Action::PeekSource);
    assert_eq!(
        client.step(local::Event::Data(CONNECT.as_bytes().to_vec())),
        local::Action::ReadSource
    );
    assert_eq!(
        client.step(local::Event::Data(CONNECT.as_bytes().to_vec())),
        local::Action::ConnectServer { reply: b"HTTP/1.1 200 OK\r\n\r\n".to_vec() }
    );
    let request = match client.step(local::Event::Connected) {
        local::Action::SendRequest { request } => request,
        other => panic!("unexpected {:?}", other),
    };

    let (mut server, first) = remote::Handshake::new(key.clone(), hash.as_bytes().to_vec());
    assert_eq!(first, remote::Action::ReadRequest);
    assert_eq!(
        server.step(remote::Event::Received(request)),
        remote::Action::Connect { host: "example.com:443".to_string() }
    );
    let reply = match server.step(remote::Event::Connected) {
        remote::Action::Tunnel { reply } => reply,
        other => panic!("unexpected {:?}", other),
    };
    assert_eq!(reply, XResponse::Success.to_vec());
    assert_eq!(client.step(local::Event::Data(reply)), local::Action::Tunnel);
}

#[test]
fn http_request_keeps_request_and_adds_port() {
    let key = key();
    let hash = to_hash(&key);
    let (mut client, _) = local::Handshake::new(key.clone(), hash.clone());
    assert_eq!(
        client.step(local::Event::Data(HTTP_GET.as_bytes().to_vec())),
        local::Action::PeekSource
    );
    assert_eq!(
        client.step(local::Event::Data(HTTP_GET.as_bytes().to_vec())),
        local::Action::ConnectServer { reply: Vec::new() }
    );
    let request = match client.step(local::Event::Connected) {
        local::Action::SendRequest { request } => request,
        other => panic!("unexpected {:?}", other),
    };
    let (mut server, _) = remote::Handshake::new(key, hash.as_bytes().to_vec());
    assert_eq!(
        server.step(remote::Event::Received(request)),
        remote::Action::Connect { host: "example.com:80".to_string() }
    );
}

#[test]
fn client_unsupported_and_missing_host() {
    let (mut client, _) = local::Handshake::new(key(), "1".to_string());
    assert_eq!(
        client.step(local::Event::Data(b"hello".to_vec())),
        local::Action::Fail { reply: Vec::new(), error: local::HandshakeError::Unsupported }
    );
    let (mut client, _) = local::Handshake::new(key(), "1".to_string());
    client.step(local::Event::Data(HTTP_GET.as_bytes().to_vec()));
    assert_eq!(
        client.step(local::Event::Data(b"GET / HTTP/1.1\r\n\r\n".to_vec())),
        local::Action::Fail { reply: Vec::new(), error: local::HandshakeError::NoHost }
    );
}

fn client_awaiting() -> local::Handshake {
    let (mut client, _) = local::Handshake::new(key(), "1".to_string());
    client.step(local::Event::Data(CONNECT.as_bytes().to_vec()));
    client.step(local::Event::Data(CONNECT.as_bytes().to_vec()));
    client.step(local::Event::Connected);
    client
}

#[test]
fn client_answers() {
    let mut client = client_awaiting();
    assert_eq!(
        client.step(local::Event::Data(XResponse::NotFound.to_vec())),
        local::Action::Fail {
            reply: b"HTTP/1.1 404 NotFound\r\n\r\n".to_vec(),
            error: local::HandshakeError::Unreachable
        }
    );
    let mut client = client_awaiting();
    assert_eq!(client.step(local::Event::Data(XResponse::BadHash.to_vec())), local::Action::Abort);
    let mut client = client_awaiting();
    assert_eq!(
        client.step(local::Event::Data(b"what".to_vec())),
        local::Action::Fail { reply: Vec::new(), error: local::HandshakeError::BadAnswer }
    );
}

#[test]
fn client_out_of_order() {
    let (mut client, _) = local::Handshake::new(key(), "1".to_string());
    assert_eq!(
        client.step(local::Event::Connected),
        local::Action::Fail { reply: Vec::new(), error: local::HandshakeError::OutOfOrder }
    );
}

#[test]
fn server_refusals() {
    let hash = b"42".to_vec();
    let (mut server, _) = remote::Handshake::new(key(), hash.clone());
    assert_eq!(
        server.step(remote::Event::Received(b"41xyz".to_vec())),
        remote::Action::Fail { reply: XResponse::BadHash.to_vec(), error: remote::HandshakeError::BadHash }
    );
    let (mut server, _) = remote::Handshake::new(key(), hash.clone());
    assert_eq!(
        server.step(remote::Event::TimedOut),
        remote::Action::Fail { reply: Vec::new(), error: remote::HandshakeError::TimedOut }
    );
    let (mut server, _) = remote::Handshake::new(key(), hash.clone());
    assert_eq!(
        server.step(remote::Event::ReadFailed),
        remote::Action::Fail { reply: XResponse::BadHash.to_vec(), error: remote::HandshakeError::ReadFailed }
    );
    let (mut server, _) = remote::Handshake::new(key(), hash.clone());
    server.step(remote::Event::Received(b"42abc".to_vec()));
    assert_eq!(
        server.step(remote::Event::ConnectFailed),
        remote::Action::Fail { reply: XResponse::NotFound.to_vec(), error: remote::HandshakeError::Unreachable }
    );
    let (mut server, _) = remote::Handshake::new(key(), hash);
    assert_eq!(
        server.step(remote::Event::Connected),
        remote::Action::Fail { reply: Vec::new(), error: remote::HandshakeError::OutOfOrder }
    );
}
