use xproxy::util::{encrypt, CopyStep, Copier, ReadResult};

#[test]
fn encrypt_xors_with_repeated_key() {
    let mut bytes = vec![1u8, 2, 3];
    encrypt(&mut bytes, &[1u8], 0);
    assert_eq!(bytes, vec![0u8, 3, 2]);
}

#[test]
fn encrypt_starts_at_offset() {
    let mut bytes = vec![0u8, 0, 0];
    encrypt(&mut bytes, &[1u8, 2], 1);
    assert_eq!(bytes, vec![2u8, 1, 2]);
}

#[test]
fn encrypt_with_empty_key_changes_nothing() {
    let mut bytes = vec![7u8, 8, 9];
    encrypt(&mut bytes, &[], 5);
    assert_eq!(bytes, vec![7u8, 8, 9]);
}

#[test]
fn encrypt_twice_restores_bytes() {
    let original: Vec<u8> = b"GET / HTTP/1.1\r\n".to_vec();
    let key = "芜湖，起飞~🚀".as_bytes();
    let mut bytes = original.clone();
    encrypt(&mut bytes, key, 3);
    assert_ne!(bytes, original);
    encrypt(&mut bytes, key, 3);
    assert_eq!(bytes, original);
}

#[test]
fn copier_steps() {
    let c = Copier::new();
    assert_eq!(c.step(ReadResult::Data(0)), CopyStep::Finish(0));
    assert_eq!(c.step(ReadResult::Data(5)), CopyStep::Forward(5));
    assert_eq!(c.step(ReadResult::Interrupted), CopyStep::Retry);
    assert_eq!(c.step(ReadResult::Failed), CopyStep::Fail);
}

#[test]
fn copier_advances_offset_modulo_key() {
    let mut c = Copier::new();
    c.advance(5, 3);
    assert_eq!(c.written(), 5);
    assert_eq!(c.offset(), 2);
    c.advance(4, 3);
    assert_eq!(c.written(), 9);
    assert_eq!(c.offset(), 0);
    assert_eq!(c.step(ReadResult::Data(0)), CopyStep::Finish(9));
}

#[test]
fn relaying_in_chunks_equals_encrypting_whole_stream() {
    let key: &[u8] = b"secret";
    let stream: Vec<u8> = (0u8..50).collect();
    let mut whole = stream.clone();
    encrypt(&mut whole, key, 0);

    let mut relayed: Vec<u8> = Vec::new();
    let mut c = Copier::new();
    for chunk in [&stream[0..7], &stream[7..8], &stream[8..31], &stream[31..50]] {
        let mut buf = chunk.to_vec();
        c.seal(&mut buf, key);
        relayed.extend_from_slice(&buf);
        c.advance(buf.len(), key.len());
    }
    assert_eq!(relayed, whole);
    assert_eq!(c.written(), 50);
}
