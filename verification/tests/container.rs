//! Tests of the binary chunk container reader.
use claymore::chunk::Reader;

fn pstr(s: &str) -> Vec<u8> {
    let mut v = vec![s.len() as u8];
    v.extend_from_slice(s.as_bytes());
    v
}

fn chunk(name: &str, body: &[u8]) -> Vec<u8> {
    let mut v = pstr(name);
    v.extend_from_slice(&(body.len() as u32).to_le_bytes());
    v.extend_from_slice(body);
    v
}

#[test]
fn reads_fixed_width_fields() {
    let data = [7u8, 0x78, 0x56, 0x34, 0x12, 9u8];
    let mut r = Reader::root(&data);
    assert_eq!(r.read_u8().unwrap(), 7);
    assert_eq!(r.read_u32().unwrap(), 0x12345678);
    assert!(r.has_more());
    assert_eq!(r.read_u8().unwrap(), 9);
    assert!(!r.has_more());
}

#[test]
fn reads_length_prefixed_string() {
    let mut data = pstr("hello");
    data.push(42);
    let mut r = Reader::root(&data);
    assert_eq!(r.read_str().unwrap(), b"hello");
    assert_eq!(r.read_u8().unwrap(), 42);
}

#[test]
fn read_past_boundary_is_an_error_not_a_panic() {
    let data = [1u8, 2u8];
    let mut r = Reader::root(&data);
    assert!(r.read_u32().is_err());
    // the failed read consumed nothing
    assert_eq!(r.read_u8().unwrap(), 1);
    assert_eq!(r.read_u8().unwrap(), 2);
    assert!(r.read_u8().is_err());
}

#[test]
fn enter_bounds_child_and_advances_parent() {
    let mut body = Vec::new();
    body.extend_from_slice(&chunk("first", &[10, 11, 12]));
    body.extend_from_slice(&chunk("second", &[20]));
    let mut parent = Reader::root(&body);

    let mut child = parent.enter().unwrap();
    assert_eq!(child.get_name().as_slice(), b"first");
    // consume only one byte of the child; the parent must still stand
    // past the whole child chunk
    assert_eq!(child.read_u8().unwrap(), 10);
    assert!(child.has_more());

    let mut child2 = parent.enter().unwrap();
    assert_eq!(child2.get_name().as_slice(), b"second");
    assert_eq!(child2.read_u8().unwrap(), 20);
    assert!(!child2.has_more());
    assert!(child2.read_u8().is_err());
    assert!(!parent.has_more());
}

#[test]
fn child_cannot_outgrow_parent() {
    // header declares 100 body bytes but only 2 follow
    let mut data = pstr("big");
    data.extend_from_slice(&100u32.to_le_bytes());
    data.extend_from_slice(&[1, 2]);
    let mut r = Reader::root(&data);
    assert!(r.enter().is_err());
}
