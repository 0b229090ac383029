use idiompath::bi::{Bi, KeyError};

#[test]
fn key() {
    let val = Bi::new("testns", "testdb", "testtb", "testix", 7);
    let enc = Bi::encode(&val).unwrap();
    assert_eq!(enc, b"/*testns\0*testdb\0*testtb\0+testix\0!bi\0\0\0\0\0\0\0\x07");

    let dec = Bi::decode(&enc).unwrap();
    assert_eq!(val, dec);
}

#[test]
fn key_large_id() {
    let val = Bi::new("n", "d", "t", "i", 0x0102030405060708);
    let enc = Bi::encode(&val).unwrap();
    assert_eq!(enc, b"/*n\0*d\0*t\0+i\0!bi\x01\x02\x03\x04\x05\x06\x07\x08");
    let dec = Bi::decode(&enc).unwrap();
    assert_eq!(val, dec);
}

#[test]
fn key_rejects_zero_byte_name() {
    let val = Bi::new("te\0st", "db", "tb", "ix", 1);
    assert_eq!(Bi::encode(&val).unwrap_err(), KeyError::InvalidSegment);
}

#[test]
fn key_rejects_malformed_bytes() {
    assert_eq!(Bi::decode(b"garbage").unwrap_err(), KeyError::MalformedKey);
    assert_eq!(Bi::decode(b"/*a\0*b\0*c\0+d\0!bi").unwrap_err(), KeyError::MalformedKey);
    assert_eq!(Bi::decode(b"").unwrap_err(), KeyError::MalformedKey);
}
