use autoclicker::keys::{key_from_bytes, key_to_bytes, Key};

#[test]
fn names_match_without_regard_to_case() {
    assert_eq!(key_from_bytes(b"insert"), Some(Key::Insert));
    assert_eq!(key_from_bytes(b"INSERT"), Some(Key::Insert));
    assert_eq!(key_from_bytes(b"Insert"), Some(Key::Insert));
    assert_eq!(key_from_bytes(b"f3"), Some(Key::F(3)));
    assert_eq!(key_from_bytes(b"F12"), Some(Key::F(12)));
}

#[test]
fn single_letters_map_to_letter_keys() {
    assert_eq!(key_from_bytes(b"a"), Some(Key::Letter(b'A')));
    assert_eq!(key_from_bytes(b"Z"), Some(Key::Letter(b'Z')));
}

#[test]
fn unrecognized_names_map_to_no_key() {
    assert_eq!(key_from_bytes(b""), None);
    assert_eq!(key_from_bytes(b"f13"), None);
    assert_eq!(key_from_bytes(b"f0"), None);
    assert_eq!(key_from_bytes(b"f01"), None);
    assert_eq!(key_from_bytes(b"5"), None);
    assert_eq!(key_from_bytes(b"Escape"), None);
    assert_eq!(key_from_bytes(b"Unknown(7)"), None);
}

#[test]
fn canonical_names() {
    assert_eq!(key_to_bytes(&Key::Insert), b"Insert".to_vec());
    assert_eq!(key_to_bytes(&Key::F(1)), b"F1".to_vec());
    assert_eq!(key_to_bytes(&Key::F(12)), b"F12".to_vec());
    assert_eq!(key_to_bytes(&Key::Letter(b'Q')), b"Q".to_vec());
    assert_eq!(key_to_bytes(&Key::Unknown(42)), b"Unknown(42)".to_vec());
}

#[test]
fn canonical_names_round_trip() {
    let mut keys = vec![Key::Insert];
    for n in 1..=12u8 {
        keys.push(Key::F(n));
    }
    for b in b'A'..=b'Z' {
        keys.push(Key::Letter(b));
    }
    for k in keys {
        assert_eq!(key_from_bytes(&key_to_bytes(&k)), Some(k));
    }
}
