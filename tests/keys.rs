use tomato::keys::segments_of_token;
use tomato::{KeySegment, Keyspec, TomatoError};

#[test]
fn key_parsing_easy() {
    let mut key = Keyspec::from_str("a").unwrap();
    assert!(key.subkeys.len() == 1);
    assert_eq!(key.subkeys[0], KeySegment::Name("a".to_string()));

    key = Keyspec::from_str("a.b.c").unwrap();
    assert!(key.subkeys.len() == 3);
    assert_eq!(key.subkeys[2], KeySegment::Name("c".to_string()));
}

#[test]
fn key_parsing_arrays() {
    let mut key = Keyspec::from_str("a[1]").unwrap();
    assert!(key.subkeys.len() == 2);
    assert_eq!(key.subkeys[0], KeySegment::Name("a".to_string()));
    assert_eq!(key.subkeys[1], KeySegment::Index(1));

    key = Keyspec::from_str("a[1].b[2]").unwrap();
    assert!(key.subkeys.len() == 4);
    assert_eq!(key.subkeys[2], KeySegment::Name("b".to_string()));
    assert_eq!(key.subkeys[3], KeySegment::Index(2));

    key = Keyspec::from_str("a[1].b.c[3]").unwrap();
    assert!(key.subkeys.len() == 5);
    assert_eq!(key.subkeys[2], KeySegment::Name("b".to_string()));
    assert_eq!(key.subkeys[3], KeySegment::Name("c".to_string()));
    assert_eq!(key.subkeys[4], KeySegment::Index(3));

    let identical = Keyspec::from_str("a.1.b.c.3").unwrap();
    assert!(identical.subkeys.len() == 5);
    assert_eq!(identical.subkeys[2], KeySegment::Name("b".to_string()));
    assert_eq!(identical.subkeys[3], KeySegment::Name("c".to_string()));
    assert_eq!(identical.subkeys[4], KeySegment::Index(3));
}

#[test]
fn key_parsing_bad() {
    // The bracket pattern does not match here, so the whole token is a name.
    match Keyspec::from_str("a[bbbbb[bb]") {
        Ok(k) => {
            assert_eq!(k.to_string(), "a[bbbbb[bb]");
        }
        Err(e) => {
            assert!(format!("{:?}", e).contains("bbbb"));
        }
    };
}

#[test]
fn key_with_oversized_index_is_malformed() {
    let r = Keyspec::from_str("a[99999999999999999999999999]");
    assert_eq!(r.unwrap_err(), TomatoError::MalformedKey);
}

#[test]
fn key_display_joins_segments() {
    let key = Keyspec::from_str("a[10].b.7").unwrap();
    assert_eq!(key.to_string(), "a.10.b.7");
    assert_eq!(KeySegment::Index(42).to_string(), "42");
}

#[test]
fn key_plus_sign_number_is_an_index() {
    let key = Keyspec::from_str("+4.-4").unwrap();
    assert_eq!(key.subkeys[0], KeySegment::Index(4));
    assert_eq!(key.subkeys[1], KeySegment::Name("-4".to_string()));
}

#[test]
fn empty_key_is_one_empty_name() {
    let key = Keyspec::from_str("").unwrap();
    assert_eq!(key.subkeys, vec![KeySegment::Name(String::new())]);
}

#[test]
fn token_segments_from_given_groups() {
    let segs = segments_of_token("x[5]", Some(("x".to_string(), "5".to_string()))).unwrap();
    assert_eq!(segs, vec![KeySegment::Name("x".to_string()), KeySegment::Index(5)]);
    let segs = segments_of_token("12", None).unwrap();
    assert_eq!(segs, vec![KeySegment::Index(12)]);
    let segs = segments_of_token("name", None).unwrap();
    assert_eq!(segs, vec![KeySegment::Name("name".to_string())]);
    let bad = segments_of_token("x[\u{661}]", Some(("x".to_string(), "\u{661}".to_string())));
    assert_eq!(bad.unwrap_err(), TomatoError::MalformedKey);
}
