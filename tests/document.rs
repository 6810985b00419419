use toml_edit::{Document, Value};
use tomato::{
    append_value, format_item, format_toml, get_key, remove_key, set_key, Format, Keyspec,
    TomatoError, TomlVal,
};

fn sample() -> Document {
    let toml = r#"# Sample data for the tests.
[testcases]
are_passing = true
are_complete = false
numbers = [1, 3, 5, 7, 11, 13, 17, 23]
fruits = [ "tomato", "plum", "pluot", "kumquat", "persimmon" ]

[testcases.hashes]
color = "brown"
mats = [ "potatoes", "salt", "oil", "frying" ]

[[nested]]
entry = "one"

[[nested]]
entry = "two"
"#;
    toml.parse::<Document>().expect("test doc should be valid toml")
}

#[test]
fn get() {
    let mut doc = sample();

    let key = Keyspec::from_str("testcases.hashes.color").unwrap();
    let item = get_key(&mut doc, &key).expect("expected to get key 'hashes.color'");
    assert_eq!("brown", format_item(&item, Format::Raw));
    assert_eq!("\"brown\"", format_item(&item, Format::Toml));

    let key = Keyspec::from_str("testcases.hashes.mats[1]").unwrap();
    let item = get_key(&mut doc, &key).expect("expected this key to be valid");
    assert_eq!("salt", format_item(&item, Format::Raw));
}

#[test]
fn set() {
    let mut doc = sample();

    let key = Keyspec::from_str("testcases.hashes.color").expect("test key should be valid");
    let taupe = Value::from("taupe");
    let item = set_key(&mut doc, &key, &taupe).expect("expected to find key 'hashes.color'");
    assert_eq!("brown", format_item(&item, Format::Raw));
    assert!(doc.to_string().contains("color = \"taupe\""));

    let key =
        Keyspec::from_str("testcases.hashes.mats[3]").expect("expected this key to be valid");
    let bacon = Value::from("bacon");
    let item = set_key(&mut doc, &key, &bacon).expect("could not find this key");
    assert_eq!("frying", format_item(&item, Format::Raw));
    assert!(doc.to_string().contains("bacon"));
}

#[test]
fn append() {
    let mut doc = sample();

    let key = Keyspec::from_str("testcases.fruits").expect("test key should be valid");
    let item = append_value(&mut doc, &key, "orange")
        .expect("expected to be able to insert value 'orange'");
    let formatted = format_toml(&item);
    assert_eq!(
        formatted,
        r#"[ "tomato", "plum", "pluot", "kumquat", "persimmon" ]"#
    );
    assert!(doc.to_string().contains(
        r#"fruits = [ "tomato", "plum", "pluot", "kumquat", "persimmon" , "orange"]"#
    ));
}

#[test]
fn append_to_non_existing_key_creates_array() {
    let mut doc = sample();

    // No container is made on the way: only the last field may be missing.
    let key =
        Keyspec::from_str("testcases.these.are.not.fruits").expect("test key should be valid");
    let err = append_value(&mut doc, &key, "leek").unwrap_err();
    assert_eq!(err, TomatoError::IndexOnNonArray);
    assert_eq!(doc.to_string(), sample().to_string());

    let key = Keyspec::from_str("testcases.hashes.vegetables").expect("test key should be valid");
    let item = append_value(&mut doc, &key, "leek")
        .expect("expected to be able to insert value 'leek'");
    assert!(item.is_none());
    assert!(doc.to_string().contains(r#"vegetables = ["leek"]"#));

    let item = append_value(&mut doc, &key, "artichoke")
        .expect("expected to be able to insert value 'artichoke'");
    assert_eq!(format_toml(&item), r#"["leek"]"#);
    assert!(doc
        .to_string()
        .contains(r#"vegetables = ["leek", "artichoke"]"#));
}

#[test]
fn yeet() {
    let mut doc = sample();

    let key = Keyspec::from_str("testcases.hashes.color").unwrap();
    let item = remove_key(&mut doc, &key).expect("expected to find key 'hashes.color'");
    assert_eq!("brown", format_item(&item, Format::Raw));
    assert!(!doc.to_string().contains("color = \"brown\""));

    let key = Keyspec::from_str("testcases.hashes.mats[1]").unwrap();
    let item =
        remove_key(&mut doc, &key).expect("expected to find key testcases.hashes.mats[1]");
    assert_eq!("salt", format_item(&item, Format::Raw));
    assert!(doc
        .to_string()
        .contains(r#"mats = [ "potatoes", "oil", "frying" ]"#));
}

#[test]
fn toml_output() {
    let mut doc = sample();

    let key = Keyspec::from_str("testcases.hashes.mats").unwrap();
    let item = get_key(&mut doc, &key).expect("expected to find key testcases.hashes.mats");
    let formatted = format_toml(&item);
    assert_eq!(formatted, r#"[ "potatoes", "salt", "oil", "frying" ]"#);

    let key = Keyspec::from_str("testcases.numbers").unwrap();
    let item = get_key(&mut doc, &key).expect("expected to find key testcases.numbers");
    let formatted = format_toml(&item);
    assert_eq!(formatted, r#"[1, 3, 5, 7, 11, 13, 17, 23]"#);

    let key = Keyspec::from_str("testcases.hashes.color").unwrap();
    let item = get_key(&mut doc, &key).expect("expected to find key testcases.numbers");
    let formatted = format_toml(&item);
    assert_eq!(formatted, r#""brown""#);

    let key = Keyspec::from_str("testcases.are_passing").unwrap();
    let item = get_key(&mut doc, &key).expect("expected to find key testcases.are_passing");
    let formatted = format_toml(&item);
    assert_eq!(formatted, r#"true"#);

    let key = Keyspec::from_str("testcases.are_complete").unwrap();
    let item = get_key(&mut doc, &key).expect("expected to find key testcases.are_complete");
    let formatted = format_toml(&item);
    assert_eq!(formatted, r#"false"#);
}

#[test]
fn tomlval_parser_handles_booleans() {
    let quoted = r#""false""#;
    let tval = TomlVal::from_str(quoted).expect("conversion should work");
    match tval.inner {
        Value::String(s) => {
            assert_eq!(*s.value(), "false");
        }
        _ => {
            panic!("should have been a string: {:?}", tval.inner);
        }
    }

    let singlequoted = "'true'";
    let tval = TomlVal::from_str(singlequoted).expect("conversion should work");
    match tval.inner {
        Value::String(s) => {
            assert_eq!(*s.value(), "true");
        }
        _ => {
            panic!("should have been a string: {:?}", tval.inner);
        }
    }

    let unquoted = "false";
    let tval2 = TomlVal::from_str(unquoted).expect("conversion should work");
    match tval2.inner {
        Value::Boolean(b) => {
            assert_eq!(*b.value(), false);
        }
        _ => {
            panic!("should have been a boolean: {:?}", tval2.inner);
        }
    }
}

#[test]
fn tomlval_parser_handles_numbers() {
    let quoted = r#""1""#;
    let tval = TomlVal::from_str(quoted).expect("conversion should work");
    match tval.inner {
        Value::String(s) => {
            assert_eq!(*s.value(), "1");
        }
        _ => {
            panic!("should have been a string: {:?}", tval.inner);
        }
    }

    let inty = "1";
    let tval2 = TomlVal::from_str(inty).expect("conversion should work");
    match tval2.inner {
        Value::Integer(n) => {
            assert_eq!(*n.value(), 1);
        }
        _ => {
            panic!("should have been an integer: {:?}", tval2.inner);
        }
    }

    let floaty = "1.5";
    let floatyval = TomlVal::from_str(floaty).expect("conversion should work");
    match floatyval.inner {
        Value::Float(n) => {
            assert_eq!(*n.value(), 1.5);
        }
        _ => {
            panic!("should have been a float: {:?}", floatyval.inner);
        }
    }
}

#[test]
fn can_set_booleans() {
    let mut doc = sample();

    let key = Keyspec::from_str("testcases.are_passing").expect("test key should be valid");
    let newval = Value::from(false);
    let previous =
        set_key(&mut doc, &key, &newval).expect("test fixture known to contain the test key");
    let prevval = previous
        .as_value()
        .expect("the previous value should be a valid toml value");
    match prevval {
        Value::Boolean(b) => {
            assert!(*b.value());
        }
        _ => panic!("fetched value was supposed to be a boolean!"),
    }

    let current = get_key(&mut doc, &key).expect("test fixture known to contain the test key");
    let curval = current
        .as_value()
        .expect("the new value should be a valid toml value");
    match curval {
        Value::Boolean(b) => {
            assert_eq!(*b.value(), false);
        }
        _ => panic!("fetched value was supposed to be a boolean!"),
    }
}
