use toml_edit::Document;
use tomato::{format_bash, format_json, get_key, Keyspec};

fn sample() -> Document {
    let toml = r#"# Sample data for the tests.
[testcases]
are_passing = true
are_complete = false
numbers = [1, 3, 5, 7, 11, 13, 17, 23]
fruits = [ "tomato", "plum", "pluot", "kumquat", "persimmon" ]

[testcases.hashes]
color = "brown"
mats = [ "potatoes", "salt", "oil", "frying" ]

[[nested]]
entry = "one"

[[nested]]
entry = "two"
"#;
    toml.parse::<Document>().expect("test doc should be valid toml")
}

#[test]
fn bash_ouput() {
    let mut doc = sample();

    let key = Keyspec::from_str("testcases.hashes.mats").unwrap();
    let item = get_key(&mut doc, &key).expect("expected to find key testcases.hashes.mats");
    let formatted = format_bash(&item);
    assert_eq!(formatted, r#"( "potatoes" "salt" "oil" "frying" )"#);

    let key = Keyspec::from_str("testcases.numbers").unwrap();
    let item = get_key(&mut doc, &key).expect("expected to find key testcases.numbers");
    let formatted = format_bash(&item);
    assert_eq!(formatted, r#"( 1 3 5 7 11 13 17 23 )"#);

    let key = Keyspec::from_str("testcases.hashes.color").unwrap();
    let item = get_key(&mut doc, &key).expect("expected to find key testcases.numbers");
    let formatted = format_bash(&item);
    assert_eq!(formatted, r#""brown""#);

    let key = Keyspec::from_str("testcases.are_passing").unwrap();
    let item = get_key(&mut doc, &key).expect("expected to find key testcases.are_passing");
    let formatted = format_bash(&item);
    assert_eq!(formatted, r#"1"#);

    let key = Keyspec::from_str("testcases.are_complete").unwrap();
    let item = get_key(&mut doc, &key).expect("expected to find key testcases.are_complete");
    let formatted = format_bash(&item);
    assert_eq!(formatted, r#"0"#);
}

#[test]
fn bash_assoc_array() {
    let toml = r#"
name = "testtable"
inline_table = { catname = "Kitsune", fruit = "kumquat", "safe_pet" = true, class = "Archaeologist" }"#;
    let expected = r#"declare -A bashval
bashval[catname]="Kitsune"
bashval[fruit]="kumquat"
bashval[safe_pet]=1
bashval[class]="Archaeologist""#;

    let mut doc = toml
        .parse::<Document>()
        .expect("test string should be valid toml");

    let key = Keyspec::from_str("inline_table").unwrap();
    let item = get_key(&mut doc, &key).expect("expected to get key 'inline_table'");
    let bashified = format_bash(&item);
    assert_eq!(bashified, expected);
}

#[test]
fn json_output() {
    let mut doc = sample();

    let key = Keyspec::from_str("testcases.hashes.mats").unwrap();
    let item = get_key(&mut doc, &key).expect("expected to find key testcases.hashes.mats");
    let formatted = format_json(&item);
    assert_eq!(formatted, r#"["potatoes","salt","oil","frying"]"#);

    let key = Keyspec::from_str("testcases.numbers").unwrap();
    let item = get_key(&mut doc, &key).expect("expected to find key testcases.numbers");
    let formatted = format_json(&item);
    assert_eq!(formatted, r#"[1,3,5,7,11,13,17,23]"#);

    let key = Keyspec::from_str("testcases.hashes.color").unwrap();
    let item = get_key(&mut doc, &key).expect("expected to find key testcases.numbers");
    let formatted = format_json(&item);
    assert_eq!(formatted, r#""brown""#);

    let key = Keyspec::from_str("testcases.are_passing").unwrap();
    let item = get_key(&mut doc, &key).expect("expected to find key testcases.are_passing");
    let formatted = format_json(&item);
    assert_eq!(formatted, r#"true"#);

    let key = Keyspec::from_str("testcases.are_complete").unwrap();
    let item = get_key(&mut doc, &key).expect("expected to find key testcases.are_complete");
    let formatted = format_json(&item);
    assert_eq!(formatted, r#"false"#);

    let key = Keyspec::from_str("nested").unwrap();
    let item = get_key(&mut doc, &key).expect("expected to find key nested");
    let formatted = format_json(&item);
    assert_eq!(formatted, r#"[{"entry":"one"},{"entry":"two"}]"#);

    let item = doc.as_item();
    let json = format_json(item);
    println!("{json}");
    assert_eq!(
        json,
        r#"{"testcases":{"are_passing":true,"are_complete":false,"numbers":[1,3,5,7,11,13,17,23],"fruits":["tomato","plum","pluot","kumquat","persimmon"],"hashes":{"color":"brown","mats":["potatoes","salt","oil","frying"]}},"nested":[{"entry":"one"},{"entry":"two"}]}"#
    );
}
