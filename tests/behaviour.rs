use toml_edit::{Document, Value};
use tomato::{
    append_value, format_bash, format_item, format_json, format_raw, format_raw_value,
    format_toml, get_in_node, get_key, remove_key, set_key, table_to_json, to_json,
    value_to_json, Format, KeySegment, Keyspec, TomatoError, TomlVal,
};

fn sample() -> Document {
    let toml = r#"# Sample data for the tests.
[testcases]
are_passing = true
are_complete = false
numbers = [1, 3, 5, 7, 11, 13, 17, 23]
fruits = [ "tomato", "plum", "pluot", "kumquat", "persimmon" ]

[testcases.hashes]
color = "brown"
mats = [ "potatoes", "salt", "oil", "frying" ]

[[nested]]
entry = "one"

[[nested]]
entry = "two"
"#;
    toml.parse::<Document>().expect("test doc should be valid toml")
}

fn key(s: &str) -> Keyspec {
    Keyspec::from_str(s).unwrap()
}

fn doc_of(text: &str) -> Document {
    text.parse::<Document>().unwrap()
}

#[test]
fn mats_render_as_json_and_shell_lists() {
    let doc = sample();
    let item = get_key(&doc, &key("testcases.hashes.mats")).unwrap();
    assert_eq!(format_item(&item, Format::Json), r#"["potatoes","salt","oil","frying"]"#);
    assert_eq!(format_item(&item, Format::Bash), r#"( "potatoes" "salt" "oil" "frying" )"#);
    assert_eq!(format_item(&item, Format::Raw), "potatoes\nsalt\noil\nfrying");
}

#[test]
fn removing_an_array_element_leaves_the_rest() {
    let mut doc = sample();
    let removed = remove_key(&mut doc, &key("testcases.hashes.mats[1]")).unwrap();
    assert_eq!(format_json(&removed), r#""salt""#);
    let rest = get_key(&doc, &key("testcases.hashes.mats")).unwrap();
    assert_eq!(format_json(&rest), r#"["potatoes","oil","frying"]"#);
}

#[test]
fn removed_key_reads_as_nothing() {
    let mut doc = sample();
    let removed = remove_key(&mut doc, &key("testcases.hashes.color")).unwrap();
    assert_eq!(format_raw(&removed), "brown");
    let after = get_key(&doc, &key("testcases.hashes.color")).unwrap();
    assert!(after.is_none());
    assert_eq!(format_item(&after, Format::Raw), "");
    assert_eq!(format_item(&after, Format::Json), "null");
}

#[test]
fn removing_a_missing_last_segment_changes_nothing() {
    let mut doc = sample();
    let before = doc.to_string();
    let removed = remove_key(&mut doc, &key("testcases.hashes.nothing")).unwrap();
    assert!(removed.is_none());
    assert_eq!(doc.to_string(), before);
}

#[test]
fn booleans_render_per_format() {
    let doc = sample();
    let yes = get_key(&doc, &key("testcases.are_passing")).unwrap();
    let no = get_key(&doc, &key("testcases.are_complete")).unwrap();
    assert_eq!(format_item(&yes, Format::Raw), "1");
    assert_eq!(format_item(&no, Format::Raw), "0");
    assert_eq!(format_item(&yes, Format::Bash), "1");
    assert_eq!(format_item(&no, Format::Bash), "0");
    assert_eq!(format_item(&yes, Format::Json), "true");
    assert_eq!(format_item(&no, Format::Json), "false");
}

#[test]
fn quoted_one_is_a_string_and_bare_one_an_integer() {
    let quoted = TomlVal::from_str("\"1\"").unwrap();
    assert!(matches!(quoted.inner, Value::String(ref s) if s.value() == "1"));
    let bare = TomlVal::from_str("1").unwrap();
    assert!(matches!(bare.inner, Value::Integer(ref n) if *n.value() == 1));
}

#[test]
fn coercion_of_other_tokens() {
    let neg = TomlVal::from_str("-17").unwrap();
    assert!(matches!(neg.inner, Value::Integer(ref n) if *n.value() == -17));
    let big = TomlVal::from_str("99999999999999999999").unwrap();
    assert!(matches!(big.inner, Value::Float(_)));
    let word = TomlVal::from_str("hello").unwrap();
    assert!(matches!(word.inner, Value::String(ref s) if s.value() == "hello"));
    let lone = TomlVal::from_str("\"").unwrap();
    assert!(matches!(lone.inner, Value::String(ref s) if s.value() == "\""));
    let min = TomlVal::from_str("-9223372036854775808").unwrap();
    assert!(matches!(min.inner, Value::Integer(ref n) if *n.value() == i64::MIN));
}

#[test]
fn coercion_given_a_float_reading() {
    let made = TomlVal::from_parts("2.5", Some(Value::from(2.5))).unwrap_float();
    assert_eq!(made, 2.5);
    let none = TomlVal::from_parts("2.5x", None);
    assert!(matches!(none.inner, Value::String(ref s) if s.value() == "2.5x"));
}

trait FloatOf {
    fn unwrap_float(self) -> f64;
}

impl FloatOf for TomlVal {
    fn unwrap_float(self) -> f64 {
        match self.inner {
            Value::Float(f) => *f.value(),
            other => panic!("not a float: {:?}", other),
        }
    }
}

#[test]
fn set_then_get_then_restore() {
    let mut doc = sample();
    let before = doc.to_string();
    let k = key("testcases.hashes.color");
    let old = set_key(&mut doc, &k, &Value::from("red")).unwrap();
    let now = get_key(&doc, &k).unwrap();
    assert_eq!(format_raw(&now), "red");
    let back = old.as_value().unwrap().clone();
    let red = set_key(&mut doc, &k, &back).unwrap();
    assert_eq!(format_raw(&red), "red");
    assert_eq!(doc.to_string(), before);
}

#[test]
fn set_needs_the_parent_chain() {
    let mut doc = sample();
    let r = set_key(&mut doc, &key("testcases.extra.depth"), &Value::from(3));
    assert_eq!(r.unwrap_err(), TomatoError::IndexOnNonArray);
    assert_eq!(doc.to_string(), sample().to_string());
    let prior = set_key(&mut doc, &key("testcases.hashes.shade"), &Value::from(3)).unwrap();
    assert!(prior.is_none());
    assert!(doc.to_string().contains("shade = 3"));
}

#[test]
fn empty_quoted_token_is_an_empty_string() {
    let empty = TomlVal::from_str("\"\"").unwrap();
    assert!(matches!(empty.inner, Value::String(ref s) if s.value() == ""));
    let single = TomlVal::from_str("''").unwrap();
    assert!(matches!(single.inner, Value::String(ref s) if s.value() == ""));
    let mixed = TomlVal::from_str("'x\"").unwrap();
    assert!(matches!(mixed.inner, Value::String(ref s) if s.value() == "'x\""));
}

#[test]
fn append_twice_to_a_new_key() {
    let mut doc = sample();
    let k = key("testcases.picks");
    let first = append_value(&mut doc, &k, "7").unwrap();
    assert!(first.is_none());
    let second = append_value(&mut doc, &k, "'x'").unwrap();
    assert_eq!(format_json(&second), "[7]");
    let now = get_key(&doc, &k).unwrap();
    assert_eq!(format_json(&now), r#"[7,"x"]"#);
}

#[test]
fn errors_for_each_case() {
    let mut doc = sample();
    let empty = Keyspec { subkeys: vec![] };
    assert_eq!(remove_key(&mut doc, &empty).unwrap_err(), TomatoError::EmptyKey);
    assert_eq!(set_key(&mut doc, &empty, &Value::from(1)).unwrap_err(), TomatoError::EmptyKey);
    assert_eq!(append_value(&mut doc, &empty, "1").unwrap_err(), TomatoError::EmptyKey);
    assert_eq!(
        remove_key(&mut doc, &key("testcases.nope.x")).unwrap_err(),
        TomatoError::KeyNotFound
    );
    assert_eq!(
        set_key(&mut doc, &key("testcases.are_passing.x"), &Value::from(1)).unwrap_err(),
        TomatoError::IndexOnNonArray
    );
    assert_eq!(
        set_key(&mut doc, &key("testcases.numbers[99]"), &Value::from(1)).unwrap_err(),
        TomatoError::IndexOnNonArray
    );
    assert_eq!(
        append_value(&mut doc, &key("testcases.hashes[0]"), "1").unwrap_err(),
        TomatoError::IndexOnNonArray
    );
    assert_eq!(
        append_value(&mut doc, &key("testcases.are_passing"), "1").unwrap_err(),
        TomatoError::AppendToNonArray
    );
    assert_eq!(doc.to_string(), sample().to_string());
}

#[test]
fn format_names() {
    assert_eq!(Format::from_str("JSON").unwrap(), Format::Json);
    assert_eq!(Format::from_str("Bash").unwrap(), Format::Bash);
    assert_eq!(Format::from_str("raw").unwrap(), Format::Raw);
    assert_eq!(Format::from_str("toml").unwrap(), Format::Toml);
    assert_eq!(Format::from_str("yaml").unwrap_err(), TomatoError::UnknownFormat);
    assert_eq!(Format::from_lower("JSON").unwrap_err(), TomatoError::UnknownFormat);
}

#[test]
fn scalars_of_every_kind() {
    let doc = doc_of("n = -42\nf = 1.5\ninf = inf\nd = 1979-05-27T07:32:00Z\ns = 'lit'\n");
    let n = get_key(&doc, &key("n")).unwrap();
    assert_eq!(format_raw(&n), "-42");
    assert_eq!(format_bash(&n), "-42");
    assert_eq!(format_json(&n), "-42");
    let f = get_key(&doc, &key("f")).unwrap();
    assert_eq!(format_raw(&f), "1.5");
    assert_eq!(format_json(&f), "1.5");
    let inf = get_key(&doc, &key("inf")).unwrap();
    assert_eq!(format_json(&inf), r#""inf""#);
    let d = get_key(&doc, &key("d")).unwrap();
    assert_eq!(format_raw(&d), "1979-05-27T07:32:00Z");
    assert_eq!(format_json(&d), r#""1979-05-27T07:32:00Z""#);
    let s = get_key(&doc, &key("s")).unwrap();
    assert_eq!(format_raw(&s), "lit");
    assert_eq!(format_bash(&s), "'lit'");
    assert_eq!(format_toml(&s), "'lit'");
}

#[test]
fn tables_fall_back_to_json_in_raw() {
    let doc = sample();
    let t = get_key(&doc, &key("testcases.hashes")).unwrap();
    assert_eq!(format_raw(&t), r#"{"color":"brown","mats":["potatoes","salt","oil","frying"]}"#);
    let inline = doc_of("t = { a = 1, b = [true] }\n");
    let it = get_key(&inline, &key("t")).unwrap();
    assert_eq!(format_raw(&it), r#"{"a":1,"b":[true]}"#);
    let value = it.as_value().unwrap().clone();
    assert_eq!(format_raw_value(value.clone()), r#"{"a":1,"b":[true]}"#);
    assert_eq!(value_to_json(value).to_string(), r#"{"a":1,"b":[true]}"#);
    let table = t.as_table().unwrap();
    assert_eq!(table_to_json(table).to_string(), r#"{"color":"brown","mats":["potatoes","salt","oil","frying"]}"#);
    assert_eq!(to_json(&it).to_string(), r#"{"a":1,"b":[true]}"#);
}

#[test]
fn bash_table_and_array_of_tables() {
    let doc = sample();
    let t = get_key(&doc, &key("testcases.hashes")).unwrap();
    assert_eq!(
        format_bash(&t),
        "declare -A bashval\nbashval[color]=\"brown\"\nbashval[mats]=( \"potatoes\" \"salt\" \"oil\" \"frying\" )"
    );
    let aot = get_key(&doc, &key("nested")).unwrap();
    assert_eq!(format_bash(&aot), aot.to_string());
    assert_eq!(format_bash(&get_key(&doc, &key("absent")).unwrap()), "");
}

#[test]
fn index_into_array_of_tables() {
    let doc = sample();
    let entry = get_key(&doc, &key("nested[1].entry")).unwrap();
    assert_eq!(format_raw(&entry), "two");
    let past = get_key(&doc, &key("nested[2].entry")).unwrap();
    assert!(past.is_none());
}

#[test]
fn get_in_node_by_name_and_index() {
    let doc = sample();
    let root = doc.as_item();
    let t = get_in_node(&KeySegment::Name("testcases".to_string()), root).unwrap();
    let nums = get_in_node(&KeySegment::Name("numbers".to_string()), &t).unwrap();
    let third = get_in_node(&KeySegment::Index(2), &nums).unwrap();
    assert_eq!(format_raw(&third), "5");
    assert!(get_in_node(&KeySegment::Index(0), &t).is_none());
    assert!(get_in_node(&KeySegment::Name("x".to_string()), &nums).is_none());
}

#[test]
fn empty_array_in_shell_form() {
    let doc = doc_of("a = []\n");
    let a = get_key(&doc, &key("a")).unwrap();
    assert_eq!(format_bash(&a), "(  )");
    assert_eq!(format_raw(&a), "");
}

#[test]
fn set_keeps_the_decoration_of_the_replaced_scalar() {
    let mut doc = doc_of("[t]\ncolor =   \"brown\"   # the colour\nsize = 3\n");
    set_key(&mut doc, &key("t.color"), &Value::from("taupe")).unwrap();
    assert_eq!(doc.to_string(), "[t]\ncolor =   \"taupe\"   # the colour\nsize = 3\n");
}

#[test]
fn removal_leaves_other_formatting_alone() {
    let text = "# head\n[t] # table comment\na = 1 # one\nb   =   [ 1,  2 ] # two\n";
    let mut doc = doc_of(text);
    remove_key(&mut doc, &key("t.a")).unwrap();
    assert_eq!(doc.to_string(), "# head\n[t] # table comment\nb   =   [ 1,  2 ] # two\n");
}

#[test]
fn array_of_tables_slots_hold_tables_only() {
    let mut doc = sample();
    let r = set_key(&mut doc, &key("nested[0]"), &Value::from(5));
    assert_eq!(r.unwrap_err(), TomatoError::IndexOnNonArray);
    let r = append_value(&mut doc, &key("nested[1]"), "x");
    assert_eq!(r.unwrap_err(), TomatoError::IndexOnNonArray);
    assert_eq!(doc.to_string(), sample().to_string());
    let prior = set_key(&mut doc, &key("nested[0].entry"), &Value::from("uno")).unwrap();
    assert_eq!(format_raw(&prior), "one");
    let now = get_key(&doc, &key("nested")).unwrap();
    assert_eq!(format_json(&now), r#"[{"entry":"uno"},{"entry":"two"}]"#);
}

#[test]
fn replacing_an_array_by_a_scalar_drops_its_decoration() {
    let mut doc = doc_of("a =   [1, 2]\nb = 1\n");
    let prior = set_key(&mut doc, &key("a"), &Value::from(3)).unwrap();
    assert_eq!(format_toml(&prior), "[1, 2]");
    let now = get_key(&doc, &key("a")).unwrap();
    assert_eq!(format_toml(&now), "3");
    assert!(doc.to_string().contains("a = 3"));
}

#[test]
fn empty_node_renders_as_nothing() {
    let doc = sample();
    let none = get_key(&doc, &key("no.such.key")).unwrap();
    assert_eq!(format_toml(&none), "");
    assert_eq!(format_item(&none, Format::Bash), "");
}

#[test]
fn nested_booleans_render_per_format() {
    let doc = doc_of("flags = [true, false, true]\n");
    let flags = get_key(&doc, &key("flags")).unwrap();
    assert_eq!(format_item(&flags, Format::Bash), "( 1 0 1 )");
    assert_eq!(format_item(&flags, Format::Raw), "1\n0\n1");
    assert_eq!(format_item(&flags, Format::Json), "[true,false,true]");
}
