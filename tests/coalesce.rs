use wdl_cli::file::{Error as FileError, InputFile, Parsed};
use wdl_cli::input::Error;
use wdl_cli::inputs::Found;
use wdl_cli::Inputs;
use wdl_engine::{PrimitiveValue, Value};

const INPUTS_ONE: &str = r#"{ "foo": "bar", "baz": 42.0, "quux": "qil" }"#;
const INPUTS_TWO: &str = r#"{ "foo": "bar", "baz": 128.0, "new": "foobarbaz" }"#;
const INPUTS_THREE: &str = "new_two: bazbarfoo\n";

const ONE: &str = "./tests/fixtures/inputs_one.json";
const TWO: &str = "./tests/fixtures/inputs_two.json";
const THREE: &str = "./tests/fixtures/inputs_three.yml";
const MISSING: &str = "./tests/fixtures/missing.json";

fn found_at(token: &str) -> Found {
    match token {
        ONE => Found::Text(INPUTS_ONE.to_string()),
        TWO => Found::Text(INPUTS_TWO.to_string()),
        THREE => Found::Text(INPUTS_THREE.to_string()),
        _ => Found::Missing,
    }
}

fn run(tokens: &[&str]) -> Result<Inputs, Error> {
    Inputs::coalesce(tokens.iter().map(|t| (t.to_string(), found_at(t))).collect())
}

fn check_string_value(inputs: &Inputs, key: &str, value: &str) {
    let input = inputs.get(key).unwrap();
    assert_eq!(input.as_string().unwrap().as_str(), value);
}

fn check_float_value(inputs: &Inputs, key: &str, value: f64) {
    let input = inputs.get(key).unwrap();
    assert_eq!(input.as_float().unwrap(), value);
}

fn check_boolean_value(inputs: &Inputs, key: &str, value: bool) {
    let input = inputs.get(key).unwrap();
    assert_eq!(input.as_boolean().unwrap(), value);
}

fn check_integer_value(inputs: &Inputs, key: &str, value: i64) {
    let input = inputs.get(key).unwrap();
    assert_eq!(input.as_integer().unwrap(), value);
}

fn string(s: &str) -> Value {
    Value::Primitive(PrimitiveValue::new_string(s))
}

#[test]
fn coalesce() {
    // The standard coalescing order.
    let inputs = run(&[ONE, TWO, THREE]).unwrap();
    assert_eq!(inputs.len(), 5);
    check_string_value(&inputs, "foo", "bar");
    check_float_value(&inputs, "baz", 128.0);
    check_string_value(&inputs, "quux", "qil");
    check_string_value(&inputs, "new", "foobarbaz");
    check_string_value(&inputs, "new_two", "bazbarfoo");

    // The opposite coalescing order.
    let inputs = run(&[THREE, TWO, ONE]).unwrap();
    assert_eq!(inputs.len(), 5);
    check_string_value(&inputs, "foo", "bar");
    check_float_value(&inputs, "baz", 42.0);
    check_string_value(&inputs, "quux", "qil");
    check_string_value(&inputs, "new", "foobarbaz");
    check_string_value(&inputs, "new_two", "bazbarfoo");

    // An example with some random key-value pairs thrown in.
    let inputs = run(&[
        r#"sandwich=-100"#,
        ONE,
        TWO,
        r#"quux="jacks""#,
        THREE,
        r#"baz=false"#,
    ])
    .unwrap();
    assert_eq!(inputs.len(), 6);
    check_string_value(&inputs, "foo", "bar");
    check_boolean_value(&inputs, "baz", false);
    check_string_value(&inputs, "quux", "jacks");
    check_string_value(&inputs, "new", "foobarbaz");
    check_string_value(&inputs, "new_two", "bazbarfoo");
    check_integer_value(&inputs, "sandwich", -100);

    // An invalid key-value pair.
    let error = run(&[ONE, "foo=baz#bar"]).unwrap_err();
    assert!(matches!(
        error,
        Error::Deserialize(value) if value == "baz#bar"
    ));

    // A missing file.
    let error = run(&[ONE, TWO, THREE, MISSING]).unwrap_err();
    assert!(matches!(
            error,
            Error::FileNotFound(path) if path == MISSING));
}

#[test]
fn nonmap_root() {
    // A JSON file that does not have a map at the root.
    let err = InputFile::from_content("./tests/fixtures/nonmap_inputs.json", "[1, 2, 3]").unwrap_err();
    assert!(matches!(
        err,
        FileError::NonMapRoot(path) if path == "./tests/fixtures/nonmap_inputs.json"
    ));

    // A YML file that does not have a map at the root.
    let err = InputFile::from_content("./tests/fixtures/nonmap_inputs.yml", "- 1\n- 2\n").unwrap_err();
    assert!(matches!(
        err,
        FileError::NonMapRoot(path) if path == "./tests/fixtures/nonmap_inputs.yml"
    ));
}

#[test]
fn neither_format_parses() {
    let err = InputFile::from_content("bad.txt", "{ a: [ }").unwrap_err();
    assert!(matches!(err, FileError::UnsupportedFormat(p) if p == "bad.txt"));
}

#[test]
fn yaml_object_is_read() {
    let inputs = InputFile::from_content("in.yml", "a: 1\nb: two\n").unwrap();
    assert_eq!(inputs.len(), 2);
    assert_eq!(inputs.key_at(0), "a");
    assert_eq!(inputs.key_at(1), "b");
    check_integer_value(&inputs, "a", 1);
    check_string_value(&inputs, "b", "two");
}

#[test]
fn non_object_under_json_falls_through_to_yaml() {
    let json = Parsed::Document { value: string("x"), members: None };
    let yaml = Parsed::Document {
        value: string("ignored"),
        members: Some(vec![("k".to_string(), string("v"))]),
    };
    let inputs = InputFile::resolve("f", json, yaml).unwrap();
    assert_eq!(inputs.len(), 1);
    check_string_value(&inputs, "k", "v");

    let json = Parsed::Document { value: string("x"), members: None };
    let yaml = Parsed::Document { value: string("y"), members: None };
    assert!(matches!(InputFile::resolve("f", json, yaml), Err(FileError::NonMapRoot(p)) if p == "f"));

    let json = Parsed::Document { value: string("x"), members: None };
    assert!(matches!(InputFile::resolve("f", json, Parsed::Invalid), Err(FileError::NonMapRoot(p)) if p == "f"));

    let json = Parsed::Invalid;
    let yaml = Parsed::Invalid;
    assert!(matches!(InputFile::resolve("f", json, yaml), Err(FileError::UnsupportedFormat(p)) if p == "f"));
}

#[test]
fn json_object_wins_over_yaml() {
    let json = Parsed::Document {
        value: string("ignored"),
        members: Some(vec![("j".to_string(), string("1"))]),
    };
    let inputs = InputFile::resolve("f", json, Parsed::Invalid).unwrap();
    assert_eq!(inputs.len(), 1);
    check_string_value(&inputs, "j", "1");
}

#[test]
fn reversed_order_changes_the_winner() {
    let forward = run(&[ONE, TWO]).unwrap();
    let backward = run(&[TWO, ONE]).unwrap();
    check_float_value(&forward, "baz", 128.0);
    check_float_value(&backward, "baz", 42.0);
}

#[test]
fn first_error_aborts() {
    let error = run(&[ONE, TWO, MISSING, "a=b=c"]).unwrap_err();
    assert!(matches!(error, Error::FileNotFound(p) if p == MISSING));
    let error = run(&["a=b=c", MISSING]).unwrap_err();
    assert!(matches!(error, Error::InvalidPair { .. }));
}

#[test]
fn unreadable_file_is_an_io_error() {
    let io = std::io::Error::new(std::io::ErrorKind::PermissionDenied, "denied");
    let error = Inputs::coalesce(vec![("f.json".to_string(), Found::Unreadable(io))]).unwrap_err();
    assert!(matches!(
        error,
        Error::File(FileError::Io(e))
            if e.kind() == std::io::ErrorKind::PermissionDenied && e.to_string() == "denied"
    ));
}

#[test]
fn coalescing_twice_gives_the_same_mapping() {
    let tokens = [r#"sandwich=-100"#, ONE, TWO, r#"quux="jacks""#, THREE];
    let a = run(&tokens).unwrap().into_inner();
    let b = run(&tokens).unwrap().into_inner();
    assert_eq!(a.len(), b.len());
    for ((ka, va), (kb, vb)) in a.iter().zip(b.iter()) {
        assert_eq!(ka, kb);
        assert_eq!(format!("{va:?}"), format!("{vb:?}"));
    }
    let keys: Vec<&str> = a.iter().map(|(k, _)| k.as_str()).collect();
    assert_eq!(keys, vec!["sandwich", "foo", "baz", "quux", "new", "new_two"]);
}

#[test]
fn empty_token_list_gives_empty_inputs() {
    let inputs = Inputs::coalesce(Vec::new()).unwrap();
    assert!(inputs.is_empty());
}

#[test]
fn insert_replaces_in_place() {
    let mut inputs = Inputs::new();
    inputs.insert("a".to_string(), string("1"));
    inputs.insert("b".to_string(), string("2"));
    inputs.insert("a".to_string(), string("3"));
    assert_eq!(inputs.len(), 2);
    assert_eq!(inputs.key_at(0), "a");
    check_string_value(&inputs, "a", "3");
    assert!(inputs.get("c").is_none());
    let mut step = Inputs::new();
    assert!(step.add_input("x=1", Found::Missing).is_ok());
    assert!(step.add_input("x=[1, a]", Found::Missing).is_err());
    check_integer_value(&step, "x", 1);
}

#[test]
fn later_list_wins_on_shared_keys() {
    let first = run(&[ONE, "only_first=1"]).unwrap();
    let second = run(&[TWO]).unwrap();
    let both = run(&[ONE, "only_first=1", TWO]).unwrap();
    assert_eq!(both.len(), 5);
    check_float_value(&second, "baz", 128.0);
    check_float_value(&first, "baz", 42.0);
    check_float_value(&both, "baz", 128.0);
    check_integer_value(&both, "only_first", 1);
    check_string_value(&both, "quux", "qil");
    check_string_value(&both, "new", "foobarbaz");
}

#[test]
fn same_text_gives_equal_inputs() {
    let a = InputFile::from_content("a", INPUTS_TWO).unwrap().into_inner();
    let b = InputFile::from_content("b", INPUTS_TWO).unwrap().into_inner();
    assert_eq!(format!("{a:?}"), format!("{b:?}"));
}

#[test]
fn default_is_empty_and_clone_keeps_entries() {
    assert!(Inputs::default().is_empty());
    let inputs = run(&[ONE, "sandwich=-100"]).unwrap();
    let copy = inputs.clone();
    assert_eq!(copy.len(), 4);
    assert_eq!(copy.key_at(0), "foo");
    assert_eq!(copy.key_at(3), "sandwich");
    check_float_value(&copy, "baz", 42.0);
    check_integer_value(&copy, "sandwich", -100);
}
