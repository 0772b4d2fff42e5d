use wdl_cli::grammar::{assume_string, count_message, decimal_string, is_identifier, key_message, split_point};
use wdl_cli::input::{parse_value, Error};
use wdl_cli::Input;

#[test]
fn identifier_regex() {
    assert!(is_identifier("here_is-an.identifier"));
    assert!(!is_identifier("here is not an identifier"));
}

#[test]
fn assume_string_regex() {
    // Matches.
    assert!(assume_string(""));
    assert!(assume_string("fooBAR082"));
    assert!(assume_string("foo bar baz"));

    // Non-matches.
    assert!(!assume_string("[1, a]"));
}

#[test]
fn file_parsing() {
    // A JSON file path that exists.
    let input = Input::classify("./tests/fixtures/inputs_one.json", true).unwrap();
    assert!(matches!(
        input,
        Input::File(path) if path == "./tests/fixtures/inputs_one.json"
    ));

    // A YAML file path that exists.
    let input = Input::classify("./tests/fixtures/inputs_three.yml", true).unwrap();
    assert!(matches!(
        input,
        Input::File(path) if path == "./tests/fixtures/inputs_three.yml"
    ));

    // A missing file path.
    let err = "./tests/fixtures/missing.json".parse::<Input>().unwrap_err();
    assert!(matches!(
        err,
        Error::FileNotFound(path) if path == "./tests/fixtures/missing.json"
    ));
}

#[test]
fn key_value_pair_parsing() {
    // A standard key-value pair.
    let input = r#"foo="bar""#.parse::<Input>().unwrap();
    let (key, value) = input.unwrap_pair();
    assert_eq!(key, "foo");
    assert_eq!(value.unwrap_string().as_str(), "bar");

    // A standard key-value pair.
    let input = r#"foo.bar-baz_quux="qil""#.parse::<Input>().unwrap();
    let (key, value) = input.unwrap_pair();
    assert_eq!(key, "foo.bar-baz_quux");
    assert_eq!(value.unwrap_string().as_str(), "qil");

    // An invalid identifier for the key.
    let err = r#"foo$="bar""#.parse::<Input>().unwrap_err();
    assert!(matches!(
            err,
            Error::InvalidPair {
                pair,
                reason
            } if pair == r#"foo$="bar""# &&
            reason == r"key `foo$` did not match the identifier regex (`^([\w\-.]+)$`)"));

    // A value that is valid despite that value not being valid as a key.
    let input = r#"foo="bar$""#.parse::<Input>().unwrap();
    let (key, value) = input.unwrap_pair();
    assert_eq!(key, "foo");
    assert_eq!(value.unwrap_string().as_str(), "bar$");
}

#[test]
fn bare_words_become_a_string() {
    let input = Input::classify("status=all is well", false).unwrap();
    let (key, value) = input.unwrap_pair();
    assert_eq!(key, "status");
    assert_eq!(value.unwrap_string().as_str(), "all is well");
}

#[test]
fn literals_keep_their_type() {
    let (_, value) = Input::classify("n=-100", false).unwrap().unwrap_pair();
    assert_eq!(value.as_integer(), Some(-100));
    let (_, value) = Input::classify("b=false", false).unwrap().unwrap_pair();
    assert_eq!(value.as_boolean(), Some(false));
    let (_, value) = Input::classify("x=1.5", false).unwrap().unwrap_pair();
    assert_eq!(value.as_float(), Some(1.5));
}

#[test]
fn malformed_value_is_refused() {
    let err = Input::classify("foo=[1, a]", false).unwrap_err();
    assert!(matches!(err, Error::Deserialize(v) if v == "[1, a]"));
    assert!(parse_value("baz#bar").is_none());
    assert!(parse_value("").is_some());
}

#[test]
fn two_equal_signs_are_refused() {
    let err = Input::classify("a=b=c", true).unwrap_err();
    assert!(matches!(
        err,
        Error::InvalidPair { pair, reason }
            if pair == "a=b=c" && reason == "expected exactly one equal sign (`=`), found 2"
    ));
}

#[test]
fn empty_key_is_refused() {
    let err = Input::classify("=1", false).unwrap_err();
    assert!(matches!(
        err,
        Error::InvalidPair { reason, .. }
            if reason == r"key `` did not match the identifier regex (`^([\w\-.]+)$`)"
    ));
}

#[test]
fn missing_file_is_refused() {
    let err = Input::classify("inputs.json", false).unwrap_err();
    assert!(matches!(err, Error::FileNotFound(p) if p == "inputs.json"));
}

#[test]
fn accessors_tell_the_variants_apart() {
    let file = Input::classify("a.json", true).unwrap();
    assert_eq!(file.as_file().map(|p| p.as_str()), Some("a.json"));
    assert!(file.as_pair().is_none());
    assert_eq!(file.into_file(), Some("a.json".to_string()));

    let pair = Input::classify("k=1", false).unwrap();
    assert!(pair.as_file().is_none());
    assert_eq!(pair.as_pair().map(|(k, _)| k.as_str()), Some("k"));
    let (k, v) = pair.into_pair().unwrap();
    assert_eq!(k, "k");
    assert_eq!(v.as_integer(), Some(1));

    let file = Input::classify("b.yml", true).unwrap();
    assert_eq!(file.unwrap_file(), "b.yml");
    assert!(Input::classify("k=1", false).unwrap().into_file().is_none());
}

#[test]
fn split_point_counts_and_locates() {
    assert_eq!(split_point("abc"), (0, 3));
    assert_eq!(split_point("a=b"), (1, 1));
    assert_eq!(split_point("ab=c=d"), (2, 2));
    assert_eq!(split_point(""), (0, 0));
}

#[test]
fn messages_are_spelled_out() {
    assert_eq!(decimal_string(0), "0");
    assert_eq!(decimal_string(12045), "12045");
    assert_eq!(count_message(3), "expected exactly one equal sign (`=`), found 3");
    assert_eq!(
        key_message("a b"),
        r"key `a b` did not match the identifier regex (`^([\w\-.]+)$`)"
    );
}

#[test]
fn existing_path_parses_as_file() {
    let input = ".".parse::<Input>().unwrap();
    assert!(matches!(input, Input::File(path) if path == "."));
}
