//! Command-line tokens: each is either a path to an input file or a
//! `key=value` pair.

use vstd::prelude::*;

use wdl_engine::Value;

use crate::grammar::{
    assume_string, count_char, count_message, count_reason, is_identifier, key_message,
    key_reason, key_text, position, spec_assume_string, spec_is_identifier, split_point,
    value_text,
};
use crate::outside::{json_document, parse_json, path_exists, string_of, string_value};
use crate::file::Parsed;

verus! {

/// An error related to inputs.
#[derive(Debug)]
pub enum Error {
    /// A file error.
    File(crate::file::Error),
    /// A file was specified on the command line but not found.
    FileNotFound(String),
    /// Encountered an invalid key-value pair.
    InvalidPair {
        /// The text of the pair.
        pair: String,
        /// The reason the pair was not valid.
        reason: String,
    },
    /// A value that is neither a literal nor plain words.
    Deserialize(String),
}

/// An input parsed from the command line.
#[derive(Debug)]
pub enum Input {
    /// A file, which existed when the token was classified.
    File(String),
    /// A key-value pair.
    Pair {
        /// The key.
        key: String,
        /// The value.
        value: Value,
    },
}

/// Whether the text of a value is accepted: as a literal, or as plain words.
pub open spec fn value_parses(text: Seq<char>) -> bool {
    json_document(text) is Some || spec_assume_string(text)
}

/// The value that an accepted value text gives: the literal's value where it
/// parses as one, and otherwise a string holding the text as it stands.
pub open spec fn pair_value(text: Seq<char>) -> Value {
    if json_document(text) is Some {
        json_document(text)->Some_0.0
    } else {
        string_of(text)
    }
}

/// Whether a token with an equal sign is refused, and `e` is the error it gives
/// where it is.
pub open spec fn pair_error(e: Error, t: Seq<char>) -> bool {
    let n = count_char(t, '=');
    if n != 1 {
        (e matches Error::InvalidPair { pair, reason } && pair@ == t && reason@ == count_reason(n))
    } else if !spec_is_identifier(key_text(t)) {
        (e matches Error::InvalidPair { pair, reason } && pair@ == t && reason@ == key_reason(
            key_text(t),
        ))
    } else {
        e matches Error::Deserialize(v) && v@ == value_text(t)
    }
}

/// Whether a token with an equal sign is a well-formed pair.
pub open spec fn pair_ok(t: Seq<char>) -> bool {
    count_char(t, '=') == 1 && spec_is_identifier(key_text(t)) && value_parses(value_text(t))
}

/// Parses the text of a value: as a literal first, and where that fails, as
/// a string of plain words. `None` where it is neither.
pub fn parse_value(text: &str) -> (r: Option<Value>)
    ensures
        value_parses(text@) ==> r == Some(pair_value(text@)),
        !value_parses(text@) ==> r is None,
{
    match parse_json(text) {
        Parsed::Document { value, .. } => Some(value),
        Parsed::Invalid => {
            if assume_string(text) {
                Some(string_value(text))
            } else {
                None
            }
        },
    }
}

impl Input {
    /// Classifies a token. A token without `=` names a file, which must
    /// exist (`exists` says whether it does). A token with `=` must have
    /// exactly one, with an identifier before it and a value after it.
    pub fn classify(token: &str, exists: bool) -> (r: Result<Input, Error>)
        ensures
            count_char(token@, '=') == 0 ==> (if exists {
                (r matches Ok(Input::File(p)) && p@ == token@)
            } else {
                (r matches Err(Error::FileNotFound(p)) && p@ == token@)
            }),
            count_char(token@, '=') > 0 ==> (if pair_ok(token@) {
                (r matches Ok(Input::Pair { key, value }) && key@ == key_text(token@) && value
                    == pair_value(value_text(token@)))
            } else {
                (r matches Err(e) && pair_error(e, token@))
            }),
    {
        let (count, first) = split_point(token);
        if count == 0 {
            if exists {
                return Ok(Input::File(String::from_str(token)));
            } else {
                return Err(Error::FileNotFound(String::from_str(token)));
            }
        }
        if count != 1 {
            return Err(
                Error::InvalidPair { pair: String::from_str(token), reason: count_message(count) },
            );
        }
        let n = token.unicode_len();
        proof {
            crate::grammar::lemma_count_position(token@, '=');
        }
        let key = token.substring_char(0, first);
        let text = token.substring_char(first + 1, n);
        if !is_identifier(key) {
            return Err(
                Error::InvalidPair { pair: String::from_str(token), reason: key_message(key) },
            );
        }
        match parse_value(text) {
            Some(value) => Ok(Input::Pair { key: String::from_str(key), value }),
            None => Err(Error::Deserialize(String::from_str(text))),
        }
    }

    /// Classifies a token, asking the file system whether a file token
    /// names an existing entry.
    pub fn parse(token: &str) -> (r: Result<Input, Error>)
        ensures
            count_char(token@, '=') == 0 ==> (r matches Ok(Input::File(p)) && p@ == token@) || (
            r matches Err(Error::FileNotFound(p)) && p@ == token@),
            count_char(token@, '=') > 0 ==> (if pair_ok(token@) {
                (r matches Ok(Input::Pair { key, value }) && key@ == key_text(token@) && value
                    == pair_value(value_text(token@)))
            } else {
                (r matches Err(e) && pair_error(e, token@))
            }),
    {
        let (count, _) = split_point(token);
        let exists = count == 0 && path_exists(token);
        Input::classify(token, exists)
    }

    /// The path of a file input.
    pub fn as_file(&self) -> (r: Option<&String>)
        ensures
            match self {
                Input::File(p) => r == Some(p),
                Input::Pair { .. } => r is None,
            },
    {
        match self {
            Input::File(p) => Some(p),
            _ => None,
        }
    }

    /// Consumes the input and returns the path of a file input.
    pub fn into_file(self) -> (r: Option<String>)
        ensures
            match self {
                Input::File(p) => r == Some(p),
                Input::Pair { .. } => r is None,
            },
    {
        match self {
            Input::File(p) => Some(p),
            _ => None,
        }
    }

    /// Consumes a file input and returns its path.
    pub fn unwrap_file(self) -> (r: String)
        requires
            self is File,
        ensures
            self == Input::File(r),
    {
        match self {
            Input::File(p) => p,
            Input::Pair { .. } => String::new(),
        }
    }

    /// The key and value of a pair input.
    pub fn as_pair(&self) -> (r: Option<(&String, &Value)>)
        ensures
            match self {
                Input::Pair { key, value } => r == Some((key, value)),
                Input::File(_) => r is None,
            },
    {
        match self {
            Input::Pair { key, value } => Some((key, value)),
            _ => None,
        }
    }

    /// Consumes the input and returns the key and value of a pair input.
    pub fn into_pair(self) -> (r: Option<(String, Value)>)
        ensures
            match self {
                Input::Pair { key, value } => r == Some((key, value)),
                Input::File(_) => r is None,
            },
    {
        match self {
            Input::Pair { key, value } => Some((key, value)),
            _ => None,
        }
    }

    /// Consumes a pair input and returns its key and value.
    pub fn unwrap_pair(self) -> (r: (String, Value))
        requires
            self is Pair,
        ensures
            self == (Input::Pair { key: r.0, value: r.1 }),
    {
        match self {
            Input::Pair { key, value } => (key, value),
            Input::File(_) => (String::new(), string_value("")),
        }
    }
}

impl std::str::FromStr for Input {
    type Err = Error;

    /// Classifies a token, as [`Input::parse`] does.
    fn from_str(s: &str) -> (r: Result<Input, Error>)
        ensures
            count_char(s@, '=') == 0 ==> (r matches Ok(Input::File(p)) && p@ == s@) || (
            r matches Err(Error::FileNotFound(p)) && p@ == s@),
            count_char(s@, '=') > 0 ==> (if pair_ok(s@) {
                (r matches Ok(Input::Pair { key, value }) && key@ == key_text(s@) && value
                    == pair_value(value_text(s@)))
            } else {
                (r matches Err(e) && pair_error(e, s@))
            }),
    {
        Input::parse(s)
    }
}

} // verus!
