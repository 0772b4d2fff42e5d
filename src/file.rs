//! Input files: a file's text is read as JSON and, failing that, as YAML, and
//! the members of its root object become inputs.

use vstd::prelude::*;

use wdl_engine::Value;

use crate::inputs::{entries_view, lemma_put_all_distinct, put_all, Inputs};
use crate::outside::{json_document, parse_json, parse_yaml, yaml_document};

verus! {

/// An error related to an input file.
#[derive(Debug)]
pub enum Error {
    /// An I/O error.
    Io(std::io::Error),
    /// The input file did not contain a map at the root.
    NonMapRoot(String),
    /// Neither JSON nor YAML could be parsed from the file.
    UnsupportedFormat(String),
}

/// What one structured format made of a text.
pub enum Parsed {
    /// The text does not parse.
    Invalid,
    /// The text parses to `value`; `members` holds the members of the root,
    /// in order, where the root is an object.
    Document { value: Value, members: Option<Vec<(String, Value)>> },
}

impl View for Parsed {
    type V = Option<(Value, Option<Seq<(Seq<char>, Value)>>)>;

    open spec fn view(&self) -> Option<(Value, Option<Seq<(Seq<char>, Value)>>)> {
        match self {
            Parsed::Invalid => None,
            Parsed::Document { value, members } => Some(
                (
                    *value,
                    match members {
                        None => None,
                        Some(m) => Some(entries_view(m@)),
                    },
                ),
            ),
        }
    }
}

/// Whether a document parsed to an object.
pub open spec fn is_object(d: Option<(Value, Option<Seq<(Seq<char>, Value)>>)>) -> bool {
    d matches Some((_, Some(_)))
}

/// The members of a document's root object.
pub open spec fn root_members(d: Option<(Value, Option<Seq<(Seq<char>, Value)>>)>) -> Seq<
    (Seq<char>, Value),
> {
    d->Some_0.1->Some_0
}

/// The error kind that a file's text gives, where it gives one: `None` where
/// some root is an object, `Some(true)` where some format parsed but no root
/// is an object, `Some(false)` where no format parsed.
pub open spec fn content_failure(text: Seq<char>) -> Option<bool> {
    if is_object(json_document(text)) || is_object(yaml_document(text)) {
        None
    } else {
        Some(json_document(text) is Some || yaml_document(text) is Some)
    }
}

/// The members of the root object that a file's text gives, in order,
/// where it gives one: JSON's where its root is an object, else YAML's.
pub open spec fn content_members(text: Seq<char>) -> Seq<(Seq<char>, Value)> {
    if is_object(json_document(text)) {
        root_members(json_document(text))
    } else {
        root_members(yaml_document(text))
    }
}

/// The inputs that a file's text gives, where it gives any.
pub open spec fn content_inputs(text: Seq<char>) -> Seq<(Seq<char>, Value)> {
    put_all(Seq::empty(), content_members(text))
}

/// An input file.
pub struct InputFile;

impl InputFile {
    /// Turns what the two formats made of a file at `path` into inputs.
    ///
    /// A JSON object wins. Otherwise, whatever JSON made of the text, a YAML
    /// object is taken. Where neither root is an object, a text that some
    /// format parsed is `NonMapRoot`, and one that neither parsed is
    /// `UnsupportedFormat`.
    pub fn resolve(path: &str, json: Parsed, yaml: Parsed) -> (r: Result<Inputs, Error>)
        ensures
            json matches Parsed::Document { members: Some(m), .. } ==> (r matches Ok(i)
                && i.wf() && i@ == put_all(Seq::empty(), entries_view(m@))),
            !is_object(json@) ==> match yaml {
                Parsed::Document { members: Some(m), .. } => r matches Ok(i) && i.wf() && i@
                    == put_all(Seq::empty(), entries_view(m@)),
                Parsed::Document { members: None, .. } => r matches Err(Error::NonMapRoot(p))
                    && p@ == path@,
                Parsed::Invalid => if json is Document {
                    (r matches Err(Error::NonMapRoot(p)) && p@ == path@)
                } else {
                    (r matches Err(Error::UnsupportedFormat(p)) && p@ == path@)
                },
            },
    {
        if let Parsed::Document { members: Some(m), .. } = json {
            return Ok(Inputs::from_members(m));
        }
        match yaml {
            Parsed::Document { members: Some(m), .. } => Ok(Inputs::from_members(m)),
            Parsed::Document { members: None, .. } => Err(Error::NonMapRoot(String::from_str(path))),
            Parsed::Invalid => match json {
                Parsed::Document { .. } => Err(Error::NonMapRoot(String::from_str(path))),
                Parsed::Invalid => Err(Error::UnsupportedFormat(String::from_str(path))),
            },
        }
    }

    /// Reads the text of an input file at `path` as inputs.
    ///
    /// The text is parsed as JSON first. Only where that gives no object is it
    /// parsed as YAML, which decides as [`InputFile::resolve`] says.
    pub fn from_content(path: &str, text: &str) -> (r: Result<Inputs, Error>)
        ensures
            match content_failure(text@) {
                None => r matches Ok(i) && i.wf() && i@ == content_inputs(text@) && i@
                    == content_members(text@),
                Some(true) => r matches Err(Error::NonMapRoot(p)) && p@ == path@,
                Some(false) => r matches Err(Error::UnsupportedFormat(p)) && p@ == path@,
            },
    {
        let json = parse_json(text);
        if is_object_exec(&json) {
            proof {
                lemma_put_all_distinct(root_members(json@));
            }
            return InputFile::resolve(path, json, Parsed::Invalid);
        }
        let yaml = parse_yaml(text);
        proof {
            if is_object(yaml@) {
                lemma_put_all_distinct(root_members(yaml@));
            }
        }
        InputFile::resolve(path, json, yaml)
    }
}

fn is_object_exec(p: &Parsed) -> (r: bool)
    ensures
        r == is_object(p@),
        r == (p matches Parsed::Document { members: Some(_), .. }),
{
    match p {
        Parsed::Document { members: Some(_), .. } => true,
        _ => false,
    }
}

} // verus!
