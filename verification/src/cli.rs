//! What the command lines of the programs mean.

use crate::error::{ErrorView, SparkXError};
use crate::text::{blank, characters, is_blank, join, lowercase, push_char, same_text, small_letters};
use vstd::prelude::*;

verus! {

/// A table and the file that holds it.
#[derive(Debug)]
pub struct TableSpec {
    pub name: String,
    pub path: String,
}

/// The place of the first equals sign from `from` on, or the end of the text.
pub open spec fn equals_place(text: Seq<char>, from: int) -> int
    decreases text.len() - from,
{
    if from >= text.len() {
        text.len() as int
    } else if text[from] == '=' {
        from
    } else {
        equals_place(text, from + 1)
    }
}

/// The name and the path that a text of the form NAME=PATH holds, or why it holds none.
pub open spec fn spec_of(text: Seq<char>) -> Result<(Seq<char>, Seq<char>), Seq<char>> {
    let place = equals_place(text, 0);
    if place >= text.len() {
        Err("table must use NAME=PATH"@)
    } else if blank(text.take(place)) || blank(text.skip(place + 1)) {
        Err("table name and path must not be empty"@)
    } else {
        Ok((text.take(place), text.skip(place + 1)))
    }
}

impl TableSpec {
    /// The table that a text of the form NAME=PATH names.
    pub fn parse(text: &str) -> (r: Result<Self, String>)
        ensures
            match r {
                Ok(spec) => spec_of(text@) == Ok::<(Seq<char>, Seq<char>), Seq<char>>(
                    (spec.name@, spec.path@),
                ),
                Err(message) => spec_of(text@) == Err::<(Seq<char>, Seq<char>), Seq<char>>(
                    message@,
                ),
            },
    {
        let chars = characters(text);
        let mut name: String = String::new();
        let mut place: usize = 0;
        proof {
            assert(name@ =~= text@.take(0));
        }
        while place < chars.len() && chars[place] != '='
            invariant
                chars@ == text@,
                place <= chars.len(),
                name@ == text@.take(place as int),
                equals_place(text@, 0) == equals_place(text@, place as int),
            decreases chars.len() - place,
        {
            push_char(&mut name, chars[place]);
            place = place + 1;
            proof {
                assert(name@ =~= text@.take(place as int));
            }
        }
        if place >= chars.len() {
            return Err("table must use NAME=PATH".to_owned());
        }
        let mut path: String = String::new();
        let first: usize = place + 1;
        proof {
            assert(path@ =~= text@.subrange(first as int, first as int));
        }
        for i in first..chars.len()
            invariant
                chars@ == text@,
                first <= chars.len(),
                path@ == text@.subrange(first as int, i as int),
        {
            push_char(&mut path, chars[i]);
            proof {
                assert(path@ =~= text@.subrange(first as int, i + 1));
            }
        }
        proof {
            assert(path@ =~= text@.skip(first as int));
        }
        if is_blank(name.as_str()) || is_blank(path.as_str()) {
            return Err("table name and path must not be empty".to_owned());
        }
        Ok(TableSpec { name, path })
    }
}

/// The format of a file.
#[derive(Debug, Clone, Copy, PartialEq, Eq, Structural)]
pub enum InputFormat {
    Csv,
    Parquet,
}

/// The format of a file with an extension, where that tells it.
pub open spec fn format_of(extension: Seq<char>) -> Option<InputFormat> {
    let name = small_letters(extension);
    if name == "csv"@ {
        Some(InputFormat::Csv)
    } else if name == "parquet"@ || name == "pq"@ {
        Some(InputFormat::Parquet)
    } else {
        None
    }
}

/// The format of a file with an extension, where that tells it.
pub fn infer_format(extension: &str) -> (r: Option<InputFormat>)
    ensures
        r == format_of(extension@),
{
    let name = lowercase(extension);
    if same_text(name.as_str(), "csv") {
        Some(InputFormat::Csv)
    } else if same_text(name.as_str(), "parquet") || same_text(name.as_str(), "pq") {
        Some(InputFormat::Parquet)
    } else {
        None
    }
}

/// The error of a file whose name does not tell its format.
pub fn unknown_format(path: &str) -> (r: SparkXError)
    ensures
        r@ == ErrorView::Planning(
            "cannot infer table format for "@ + path@
                + "; use a .csv, .parquet, or .pq filename"@,
        ),
{
    let mut message: String = join("cannot infer table format for ", path);
    message.append("; use a .csv, .parquet, or .pq filename");
    SparkXError::planning(message)
}

} // verus!
