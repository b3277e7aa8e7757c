//! The format detector and the whole translation: select a pipeline by the
//! marker literal the raw text contains, translate, and surface structured
//! errors. A text with neither marker is rejected before any translation; a
//! Content text whose rewritten form fails the JSON parse yields an error
//! carrying the parser's line and column together with the fully rewritten
//! text for diagnosis.

use vstd::prelude::*;
use crate::chars::{contains_seq, contains_pat, to_chars};
use crate::json::{Json,
};
use crate::content::{content_cleaned, content_rewrite};
use crate::inspect::{inspect_spec, parse_txpool_inspect};
use crate::parse::{parse_doc, parse_json, line_col, line_of, col_of, capped};

verus! {

/// The two dump shapes.
#[derive(Debug, PartialEq, Eq, Clone, Copy)]
pub enum DumpFormat {
    Content,
    Inspect,
}

/// The translation errors. A syntax error carries the one-based line and
/// column the JSON parser reported, and the fully rewritten text for
/// diagnosis.
#[derive(Debug, PartialEq, Eq)]
pub enum TranslateError {
    UnrecognizedFormat,
    JsonSyntax { line: usize, column: usize, cleaned: Vec<char> },
}

/// The marker literal of a full-transaction dump.
pub open spec fn content_marker() -> Seq<char> {
    "TxpoolContent"@
}

/// The marker literal of a nonce-summary dump.
pub open spec fn inspect_marker() -> Seq<char> {
    "TxpoolInspect"@
}

/// Selects the translation pipeline: Content when its marker occurs anywhere
/// in the text (checked first), else Inspect when its marker occurs, else
/// the text is not a recognized dump.
pub fn detect_format(input: &Vec<char>) -> (r: Result<DumpFormat, TranslateError>)
    ensures
        r matches Ok(DumpFormat::Content) <==> contains_seq(input@, content_marker()),
        r matches Ok(DumpFormat::Inspect) <==> (!contains_seq(input@, content_marker())
            && contains_seq(input@, inspect_marker())),
        r matches Err(TranslateError::UnrecognizedFormat) <==> (!contains_seq(
            input@,
            content_marker(),
        ) && !contains_seq(input@, inspect_marker())),
{
    let content = to_chars("TxpoolContent");
    if contains_pat(input, &content) {
        return Ok(DumpFormat::Content);
    }
    let inspect = to_chars("TxpoolInspect");
    if contains_pat(input, &inspect) {
        return Ok(DumpFormat::Inspect);
    }
    Err(TranslateError::UnrecognizedFormat)
}

/// Translates a Content dump: runs the ten rewrite passes, then parses the
/// rewritten text as JSON. On failure the error carries the line and column
/// of the parse error and the rewritten text.
pub fn parse_txpool_content(input: &Vec<char>) -> (r: Result<Json, TranslateError>)
    ensures
        match (r, parse_doc(content_cleaned(input@))) {
            (Ok(v), Ok(t)) => v@ == t,
            (Err(e), Err(p)) => e matches TranslateError::JsonSyntax { line, column, cleaned }
                && line == capped(line_of(content_cleaned(input@), p)) && column == capped(
                col_of(content_cleaned(input@), p),
            ) && cleaned@ == content_cleaned(input@),
            _ => false,
        },
{
    let cleaned = content_rewrite(input);
    match parse_json(&cleaned) {
        Ok(v) => Ok(v),
        Err(p) => {
            let (line, column) = line_col(&cleaned, p);
            Err(TranslateError::JsonSyntax { line, column, cleaned })
        },
    }
}

/// Translates a debug-printed dump of either shape into a JSON value.
pub fn parse_debug_format(input: &Vec<char>) -> (r: Result<Json, TranslateError>)
    ensures
        (!contains_seq(input@, content_marker()) && !contains_seq(input@, inspect_marker()))
            <==> r matches Err(TranslateError::UnrecognizedFormat),
        contains_seq(input@, content_marker()) ==> match (
            r,
            parse_doc(content_cleaned(input@)),
        ) {
            (Ok(v), Ok(t)) => v@ == t,
            (Err(e), Err(p)) => e matches TranslateError::JsonSyntax { line, column, cleaned }
                && line == capped(line_of(content_cleaned(input@), p)) && column == capped(
                col_of(content_cleaned(input@), p),
            ) && cleaned@ == content_cleaned(input@),
            _ => false,
        },
        (!contains_seq(input@, content_marker()) && contains_seq(input@, inspect_marker()))
            ==> (r matches Ok(v) && v@ == inspect_spec(input@)),
{
    match detect_format(input) {
        Ok(DumpFormat::Content) => {
            let r = parse_txpool_content(input);
            proof {
                match r {
                    Ok(_) => {
                    },
                    Err(ref e) => {
                        assert(e is JsonSyntax);
                    },
                }
            }
            r
        },
        Ok(DumpFormat::Inspect) => Ok(parse_txpool_inspect(input)),
        Err(e) => Err(e),
    }
}

} // verus!
