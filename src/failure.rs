use vstd::prelude::*;
use vstd::string::*;

use crate::render::{display_name, render_location, renders, shown_name, Position, Style};

verus! {

#[verifier::external_type_specification]
#[verifier::external_body]
pub struct ExSynError(syn::Error);

#[verifier::external_type_specification]
#[verifier::external_body]
pub struct ExSynFile(syn::File);

/// Whether `syn::parse_file` accepts a text as a source file.
pub uninterp spec fn syn_accepts(code: Seq<char>) -> bool;

/// Relies on `syn::parse_file`: parses the text of a source file; whether it
/// succeeds depends on the text alone.
#[verifier::external_body]
fn parse_file(code: &str) -> (r: Result<syn::File, syn::Error>)
    ensures
        r is Ok <==> syn_accepts(code@),
{
    syn::parse_file(code)
}

/// Relies on `syn::Error::span` and `proc_macro2::Span::start`: where the
/// failure's span starts.
#[verifier::external_body]
fn span_start(error: &syn::Error) -> (r: Position) {
    let p = error.span().start();
    Position { line: p.line, column: p.column }
}

/// Relies on `syn::Error::span` and `proc_macro2::Span::end`: where the
/// failure's span ends.
#[verifier::external_body]
fn span_end(error: &syn::Error) -> (r: Position) {
    let p = error.span().end();
    Position { line: p.line, column: p.column }
}

/// Relies on the `Display` of `syn::Error`: the failure's message.
#[verifier::external_body]
fn error_message(error: &syn::Error) -> (r: String) {
    error.to_string()
}

/// A failure of the analysis of one file.
pub enum FileError {
    /// The file's text does not parse: the parser's message and the span it
    /// points at, with the file's path and text, which the rendering quotes.
    ParseFile {
        message: String,
        start: Position,
        end: Position,
        filepath: String,
        source_code: String,
    },
}

/// Parses the text of the file at `path`. A failure carries the parser's
/// message and span, the path and the text.
pub fn parse_source(path: &str, code: &str) -> (r: Result<syn::File, FileError>)
    ensures
        r is Ok <==> syn_accepts(code@),
        r matches Err(FileError::ParseFile { filepath, source_code, .. }) ==> filepath@ == path@
            && source_code@ == code@,
{
    match parse_file(code) {
        Ok(file) => Ok(file),
        Err(error) => Err(
            FileError::ParseFile {
                message: error_message(&error),
                start: span_start(&error),
                end: span_end(&error),
                filepath: String::from_str(path),
                source_code: String::from_str(code),
            },
        ),
    }
}

impl FileError {
    /// The diagnostic for this failure: `render_location` of its message and
    /// span over its text, under the file's shown name.
    pub fn render(&self, style: Style) -> (r: String)
        ensures
            match self {
                FileError::ParseFile { message, start, end, filepath, source_code } => renders(
                    r@,
                    message@,
                    *start,
                    *end,
                    shown_name(filepath@),
                    source_code@,
                    style,
                ),
            },
    {
        match self {
            FileError::ParseFile { message, start, end, filepath, source_code } => {
                let name = display_name(filepath.as_str());
                render_location(
                    message.as_str(),
                    *start,
                    *end,
                    name.as_str(),
                    source_code.as_str(),
                    style,
                )
            },
        }
    }
}

} // verus!
