use vstd::prelude::*;
use crate::generator::RoutinePlan;
use crate::interpret::{NativeValue, converts, well_typed, convert};
use crate::value::DynValue;

verus! {

/// Whether the grammar accepts `text` as a whole source file.
pub uninterp spec fn file_accepted(text: Seq<char>) -> bool;

/// The canonical structured form of the file parsed from `text`.
pub uninterp spec fn file_form_of(text: Seq<char>) -> Seq<char>;

/// The message of the error met when parsing `text` as a file.
pub uninterp spec fn file_error_message_of(text: Seq<char>) -> Seq<char>;

/// The line (from 1) of the first offending token when parsing `text` as a file.
pub uninterp spec fn file_error_line_of(text: Seq<char>) -> usize;

/// Whether the grammar accepts `text` as a single declaration.
pub uninterp spec fn declaration_accepted(text: Seq<char>) -> bool;

/// The message of the error met when parsing `text` as a declaration.
pub uninterp spec fn declaration_error_message_of(text: Seq<char>) -> Seq<char>;

/// The line (from 1) of the first offending token when parsing `text` as a declaration.
pub uninterp spec fn declaration_error_line_of(text: Seq<char>) -> usize;

/// Relies on syn::parse_file, then syn_serde::json::to_string on success, or
/// the error's Display and the line where its span starts on failure. Each
/// depends on the text alone.
#[verifier::external_body]
fn parse_file_form(text: &str) -> (r: Result<String, (String, usize)>)
    ensures
        r.is_ok() == file_accepted(text@),
        r matches Ok(form) ==> form@ == file_form_of(text@),
        r matches Err(e) ==> e.0@ == file_error_message_of(text@) && e.1 == file_error_line_of(text@),
{
    match syn::parse_file(text) {
        Ok(f) => Ok(syn_serde::json::to_string(&f)),
        Err(e) => Err((e.to_string(), e.span().start().line)),
    }
}

#[verifier::external_type_specification]
#[verifier::external_body]
pub struct ExDeriveInput(syn::DeriveInput);

/// Relies on syn::parse_str for a derive input: the tree on success, or the
/// error's Display and the line where its span starts on failure. Whether it
/// succeeds, and the error, depend on the text alone.
#[verifier::external_body]
fn parse_declaration_tree(text: &str) -> (r: Result<syn::DeriveInput, (String, usize)>)
    ensures
        r.is_ok() == declaration_accepted(text@),
        r matches Err(e) ==> e.0@ == declaration_error_message_of(text@)
            && e.1 == declaration_error_line_of(text@),
{
    match syn::parse_str::<syn::DeriveInput>(text) {
        Ok(d) => Ok(d),
        Err(e) => Err((e.to_string(), e.span().start().line)),
    }
}

/// A parse failure: its message and the line (from 1) of the first offending
/// token.
#[derive(Debug)]
pub struct StructuredParseError {
    pub message: String,
    pub line: u32,
}

/// The error for a failure with `message` whose first offending token is on
/// `line`; the line is cut to 32 bits.
pub fn structured_error(message: String, line: usize) -> (r: StructuredParseError)
    ensures
        r.message == message,
        r.line == line as u32,
{
    StructuredParseError { message, line: line as u32 }
}

/// Parses a whole source file and returns its canonical structured form, or
/// the error at the first offending token.
pub fn parse_file(text: &str) -> (r: Result<String, StructuredParseError>)
    ensures
        r.is_ok() == file_accepted(text@),
        r matches Ok(form) ==> form@ == file_form_of(text@),
        r matches Err(e) ==> e.message@ == file_error_message_of(text@)
            && e.line == file_error_line_of(text@) as u32,
{
    match parse_file_form(text) {
        Ok(form) => Ok(form),
        Err((message, line)) => Err(structured_error(message, line)),
    }
}

/// Parses a single struct, enum or union declaration, or gives the error at
/// the first offending token.
pub fn parse_declaration(text: &str) -> (r: Result<syn::DeriveInput, StructuredParseError>)
    ensures
        r.is_ok() == declaration_accepted(text@),
        r matches Err(e) ==> e.message@ == declaration_error_message_of(text@)
            && e.line == declaration_error_line_of(text@) as u32,
{
    match parse_declaration_tree(text) {
        Ok(d) => Ok(d),
        Err((message, line)) => Err(structured_error(message, line)),
    }
}

/// Converts a parsed declaration, read as a tree, with the conversion
/// routines `plans`; a parse error is handed on unchanged.
pub fn parse_derive_input(plans: &Vec<RoutinePlan>, parsed: Result<NativeValue, StructuredParseError>)
    -> (r: Result<DynValue, StructuredParseError>)
    requires
        parsed matches Ok(v) ==> well_typed(plans@, v),
    ensures
        r is Ok <==> parsed is Ok,
        r matches Ok(out) ==> converts(plans@, parsed->Ok_0, out),
        r matches Err(e) ==> parsed == Err::<NativeValue, StructuredParseError>(e),
{
    match parsed {
        Ok(v) => Ok(convert(plans, v)),
        Err(e) => Err(e),
    }
}

} // verus!
