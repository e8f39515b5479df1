use vstd::prelude::*;

use crate::text::{append_str, lit, str_eq};

verus! {

/// The format of the files to read.
#[derive(Clone, Copy, Debug, PartialEq, Eq)]
pub enum InputFormat {
    Curl,
    Hurl,
}

/// The format to write.
#[derive(Clone, Copy, Debug, PartialEq, Eq)]
pub enum OutputFormat {
    Hurl,
    Json,
    Html,
}

/// Why the options were not read: a message to show and stop (help, version), or an
/// error.
#[derive(Clone, Debug, PartialEq, Eq)]
pub enum OptionsError {
    Info(String),
    Error(String),
}

/// What the command line of the formatter gives: its flags and the values of its
/// options.
pub struct Matches {
    pub check: bool,
    pub color: bool,
    pub no_color: bool,
    pub in_place: bool,
    pub standalone: bool,
    pub input_format: Option<String>,
    pub output_format: Option<String>,
    pub input_files: Option<Vec<String>>,
}

/// The error carrying a message.
pub open spec fn error_message(e: OptionsError) -> Option<Seq<char>> {
    match e {
        OptionsError::Error(m) => Some(m@),
        OptionsError::Info(_) => None,
    }
}

/// An optional value is the given text.
pub open spec fn has_value(o: Option<String>, t: Seq<char>) -> bool {
    o matches Some(v) && v@ == t
}

/// Whether the files are only checked.
pub fn check(m: &Matches) -> (b: bool)
    ensures
        b == m.check,
{
    m.check
}

/// Colour is used when asked for; else not when refused or when formatting in place;
/// else when the output is a terminal.
pub fn color(m: &Matches, stdout_is_terminal: bool) -> (b: bool)
    ensures
        b == (m.color || (!m.no_color && !m.in_place && stdout_is_terminal)),
{
    if m.color {
        true
    } else if m.no_color || m.in_place {
        false
    } else {
        stdout_is_terminal
    }
}

/// The input format named on the command line: `hurl` or `curl`.
pub fn input_format(m: &Matches) -> (r: Result<InputFormat, OptionsError>)
    requires
        m.input_format is Some,
    ensures
        ({
            let v = m.input_format->0@;
            if v == "hurl"@ {
                r == Ok::<InputFormat, OptionsError>(InputFormat::Hurl)
            } else if v == "curl"@ {
                r == Ok::<InputFormat, OptionsError>(InputFormat::Curl)
            } else {
                r matches Err(e) && error_message(e) == Some("Invalid input format "@ + v)
            }
        }),
{
    let v = match &m.input_format {
        Some(v) => v.as_str(),
        None => "",
    };
    if str_eq(v, "hurl") {
        Ok(InputFormat::Hurl)
    } else if str_eq(v, "curl") {
        Ok(InputFormat::Curl)
    } else {
        let mut message = lit("Invalid input format ");
        append_str(&mut message, v);
        Err(OptionsError::Error(message))
    }
}

/// The output format named on the command line: `hurl`, `json` or `html`.
pub fn output_format(m: &Matches) -> (r: Result<OutputFormat, OptionsError>)
    requires
        m.output_format is Some,
    ensures
        ({
            let v = m.output_format->0@;
            if v == "hurl"@ {
                r == Ok::<OutputFormat, OptionsError>(OutputFormat::Hurl)
            } else if v == "json"@ {
                r == Ok::<OutputFormat, OptionsError>(OutputFormat::Json)
            } else if v == "html"@ {
                r == Ok::<OutputFormat, OptionsError>(OutputFormat::Html)
            } else {
                r matches Err(e) && error_message(e) == Some("Invalid output format "@ + v)
            }
        }),
{
    let v = match &m.output_format {
        Some(v) => v.as_str(),
        None => "",
    };
    if str_eq(v, "hurl") {
        Ok(OutputFormat::Hurl)
    } else if str_eq(v, "json") {
        Ok(OutputFormat::Json)
    } else if str_eq(v, "html") {
        Ok(OutputFormat::Html)
    } else {
        let mut message = lit("Invalid output format ");
        append_str(&mut message, v);
        Err(OptionsError::Error(message))
    }
}

/// Whether an optional value is the given text.
fn is_value(o: &Option<String>, t: &str) -> (b: bool)
    ensures
        b == has_value(*o, t@),
{
    match o {
        Some(v) => str_eq(v.as_str(), t),
        None => false,
    }
}

/// Formatting in place: only Hurl files, and only files.
pub fn in_place(m: &Matches) -> (r: Result<bool, OptionsError>)
    ensures
        !m.in_place ==> r == Ok::<bool, OptionsError>(false),
        m.in_place && !has_value(m.input_format, "hurl"@) ==> r is Err
            && error_message(r->Err_0) == Some("You can use --in-place only hurl format!"@),
        m.in_place && has_value(m.input_format, "hurl"@) && m.input_files is None ==> r is Err
            && error_message(r->Err_0) == Some("You can not use --in-place with standard input stream!"@),
        m.in_place && has_value(m.input_format, "hurl"@) && m.input_files is Some ==> r == Ok::<bool, OptionsError>(true),
{
    if m.in_place {
        if !is_value(&m.input_format, "hurl") {
            Err(OptionsError::Error(lit("You can use --in-place only hurl format!")))
        } else if m.input_files.is_none() {
            Err(OptionsError::Error(lit("You can not use --in-place with standard input stream!")))
        } else {
            Ok(true)
        }
    } else {
        Ok(false)
    }
}

/// A standalone document: only with HTML output.
pub fn standalone(m: &Matches) -> (r: Result<bool, OptionsError>)
    ensures
        !m.standalone ==> r == Ok::<bool, OptionsError>(false),
        m.standalone && has_value(m.output_format, "html"@) ==> r == Ok::<bool, OptionsError>(true),
        m.standalone && !has_value(m.output_format, "html"@) ==> r is Err
            && error_message(r->Err_0) == Some("use --standalone option only with html output"@),
{
    if m.standalone {
        if !is_value(&m.output_format, "html") {
            Err(OptionsError::Error(lit("use --standalone option only with html output")))
        } else {
            Ok(true)
        }
    } else {
        Ok(false)
    }
}

} // verus!
