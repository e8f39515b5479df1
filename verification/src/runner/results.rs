use vstd::prelude::*;

use std::collections::HashMap;

use crate::common::{value_text, FormatError, SourceInfo, Value};
use crate::runner::predicate::{copy_value, same_value};
use crate::http::libcurl;
use crate::text::{append_str, lit, push_char};

verus! {

/// The options of a run.
#[derive(Clone, Debug, PartialEq, Eq)]
pub struct RunnerOptions {
    pub fail_fast: bool,
    pub variables: HashMap<String, String>,
    pub to_entry: Option<usize>,
}

/// The result of running a Hurl file.
#[derive(Debug, PartialEq, Eq)]
pub struct HurlResult {
    pub filename: String,
    pub entries: Vec<EntryResult>,
    pub time_in_ms: u128,
    pub success: bool,
    pub cookies: Vec<libcurl::Cookie>,
}

/// The errors of entries, entry after entry.
pub open spec fn entries_errors(es: Seq<EntryResult>) -> Seq<Error>
    decreases es.len(),
{
    if es.len() == 0 {
        Seq::empty()
    } else {
        entries_errors(es.drop_last()) + es.last().errors@
    }
}

/// Entries have no error at all exactly when none of them has one.
proof fn lemma_no_errors(es: Seq<EntryResult>)
    ensures
        entries_errors(es).len() == 0 <==> forall|i: int| 0 <= i < es.len() ==> (#[trigger] es[i]).errors@.len() == 0,
    decreases es.len(),
{
    if es.len() > 0 {
        lemma_no_errors(es.drop_last());
        if entries_errors(es).len() == 0 {
            assert forall|i: int| 0 <= i < es.len() implies (#[trigger] es[i]).errors@.len() == 0 by {
                if i < es.len() - 1 {
                    assert(es.drop_last()[i] == es[i]);
                }
            }
        }
        if forall|i: int| 0 <= i < es.len() ==> (#[trigger] es[i]).errors@.len() == 0 {
            assert forall|i: int| 0 <= i < es.drop_last().len() implies (#[trigger] es.drop_last()[i]).errors@.len() == 0 by {
                assert(es.drop_last()[i] == es[i]);
            }
            assert(es[es.len() - 1].errors@.len() == 0);
        }
    }
}

impl HurlResult {
    /// The errors of the run: those of each entry, entry after entry, copied.
    pub fn errors(&self) -> (r: Vec<Error>)
        ensures
            r@.len() == entries_errors(self.entries@).len(),
            forall|k: int| 0 <= k < r@.len() ==> same_error(entries_errors(self.entries@)[k], #[trigger] r@[k]),
    {
        let mut r: Vec<Error> = Vec::new();
        let mut i: usize = 0;
        while i < self.entries.len()
            invariant
                i <= self.entries@.len(),
                r@.len() == entries_errors(self.entries@.take(i as int)).len(),
                forall|k: int| 0 <= k < r@.len() ==> same_error(entries_errors(self.entries@.take(i as int))[k], #[trigger] r@[k]),
            decreases self.entries@.len() - i,
        {
            let errors = &self.entries[i].errors;
            let ghost before = entries_errors(self.entries@.take(i as int));
            let mut j: usize = 0;
            while j < errors.len()
                invariant
                    j <= errors@.len(),
                    r@.len() == before.len() + j,
                    forall|k: int| 0 <= k < r@.len() ==> same_error((before + errors@)[k], #[trigger] r@[k]),
                decreases errors@.len() - j,
            {
                let e = copy_error(&errors[j]);
                r.push(e);
                j += 1;
            }
            proof {
                assert(self.entries@.take(i + 1).drop_last() =~= self.entries@.take(i as int));
                assert(self.entries@.take(i + 1).last() == self.entries@[i as int]);
            }
            i += 1;
        }
        assert(self.entries@.take(self.entries@.len() as int) =~= self.entries@);
        r
    }

    /// The run succeeded when no entry has an error.
    pub fn success(&self) -> (b: bool)
        ensures
            b == forall|i: int| 0 <= i < self.entries@.len() ==> (#[trigger] self.entries@[i]).errors@.len() == 0,
            b == (entries_errors(self.entries@).len() == 0),
    {
        proof {
            lemma_no_errors(self.entries@);
        }
        let mut i: usize = 0;
        while i < self.entries.len()
            invariant
                i <= self.entries@.len(),
                forall|k: int| 0 <= k < i ==> (#[trigger] self.entries@[k]).errors@.len() == 0,
            decreases self.entries@.len() - i,
        {
            if self.entries[i].errors.len() > 0 {
                proof {
                    lemma_no_errors(self.entries@);
                    assert(self.entries@[i as int].errors@.len() > 0);
                }
                return false;
            }
            i = i + 1;
        }
        true
    }
}

/// The result of running one entry of a Hurl file.
#[derive(Debug, PartialEq, Eq)]
pub struct EntryResult {
    pub request: Option<libcurl::Request>,
    pub response: Option<libcurl::Response>,
    pub captures: Vec<CaptureResult>,
    pub asserts: Vec<AssertResult>,
    pub errors: Vec<Error>,
    pub time_in_ms: u128,
}

/// The result of an assert.
#[derive(Debug, PartialEq, Eq)]
pub enum AssertResult {
    Version { actual: String, expected: String, source_info: SourceInfo },
    Status { actual: u64, expected: u64, source_info: SourceInfo },
    Header { actual: Result<String, Error>, expected: String, source_info: SourceInfo },
    Body { actual: Result<Value, Error>, expected: Result<Value, Error>, source_info: SourceInfo },
    Explicit { actual: Result<Option<Value>, Error>, source_info: SourceInfo, predicate_result: Option<Result<(), Error>> },
}

/// A captured value and its name.
#[derive(Debug, PartialEq, Eq)]
pub struct CaptureResult {
    pub name: String,
    pub value: Value,
}

/// An error of a run, where it is in the file, and whether an assert raised it.
#[derive(Debug, PartialEq, Eq)]
pub struct Error {
    pub source_info: SourceInfo,
    pub inner: RunnerError,
    pub assert: bool,
}

/// What went wrong while running a file.
#[derive(Debug, PartialEq, Eq)]
pub enum RunnerError {
    TemplateVariableNotDefined { name: String },
    VariableNotDefined { name: String },
    InvalidURL(String),
    HttpConnection { url: String, message: String },
    FileReadAccess { value: String },
    InvalidDecoding { charset: String },
    InvalidCharset { charset: String },
    QueryHeaderNotFound,
    QueryCookieNotFound,
    QueryInvalidJsonpathExpression { value: String },
    QueryInvalidXpathEval,
    QueryInvalidXml,
    QueryInvalidJson,
    NoQueryResult,
    SubqueryInvalidInput,
    PredicateType,
    PredicateValue(Value),
    AssertFailure { actual: String, expected: String, type_mismatch: bool },
    InvalidRegex(),
    AssertHeaderValueError { actual: String },
    AssertBodyValueError { actual: String, expected: String },
    AssertVersion { actual: String },
    AssertStatus { actual: String },
    UnrenderableVariable { value: String },
    CouldNotResolveProxyName,
    CouldNotResolveHost,
    FailToConnect,
    Timeout,
    TooManyRedirect,
    CouldNotParseResponse,
    SSLCertificate,
}

/// The short description of an error.
pub open spec fn description_text(e: RunnerError) -> Seq<char> {
    match e {
        RunnerError::InvalidURL(..) => "Invalid url"@,
        RunnerError::TemplateVariableNotDefined { .. } => "Undefined Variable"@,
        RunnerError::VariableNotDefined { .. } => "Undefined Variable"@,
        RunnerError::HttpConnection { .. } => "Http Connection"@,
        RunnerError::PredicateValue(..) => "Assert - Predicate Value Failed"@,
        RunnerError::InvalidRegex() => "Invalid regex"@,
        RunnerError::FileReadAccess { .. } => "File ReadAccess"@,
        RunnerError::QueryInvalidXml => "Invalid XML"@,
        RunnerError::QueryInvalidXpathEval => "Invalid xpath expression"@,
        RunnerError::QueryHeaderNotFound => "Header not Found"@,
        RunnerError::QueryCookieNotFound => "Cookie not Found"@,
        RunnerError::AssertHeaderValueError { .. } => "Assert Header Value"@,
        RunnerError::AssertBodyValueError { .. } => "Assert Body Value"@,
        RunnerError::AssertVersion { .. } => "Assert Http Version"@,
        RunnerError::AssertStatus { .. } => "Assert Status"@,
        RunnerError::QueryInvalidJson => "Invalid Json"@,
        RunnerError::QueryInvalidJsonpathExpression { .. } => "Invalid jsonpath"@,
        RunnerError::PredicateType => "Assert - Inconsistent predicate type"@,
        RunnerError::SubqueryInvalidInput => "Subquery error"@,
        RunnerError::InvalidDecoding { .. } => "Invalid Decoding"@,
        RunnerError::InvalidCharset { .. } => "Invalid Charset"@,
        RunnerError::AssertFailure { .. } => "Assert Failure"@,
        RunnerError::UnrenderableVariable { .. } => "Unrenderable Variable"@,
        RunnerError::NoQueryResult => "No query result"@,
        RunnerError::CouldNotResolveProxyName => "Http Connection"@,
        RunnerError::CouldNotResolveHost => "Http Connection"@,
        RunnerError::FailToConnect => "Http Connection"@,
        RunnerError::Timeout => "Http Connection"@,
        RunnerError::TooManyRedirect => "Http Connection"@,
        RunnerError::CouldNotParseResponse => "Http Connection"@,
        RunnerError::SSLCertificate => "Http Connection"@,
    }
}

/// `a` + `x` + `b`.
pub open spec fn around(a: Seq<char>, x: Seq<char>, b: Seq<char>) -> Seq<char> {
    a + x + b
}

/// How to fix an error.
pub open spec fn fixme_text(e: RunnerError) -> Seq<char> {
    match e {
        RunnerError::InvalidURL(url) => around("Invalid url <"@, url@, ">"@),
        RunnerError::TemplateVariableNotDefined { name } => around("You must set the variable "@, name@, ""@),
        RunnerError::HttpConnection { url, .. } => around("can not connect to "@, url@, ""@),
        RunnerError::AssertVersion { actual } => around("actual value is <"@, actual@, ">"@),
        RunnerError::AssertStatus { actual } => around("actual value is <"@, actual@, ">"@),
        RunnerError::PredicateValue(value) => around("actual value is <"@, value_text(value), ">"@),
        RunnerError::InvalidRegex() => "Regex expression is not valid"@,
        RunnerError::FileReadAccess { value } => around("File "@, value@, " can not be read"@),
        RunnerError::QueryInvalidXml => "The Http response is not a valid XML"@,
        RunnerError::QueryHeaderNotFound => "This header has not been found in the response"@,
        RunnerError::QueryCookieNotFound => "This cookie has not been found in the response"@,
        RunnerError::QueryInvalidXpathEval => "The xpath expression is not valid"@,
        RunnerError::AssertHeaderValueError { actual } => around("actual value is <"@, actual@, ">"@),
        RunnerError::AssertBodyValueError { actual, .. } => around("actual value is <"@, actual@, ">"@),
        RunnerError::QueryInvalidJson => "The http response is not a valid json"@,
        RunnerError::QueryInvalidJsonpathExpression { value } => around("the jsonpath expression '"@, value@, "' is not valid"@),
        RunnerError::PredicateType => "predicate type inconsistent with value return by query"@,
        RunnerError::SubqueryInvalidInput => "Type from query result and subquery do not match"@,
        RunnerError::InvalidDecoding { charset } => around("The body can not be decoded with charset '"@, charset@, "'"@),
        RunnerError::InvalidCharset { charset } => around("The charset '"@, charset@, "' is not valid"@),
        RunnerError::AssertFailure { actual, expected, .. } => "actual:   "@ + actual@ + "\nexpected: "@ + expected@,
        RunnerError::VariableNotDefined { name } => around("You must set the variable "@, name@, ""@),
        RunnerError::UnrenderableVariable { value } => around("value "@, value@, " can not be rendered"@),
        RunnerError::NoQueryResult => "The query didn't return any result"@,
        RunnerError::CouldNotResolveProxyName => "Could not resolve proxy name"@,
        RunnerError::CouldNotResolveHost => "Could not resolve host"@,
        RunnerError::FailToConnect => "Fail to connect"@,
        RunnerError::Timeout => "Timeout has been reached"@,
        RunnerError::TooManyRedirect => "Too many redirect"@,
        RunnerError::CouldNotParseResponse => "Could not parse response"@,
        RunnerError::SSLCertificate => "SSL certificate problem"@,
    }
}

/// `a` + `x` + `b`, as a new string.
fn wrap(a: &str, x: &str, b: &str) -> (s: String)
    ensures
        s@ == around(a@, x@, b@),
{
    let mut s = lit(a);
    append_str(&mut s, x);
    append_str(&mut s, b);
    s
}

impl FormatError for Error {
    fn source_info(&self) -> (s: SourceInfo)
        ensures
            s == self.source_info,
    {
        self.source_info
    }

    fn description(&self) -> (s: String)
        ensures
            s@ == description_text(self.inner),
    {
        match &self.inner {
            RunnerError::InvalidURL(..) => lit("Invalid url"),
            RunnerError::TemplateVariableNotDefined { .. } => lit("Undefined Variable"),
            RunnerError::VariableNotDefined { .. } => lit("Undefined Variable"),
            RunnerError::HttpConnection { .. } => lit("Http Connection"),
            RunnerError::PredicateValue(..) => lit("Assert - Predicate Value Failed"),
            RunnerError::InvalidRegex() => lit("Invalid regex"),
            RunnerError::FileReadAccess { .. } => lit("File ReadAccess"),
            RunnerError::QueryInvalidXml => lit("Invalid XML"),
            RunnerError::QueryInvalidXpathEval => lit("Invalid xpath expression"),
            RunnerError::QueryHeaderNotFound => lit("Header not Found"),
            RunnerError::QueryCookieNotFound => lit("Cookie not Found"),
            RunnerError::AssertHeaderValueError { .. } => lit("Assert Header Value"),
            RunnerError::AssertBodyValueError { .. } => lit("Assert Body Value"),
            RunnerError::AssertVersion { .. } => lit("Assert Http Version"),
            RunnerError::AssertStatus { .. } => lit("Assert Status"),
            RunnerError::QueryInvalidJson => lit("Invalid Json"),
            RunnerError::QueryInvalidJsonpathExpression { .. } => lit("Invalid jsonpath"),
            RunnerError::PredicateType => lit("Assert - Inconsistent predicate type"),
            RunnerError::SubqueryInvalidInput => lit("Subquery error"),
            RunnerError::InvalidDecoding { .. } => lit("Invalid Decoding"),
            RunnerError::InvalidCharset { .. } => lit("Invalid Charset"),
            RunnerError::AssertFailure { .. } => lit("Assert Failure"),
            RunnerError::UnrenderableVariable { .. } => lit("Unrenderable Variable"),
            RunnerError::NoQueryResult => lit("No query result"),
            RunnerError::CouldNotResolveProxyName => lit("Http Connection"),
            RunnerError::CouldNotResolveHost => lit("Http Connection"),
            RunnerError::FailToConnect => lit("Http Connection"),
            RunnerError::Timeout => lit("Http Connection"),
            RunnerError::TooManyRedirect => lit("Http Connection"),
            RunnerError::CouldNotParseResponse => lit("Http Connection"),
            RunnerError::SSLCertificate => lit("Http Connection"),
        }
    }

    fn fixme(&self) -> (s: String)
        ensures
            s@ == fixme_text(self.inner),
    {
        match &self.inner {
            RunnerError::InvalidURL(url) => wrap("Invalid url <", url.as_str(), ">"),
            RunnerError::TemplateVariableNotDefined { name } => wrap("You must set the variable ", name.as_str(), ""),
            RunnerError::HttpConnection { url, .. } => wrap("can not connect to ", url.as_str(), ""),
            RunnerError::AssertVersion { actual } => wrap("actual value is <", actual.as_str(), ">"),
            RunnerError::AssertStatus { actual } => wrap("actual value is <", actual.as_str(), ">"),
            RunnerError::PredicateValue(value) => {
                let t = value.to_string();
                wrap("actual value is <", t.as_str(), ">")
            },
            RunnerError::InvalidRegex() => lit("Regex expression is not valid"),
            RunnerError::FileReadAccess { value } => wrap("File ", value.as_str(), " can not be read"),
            RunnerError::QueryInvalidXml => lit("The Http response is not a valid XML"),
            RunnerError::QueryHeaderNotFound => lit("This header has not been found in the response"),
            RunnerError::QueryCookieNotFound => lit("This cookie has not been found in the response"),
            RunnerError::QueryInvalidXpathEval => lit("The xpath expression is not valid"),
            RunnerError::AssertHeaderValueError { actual } => wrap("actual value is <", actual.as_str(), ">"),
            RunnerError::AssertBodyValueError { actual, .. } => wrap("actual value is <", actual.as_str(), ">"),
            RunnerError::QueryInvalidJson => lit("The http response is not a valid json"),
            RunnerError::QueryInvalidJsonpathExpression { value } => wrap("the jsonpath expression '", value.as_str(), "' is not valid"),
            RunnerError::PredicateType => lit("predicate type inconsistent with value return by query"),
            RunnerError::SubqueryInvalidInput => lit("Type from query result and subquery do not match"),
            RunnerError::InvalidDecoding { charset } => wrap("The body can not be decoded with charset '", charset.as_str(), "'"),
            RunnerError::InvalidCharset { charset } => wrap("The charset '", charset.as_str(), "' is not valid"),
            RunnerError::AssertFailure { actual, expected, .. } => {
                let mut s = wrap("actual:   ", actual.as_str(), "\nexpected: ");
                append_str(&mut s, expected.as_str());
                s
            },
            RunnerError::VariableNotDefined { name } => wrap("You must set the variable ", name.as_str(), ""),
            RunnerError::UnrenderableVariable { value } => wrap("value ", value.as_str(), " can not be rendered"),
            RunnerError::NoQueryResult => lit("The query didn't return any result"),
            RunnerError::CouldNotResolveProxyName => lit("Could not resolve proxy name"),
            RunnerError::CouldNotResolveHost => lit("Could not resolve host"),
            RunnerError::FailToConnect => lit("Fail to connect"),
            RunnerError::Timeout => lit("Timeout has been reached"),
            RunnerError::TooManyRedirect => lit("Too many redirect"),
            RunnerError::CouldNotParseResponse => lit("Could not parse response"),
            RunnerError::SSLCertificate => lit("SSL certificate problem"),
        }
    }
}


/// Two errors of a run are the same: same kind, same texts and values.
pub open spec fn same_runner_error(a: RunnerError, b: RunnerError) -> bool {
    match a {
        RunnerError::TemplateVariableNotDefined { name: a_name } => b matches RunnerError::TemplateVariableNotDefined { name: b_name } && a_name@ == b_name@,
        RunnerError::VariableNotDefined { name: a_name } => b matches RunnerError::VariableNotDefined { name: b_name } && a_name@ == b_name@,
        RunnerError::InvalidURL(x) => b matches RunnerError::InvalidURL(y) && x@ == y@,
        RunnerError::HttpConnection { url: a_url, message: a_message } => b matches RunnerError::HttpConnection { url: b_url, message: b_message } && a_url@ == b_url@ && a_message@ == b_message@,
        RunnerError::FileReadAccess { value: a_value } => b matches RunnerError::FileReadAccess { value: b_value } && a_value@ == b_value@,
        RunnerError::InvalidDecoding { charset: a_charset } => b matches RunnerError::InvalidDecoding { charset: b_charset } && a_charset@ == b_charset@,
        RunnerError::InvalidCharset { charset: a_charset } => b matches RunnerError::InvalidCharset { charset: b_charset } && a_charset@ == b_charset@,
        RunnerError::QueryHeaderNotFound => b is QueryHeaderNotFound,
        RunnerError::QueryCookieNotFound => b is QueryCookieNotFound,
        RunnerError::QueryInvalidJsonpathExpression { value: a_value } => b matches RunnerError::QueryInvalidJsonpathExpression { value: b_value } && a_value@ == b_value@,
        RunnerError::QueryInvalidXpathEval => b is QueryInvalidXpathEval,
        RunnerError::QueryInvalidXml => b is QueryInvalidXml,
        RunnerError::QueryInvalidJson => b is QueryInvalidJson,
        RunnerError::NoQueryResult => b is NoQueryResult,
        RunnerError::SubqueryInvalidInput => b is SubqueryInvalidInput,
        RunnerError::PredicateType => b is PredicateType,
        RunnerError::PredicateValue(x) => b matches RunnerError::PredicateValue(y) && same_value(x, y),
        RunnerError::AssertFailure { actual: a1, expected: a2, type_mismatch: a3 } => b matches RunnerError::AssertFailure { actual: b1, expected: b2, type_mismatch: b3 } && a1@ == b1@ && a2@ == b2@ && a3 == b3,
        RunnerError::InvalidRegex() => b is InvalidRegex,
        RunnerError::AssertHeaderValueError { actual: a_actual } => b matches RunnerError::AssertHeaderValueError { actual: b_actual } && a_actual@ == b_actual@,
        RunnerError::AssertBodyValueError { actual: a_actual, expected: a_expected } => b matches RunnerError::AssertBodyValueError { actual: b_actual, expected: b_expected } && a_actual@ == b_actual@ && a_expected@ == b_expected@,
        RunnerError::AssertVersion { actual: a_actual } => b matches RunnerError::AssertVersion { actual: b_actual } && a_actual@ == b_actual@,
        RunnerError::AssertStatus { actual: a_actual } => b matches RunnerError::AssertStatus { actual: b_actual } && a_actual@ == b_actual@,
        RunnerError::UnrenderableVariable { value: a_value } => b matches RunnerError::UnrenderableVariable { value: b_value } && a_value@ == b_value@,
        RunnerError::CouldNotResolveProxyName => b is CouldNotResolveProxyName,
        RunnerError::CouldNotResolveHost => b is CouldNotResolveHost,
        RunnerError::FailToConnect => b is FailToConnect,
        RunnerError::Timeout => b is Timeout,
        RunnerError::TooManyRedirect => b is TooManyRedirect,
        RunnerError::CouldNotParseResponse => b is CouldNotParseResponse,
        RunnerError::SSLCertificate => b is SSLCertificate,
    }
}

/// Two errors are the same: same place, same error, both raised by an assert or neither.
pub open spec fn same_error(a: Error, b: Error) -> bool {
    a.source_info == b.source_info && a.assert == b.assert && same_runner_error(a.inner, b.inner)
}

/// A copy of an error of a run.
fn copy_runner_error(e: &RunnerError) -> (r: RunnerError)
    ensures
        same_runner_error(*e, r),
{
    match e {
        RunnerError::TemplateVariableNotDefined { name } => RunnerError::TemplateVariableNotDefined { name: name.clone() },
        RunnerError::VariableNotDefined { name } => RunnerError::VariableNotDefined { name: name.clone() },
        RunnerError::InvalidURL(x) => RunnerError::InvalidURL(x.clone()),
        RunnerError::HttpConnection { url, message } => RunnerError::HttpConnection { url: url.clone(), message: message.clone() },
        RunnerError::FileReadAccess { value } => RunnerError::FileReadAccess { value: value.clone() },
        RunnerError::InvalidDecoding { charset } => RunnerError::InvalidDecoding { charset: charset.clone() },
        RunnerError::InvalidCharset { charset } => RunnerError::InvalidCharset { charset: charset.clone() },
        RunnerError::QueryHeaderNotFound => RunnerError::QueryHeaderNotFound,
        RunnerError::QueryCookieNotFound => RunnerError::QueryCookieNotFound,
        RunnerError::QueryInvalidJsonpathExpression { value } => RunnerError::QueryInvalidJsonpathExpression { value: value.clone() },
        RunnerError::QueryInvalidXpathEval => RunnerError::QueryInvalidXpathEval,
        RunnerError::QueryInvalidXml => RunnerError::QueryInvalidXml,
        RunnerError::QueryInvalidJson => RunnerError::QueryInvalidJson,
        RunnerError::NoQueryResult => RunnerError::NoQueryResult,
        RunnerError::SubqueryInvalidInput => RunnerError::SubqueryInvalidInput,
        RunnerError::PredicateType => RunnerError::PredicateType,
        RunnerError::PredicateValue(x) => RunnerError::PredicateValue(copy_value(x)),
        RunnerError::AssertFailure { actual, expected, type_mismatch } => RunnerError::AssertFailure { actual: actual.clone(), expected: expected.clone(), type_mismatch: *type_mismatch },
        RunnerError::InvalidRegex() => RunnerError::InvalidRegex(),
        RunnerError::AssertHeaderValueError { actual } => RunnerError::AssertHeaderValueError { actual: actual.clone() },
        RunnerError::AssertBodyValueError { actual, expected } => RunnerError::AssertBodyValueError { actual: actual.clone(), expected: expected.clone() },
        RunnerError::AssertVersion { actual } => RunnerError::AssertVersion { actual: actual.clone() },
        RunnerError::AssertStatus { actual } => RunnerError::AssertStatus { actual: actual.clone() },
        RunnerError::UnrenderableVariable { value } => RunnerError::UnrenderableVariable { value: value.clone() },
        RunnerError::CouldNotResolveProxyName => RunnerError::CouldNotResolveProxyName,
        RunnerError::CouldNotResolveHost => RunnerError::CouldNotResolveHost,
        RunnerError::FailToConnect => RunnerError::FailToConnect,
        RunnerError::Timeout => RunnerError::Timeout,
        RunnerError::TooManyRedirect => RunnerError::TooManyRedirect,
        RunnerError::CouldNotParseResponse => RunnerError::CouldNotParseResponse,
        RunnerError::SSLCertificate => RunnerError::SSLCertificate,
    }
}

/// A copy of an error.
pub fn copy_error(e: &Error) -> (r: Error)
    ensures
        same_error(*e, r),
{
    Error { source_info: e.source_info, inner: copy_runner_error(&e.inner), assert: e.assert }
}

} // verus!
