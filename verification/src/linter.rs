use vstd::prelude::*;

use crate::common::{FormatError, SourceInfo};
use crate::text::lit;

verus! {

/// A style issue found in a Hurl file, and where it is.
#[derive(Clone, Debug, PartialEq, Eq)]
pub struct Error {
    pub source_info: SourceInfo,
    pub inner: LinterError,
}

/// The kinds of style issues.
#[derive(Clone, Copy, Debug, PartialEq, Eq)]
pub enum LinterError {
    UnneccessarySpace {},
    UnneccessaryJsonEncoding {},
    OneSpace {},
}

/// The description of a style issue.
pub open spec fn linter_description(e: LinterError) -> Seq<char> {
    match e {
        LinterError::UnneccessarySpace {} => "Unnecessary space"@,
        LinterError::UnneccessaryJsonEncoding {} => "Unnecessary json encoding"@,
        LinterError::OneSpace {} => "One space "@,
    }
}

/// How to fix a style issue.
pub open spec fn linter_fixme(e: LinterError) -> Seq<char> {
    match e {
        LinterError::UnneccessarySpace {} => "Remove space"@,
        LinterError::UnneccessaryJsonEncoding {} => "Use Simple String"@,
        LinterError::OneSpace {} => "Use only one space"@,
    }
}

impl FormatError for Error {
    fn source_info(&self) -> (s: SourceInfo)
        ensures
            s == self.source_info,
    {
        self.source_info
    }

    fn description(&self) -> (s: String)
        ensures
            s@ == linter_description(self.inner),
    {
        match self.inner {
            LinterError::UnneccessarySpace {} => lit("Unnecessary space"),
            LinterError::UnneccessaryJsonEncoding {} => lit("Unnecessary json encoding"),
            LinterError::OneSpace {} => lit("One space "),
        }
    }

    fn fixme(&self) -> (s: String)
        ensures
            s@ == linter_fixme(self.inner),
    {
        match self.inner {
            LinterError::UnneccessarySpace {} => lit("Remove space"),
            LinterError::UnneccessaryJsonEncoding {} => lit("Use Simple String"),
            LinterError::OneSpace {} => lit("Use only one space"),
        }
    }
}

} // verus!
