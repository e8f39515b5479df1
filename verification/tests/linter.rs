use hurl::common::{FormatError, SourceInfo};
use hurl::linter::{Error, LinterError};

#[test]
fn test_linter_error_texts() {
    let e = Error { source_info: SourceInfo::init(1, 2, 1, 3), inner: LinterError::UnneccessarySpace {} };
    assert_eq!(e.source_info(), SourceInfo::init(1, 2, 1, 3));
    assert_eq!(e.description(), "Unnecessary space");
    assert_eq!(e.fixme(), "Remove space");
    let e = Error { source_info: SourceInfo::init(1, 2, 1, 3), inner: LinterError::UnneccessaryJsonEncoding {} };
    assert_eq!(e.description(), "Unnecessary json encoding");
    assert_eq!(e.fixme(), "Use Simple String");
    let e = Error { source_info: SourceInfo::init(1, 2, 1, 3), inner: LinterError::OneSpace {} };
    assert_eq!(e.description(), "One space ");
    assert_eq!(e.fixme(), "Use only one space");
}
