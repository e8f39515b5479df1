use hurl::common::{SourceInfo, Value};
use hurl::json::{Expr, Template, TemplateElement, Variable, Whitespace};
use hurl::runner::predicate_func::{Float, Predicate, PredicateFunc, PredicateFuncValue};
use hurl::runner::results::RunnerError;

fn ws(line: usize, col: usize, end_line: usize, end_col: usize) -> Whitespace {
    Whitespace { value: String::from(" "), source_info: SourceInfo::init(line, col, end_line, end_col) }
}

fn func(value: PredicateFuncValue) -> PredicateFunc {
    PredicateFunc { value, source_info: SourceInfo::init(0, 0, 0, 0) }
}

#[test]
fn predicate_test_predicate() {
    // not equals 10 with value 1     OK
    // not equals 10 with value 10    ValueError
    // not equals 10 with value true  TypeError
    let variables = vec![];
    let whitespace = ws(1, 1, 0, 0);
    let predicate = Predicate {
        not: true,
        space0: whitespace.clone(),
        predicate_func: PredicateFunc {
            value: PredicateFuncValue::EqualInt { space0: whitespace, value: 10 },
            source_info: SourceInfo::init(1, 11, 1, 12),
        },
    };

    let error = predicate.clone().eval(&variables, Some(Value::Bool(true))).err().unwrap();
    assert_eq!(
        error.inner,
        RunnerError::AssertFailure {
            actual: "bool <true>".to_string(),
            expected: "int <10>".to_string(),
            type_mismatch: true,
        }
    );
    assert_eq!(error.source_info, SourceInfo::init(1, 0, 1, 0));

    let error = predicate.clone().eval(&variables, Some(Value::Integer(10))).err().unwrap();
    assert_eq!(
        error.inner,
        RunnerError::AssertFailure {
            actual: "int <10>".to_string(),
            expected: "not int <10>".to_string(),
            type_mismatch: false,
        }
    );
    assert_eq!(error.source_info, SourceInfo::init(1, 0, 1, 0));

    assert_eq!(predicate.eval(&variables, Some(Value::Integer(1))).unwrap(), ());
}

#[test]
fn test_predicate_type_mismatch() {
    let variables = vec![];
    let whitespace = ws(0, 0, 0, 0);
    let assert_result = func(PredicateFuncValue::EqualInt { space0: whitespace, value: 10 })
        .eval(&variables, Some(Value::Bool(true)))
        .unwrap();
    assert_eq!(assert_result.success, false);
    assert_eq!(assert_result.type_mismatch, true);
    assert_eq!(assert_result.actual.as_str(), "bool <true>");
    assert_eq!(assert_result.expected.as_str(), "int <10>");
}

#[test]
fn test_predicate_value_error() {
    let variables = vec![];
    let whitespace = ws(0, 0, 0, 0);

    let assert_result = func(PredicateFuncValue::EqualInt { space0: whitespace.clone(), value: 10 })
        .eval_something(&variables, Value::Integer(1))
        .unwrap();
    assert_eq!(assert_result.success, false);
    assert_eq!(assert_result.type_mismatch, false);
    assert_eq!(assert_result.actual.as_str(), "int <1>");
    assert_eq!(assert_result.expected.as_str(), "int <10>");

    let assert_result = func(PredicateFuncValue::EqualBool { space0: whitespace.clone(), value: true })
        .eval_something(&variables, Value::Bool(false))
        .unwrap();
    assert_eq!(assert_result.success, false);
    assert_eq!(assert_result.type_mismatch, false);
    assert_eq!(assert_result.actual.as_str(), "bool <false>");
    assert_eq!(assert_result.expected.as_str(), "bool <true>");

    let assert_result = func(PredicateFuncValue::EqualFloat {
        space0: whitespace,
        value: Float { int: 1, decimal: 200_000_000_000_000_000, decimal_digits: 0 },
    })
    .eval_something(&variables, Value::Float(1, 1))
    .unwrap();
    assert_eq!(assert_result.success, false);
    assert_eq!(assert_result.type_mismatch, false);
    assert_eq!(assert_result.actual.as_str(), "float <1.1>");
    assert_eq!(assert_result.expected.as_str(), "float <1.200000000000000000>");
}

#[test]
fn test_predicate_value_equals() {
    let variables = vec![];
    let whitespace = ws(0, 0, 0, 0);
    let assert_result = func(PredicateFuncValue::EqualInt { space0: whitespace.clone(), value: 1 })
        .eval_something(&variables, Value::Integer(1))
        .unwrap();
    assert_eq!(assert_result.success, true);
    assert_eq!(assert_result.type_mismatch, false);
    assert_eq!(assert_result.actual.as_str(), "int <1>");
    assert_eq!(assert_result.expected.as_str(), "int <1>");

    let assert_result = func(PredicateFuncValue::EqualBool { space0: whitespace.clone(), value: false })
        .eval_something(&variables, Value::Bool(false))
        .unwrap();
    assert_eq!(assert_result.success, true);
    assert_eq!(assert_result.type_mismatch, false);
    assert_eq!(assert_result.actual.as_str(), "bool <false>");
    assert_eq!(assert_result.expected.as_str(), "bool <false>");

    let assert_result = func(PredicateFuncValue::EqualFloat {
        space0: whitespace.clone(),
        value: Float { int: 1, decimal: 1, decimal_digits: 1 },
    })
    .eval_something(&variables, Value::Float(1, 1))
    .unwrap();
    assert_eq!(assert_result.success, true);
    assert_eq!(assert_result.type_mismatch, false);
    assert_eq!(assert_result.actual.as_str(), "float <1.1>");
    assert_eq!(assert_result.expected.as_str(), "float <1.1>");

    // a float can be equals to an int (but the reverse)
    let assert_result = func(PredicateFuncValue::EqualInt { space0: whitespace, value: 1 })
        .eval_something(&variables, Value::Float(1, 0))
        .unwrap();
    assert_eq!(assert_result.success, true);
    assert_eq!(assert_result.type_mismatch, false);
    assert_eq!(assert_result.actual.as_str(), "float <1.0>");
    assert_eq!(assert_result.expected.as_str(), "int <1>");
}

fn base_url_template() -> Template {
    Template {
        quotes: true,
        elements: vec![TemplateElement::Expression(Expr {
            space0: Whitespace { value: "".to_string(), source_info: SourceInfo::init(1, 11, 1, 11) },
            variable: Variable { name: String::from("base_url"), source_info: SourceInfo::init(1, 11, 1, 19) },
            space1: Whitespace { value: "".to_string(), source_info: SourceInfo::init(1, 19, 1, 19) },
        })],
        source_info: SourceInfo::init(1, 1, 1, 1),
    }
}

#[test]
fn test_predicate_value_equals_string() {
    let mut variables = vec![];
    let whitespace = ws(0, 0, 0, 0);
    let template = base_url_template();

    let error = PredicateFunc {
        value: PredicateFuncValue::EqualString { space0: whitespace.clone(), value: template.clone() },
        source_info: SourceInfo::init(1, 1, 1, 21),
    }
    .eval_something(&variables, Value::String(String::from("http://localhost:8000")))
    .err()
    .unwrap();
    assert_eq!(error.inner, RunnerError::TemplateVariableNotDefined { name: String::from("base_url") });
    assert_eq!(error.source_info, SourceInfo::init(1, 11, 1, 19));

    variables.push((String::from("base_url"), Value::String(String::from("http://localhost:8000"))));
    let assert_result = func(PredicateFuncValue::EqualString { space0: whitespace, value: template })
        .eval_something(&variables, Value::String(String::from("http://localhost:8000")))
        .unwrap();
    assert_eq!(assert_result.success, true);
    assert_eq!(assert_result.type_mismatch, false);
    assert_eq!(assert_result.actual.as_str(), "string <http://localhost:8000>");
    assert_eq!(assert_result.expected.as_str(), "string <http://localhost:8000>");
}

#[test]
fn test_predicate_count_equals_error() {
    let variables = vec![];
    let whitespace = ws(0, 0, 0, 0);

    let assert_result = func(PredicateFuncValue::CountEqual { space0: whitespace.clone(), value: 10 })
        .eval_something(&variables, Value::Bool(true))
        .unwrap();
    assert_eq!(assert_result.success, false);
    assert_eq!(assert_result.type_mismatch, true);
    assert_eq!(assert_result.actual.as_str(), "bool <true>");
    assert_eq!(assert_result.expected.as_str(), "count equals to <10>");

    let assert_result = func(PredicateFuncValue::CountEqual { space0: whitespace.clone(), value: 1 })
        .eval_something(&variables, Value::List(vec![]))
        .unwrap();
    assert_eq!(assert_result.success, false);
    assert_eq!(assert_result.type_mismatch, false);
    assert_eq!(assert_result.actual.as_str(), "[]");
    assert_eq!(assert_result.expected.as_str(), "count equals to <1>");

    let assert_result = PredicateFunc {
        source_info: SourceInfo::init(0, 0, 0, 0),
        value: PredicateFuncValue::CountEqual { space0: whitespace, value: 1 },
    }
    .eval_something(&variables, Value::Nodeset(3))
    .unwrap();
    assert_eq!(assert_result.success, false);
    assert_eq!(assert_result.type_mismatch, false);
    assert_eq!(assert_result.actual.as_str(), "nodeset of size <3>");
    assert_eq!(assert_result.expected.as_str(), "count equals to <1>");
}

#[test]
fn test_predicate_count_equals() {
    let variables = vec![];
    let whitespace = ws(0, 0, 0, 0);
    let assert_result = func(PredicateFuncValue::CountEqual { space0: whitespace.clone(), value: 1 })
        .eval_something(&variables, Value::List(vec![Value::Integer(1)]))
        .unwrap();
    assert_eq!(assert_result.success, true);
    assert_eq!(assert_result.type_mismatch, false);
    assert_eq!(assert_result.actual.as_str(), "[int <1>]");
    assert_eq!(assert_result.expected.as_str(), "count equals to <1>");

    let assert_result = func(PredicateFuncValue::CountEqual { space0: whitespace, value: 1 })
        .eval_something(&variables, Value::Nodeset(1))
        .unwrap();
    assert_eq!(assert_result.success, true);
    assert_eq!(assert_result.type_mismatch, false);
    assert_eq!(assert_result.actual.as_str(), "nodeset of size <1>");
    assert_eq!(assert_result.expected.as_str(), "count equals to <1>");
}

fn text(s: &str) -> Template {
    Template {
        quotes: true,
        elements: vec![TemplateElement::String { value: s.to_string(), encoded: s.to_string() }],
        source_info: SourceInfo::init(1, 1, 1, 1),
    }
}

#[test]
fn test_predicate_strings_and_lists() {
    let variables = vec![(String::from("n"), Value::Integer(2))];
    let w = ws(0, 0, 0, 0);
    let hello = Value::String("hello world".to_string());
    let r = func(PredicateFuncValue::StartWith { space0: w.clone(), value: text("hello") })
        .eval_something(&variables, Value::String("hello world".to_string()))
        .unwrap();
    assert!(r.success);
    assert_eq!(r.expected, "starts with string <hello>");
    let r = func(PredicateFuncValue::Contain { space0: w.clone(), value: text("xyz") }).eval_something(&variables, hello).unwrap();
    assert!(!r.success);
    assert_eq!(r.expected, "contains string <xyz>");
    let r = func(PredicateFuncValue::Match { space0: w.clone(), value: text("^h.*d$") })
        .eval_something(&variables, Value::String("hello world".to_string()))
        .unwrap();
    assert!(r.success);
    assert_eq!(r.expected, "matches regex <^h.*d$>");
    let e = func(PredicateFuncValue::Match { space0: w.clone(), value: text("(") })
        .eval_something(&variables, Value::Integer(1))
        .err()
        .unwrap();
    assert_eq!(e.inner, RunnerError::InvalidRegex());
    let list = Value::List(vec![Value::Integer(1), Value::Integer(2), Value::String("a".to_string())]);
    let expr = Expr {
        space0: Whitespace { value: "".to_string(), source_info: SourceInfo::init(1, 1, 1, 1) },
        variable: Variable { name: "n".to_string(), source_info: SourceInfo::init(1, 1, 1, 2) },
        space1: Whitespace { value: "".to_string(), source_info: SourceInfo::init(1, 2, 1, 2) },
    };
    let r = func(PredicateFuncValue::IncludeExpression { space0: w.clone(), value: expr }).eval_something(&variables, list).unwrap();
    assert!(r.success);
    assert_eq!(r.expected, "includes int <2>");
    let list = Value::List(vec![Value::String("a".to_string())]);
    let r = func(PredicateFuncValue::IncludeString { space0: w.clone(), value: text("a") }).eval_something(&variables, list).unwrap();
    assert!(r.success);
    assert_eq!(r.expected, "includes string <a>");
    let r = func(PredicateFuncValue::Exist {}).eval_something(&variables, Value::Nodeset(0)).unwrap();
    assert!(!r.success);
    let r = func(PredicateFuncValue::Exist {}).eval(&variables, None).unwrap();
    assert!(!r.success);
    assert!(!r.type_mismatch);
    assert_eq!(r.actual, "none");
    assert_eq!(r.expected, "something");
    let r = func(PredicateFuncValue::IncludeNull { space0: w }).eval(&variables, None).unwrap();
    assert!(r.type_mismatch);
    assert_eq!(r.expected, "includes null");
}

#[test]
fn test_predicate_expression_undefined_without_value() {
    let space = Whitespace { value: String::new(), source_info: SourceInfo::init(0, 0, 0, 0) };
    let f = PredicateFunc {
        source_info: SourceInfo::init(1, 1, 1, 10),
        value: PredicateFuncValue::EqualExpression {
            space0: space.clone(),
            value: Expr {
                space0: space.clone(),
                variable: Variable { name: "missing".to_string(), source_info: SourceInfo::init(1, 12, 1, 19) },
                space1: space,
            },
        },
    };
    let error = f.eval(&vec![], None).err().unwrap();
    assert_eq!(error.source_info, SourceInfo::init(1, 12, 1, 19));
    assert_eq!(error.inner, RunnerError::TemplateVariableNotDefined { name: "missing".to_string() });
}
