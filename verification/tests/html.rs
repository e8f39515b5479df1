use hurl::common::SourceInfo;
use hurl::json::{Expr, Template, TemplateElement, Variable, Whitespace};
use hurl::runner::predicate_func::{Float, PredicateFunc, PredicateFuncValue};

fn space(v: &str) -> Whitespace {
    Whitespace { value: v.to_string(), source_info: SourceInfo::init(0, 0, 0, 0) }
}

fn expr(name: &str) -> Expr {
    Expr {
        space0: space(""),
        variable: Variable { name: name.to_string(), source_info: SourceInfo::init(0, 0, 0, 0) },
        space1: space(""),
    }
}

#[test]
fn test_predicate_html() {
    assert_eq!(
        PredicateFuncValue::CountEqual { space0: space(" "), value: 3 }.to_html(),
        "<span class=\"predicate-type\">equals</span> <span class=\"number\">3</span>"
    );
    assert_eq!(PredicateFuncValue::Exist {}.to_html(), "<span class=\"predicate-type\">exists</span>");
    assert_eq!(
        PredicateFuncValue::IncludeNull { space0: space(" ") }.to_html(),
        "<span class=\"predicate-type\">includes</span> <span class=\"null\">null</span>"
    );
    assert_eq!(
        PredicateFuncValue::EqualBool { space0: space("  "), value: false }.to_html(),
        "<span class=\"predicate-type\">equals</span>  <span class=\"boolean\">false</span>"
    );
    assert_eq!(
        PredicateFuncValue::EqualInt { space0: space(" "), value: -12 }.to_html(),
        "<span class=\"predicate-type\">equals</span> <span class=\"number\">-12</span>"
    );
    assert_eq!(
        PredicateFuncValue::EqualFloat { space0: space(" "), value: Float { int: 1, decimal: 5, decimal_digits: 1 } }.to_html(),
        "<span class=\"predicate-type\">equals</span> <span class=\"number\">1.5</span>"
    );
    assert_eq!(
        PredicateFuncValue::EqualExpression { space0: space(" "), value: expr("id") }.to_html(),
        "<span class=\"predicate-type\">equals</span> <span class=\"variable\">id</span>"
    );
    let template = Template {
        quotes: true,
        elements: vec![
            TemplateElement::String { value: "Hello ".to_string(), encoded: "Hello ".to_string() },
            TemplateElement::Expression(expr("name")),
        ],
        source_info: SourceInfo::init(0, 0, 0, 0),
    };
    let f = PredicateFunc { source_info: SourceInfo::init(0, 0, 0, 0), value: PredicateFuncValue::StartWith { space0: space(" "), value: template } };
    assert_eq!(
        f.to_html(),
        "<span class=\"predicate-type\">startsWith</span> <span class=\"string\"><span class=\"string\">Hello </span><span class=\"variable\">name</span></span>"
    );
}
