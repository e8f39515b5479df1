use vstd::prelude::*;

use crate::json::{ElementModel, Expr, Template, TemplateElement, Whitespace};
use crate::runner::predicate_func::{float_text, Float, PredicateFunc, PredicateFuncValue};
use crate::text::{append_str, bool_text, bool_to_string, i64_to_string, int_decimal, lit, nat_decimal, push_char, u64_to_string};

verus! {

/// A span of HTML with a class around some content.
pub open spec fn span(class: Seq<char>, content: Seq<char>) -> Seq<char> {
    "<span class=\""@ + class + "\">"@ + content + "</span>"@
}

/// A span of HTML with a class around some content.
fn span_of(class: &str, content: &str) -> (s: String)
    ensures
        s@ == span(class@, content@),
{
    proof {
        reveal_strlit("<span class=\"");
        reveal_strlit("\">");
        reveal_strlit("</span>");
    }
    let mut s = lit("<span class=\"");
    append_str(&mut s, class);
    append_str(&mut s, "\">");
    append_str(&mut s, content);
    append_str(&mut s, "</span>");
    s
}

/// The HTML of a part of a template: a text as written, or the name of a variable.
pub open spec fn element_html(e: ElementModel) -> Seq<char> {
    match e {
        ElementModel::Text { encoded, .. } => span("string"@, encoded),
        ElementModel::Expression { name, .. } => span("variable"@, name),
    }
}

/// The HTML of the parts of a template, one after the other.
pub open spec fn elements_html(es: Seq<ElementModel>) -> Seq<char>
    decreases es.len(),
{
    if es.len() == 0 { Seq::empty() } else { elements_html(es.drop_last()) + element_html(es.last()) }
}

impl Template {
    /// The HTML of the template.
    pub fn to_html(&self) -> (s: String)
        ensures
            s@ == elements_html(self@.elements),
    {
        let ghost es = self@.elements;
        let mut s = String::new();
        let mut i: usize = 0;
        while i < self.elements.len()
            invariant
                i <= self.elements.len(),
                es == self.elements@.map_values(|e: TemplateElement| crate::json::element_model(e)),
                s@ == elements_html(es.take(i as int)),
            decreases self.elements.len() - i,
        {
            assert(es.take(i + 1).drop_last() =~= es.take(i as int));
            let h = match &self.elements[i] {
                TemplateElement::String { encoded, .. } => span_of("string", encoded.as_str()),
                TemplateElement::Expression(x) => span_of("variable", x.variable.name.as_str()),
            };
            proof {
                reveal_strlit("string");
                reveal_strlit("variable");
            }
            append_str(&mut s, h.as_str());
            i += 1;
        }
        assert(es.take(self.elements.len() as int) =~= es);
        s
    }
}

impl Expr {
    /// The HTML of the expression: the name of its variable.
    pub fn to_html(&self) -> (s: String)
        ensures
            s@ == span("variable"@, self.variable.name@),
    {
        proof {
            reveal_strlit("variable");
        }
        span_of("variable", self.variable.name.as_str())
    }
}

impl Whitespace {
    /// The HTML of whitespace: the whitespace itself.
    pub fn to_html(&self) -> (s: String)
        ensures
            s@ == self.value@,
    {
        self.value.clone()
    }
}

/// The HTML of a predicate's name.
pub open spec fn predicate_type(name: Seq<char>) -> Seq<char> {
    span("predicate-type"@, name)
}

/// The HTML of a predicate function: its name, its whitespace, and its value.
pub open spec fn predicate_html(v: PredicateFuncValue) -> Seq<char> {
    match v {
        PredicateFuncValue::CountEqual { space0, value } => predicate_type("equals"@) + space0.value@ + span("number"@, nat_decimal(value as nat)),
        PredicateFuncValue::EqualString { space0, value } => predicate_type("equals"@) + space0.value@ + span("number"@, elements_html(value@.elements)),
        PredicateFuncValue::EqualInt { space0, value } => predicate_type("equals"@) + space0.value@ + span("number"@, int_decimal(value as int)),
        PredicateFuncValue::EqualFloat { space0, value } => predicate_type("equals"@) + space0.value@ + span("number"@, float_text(value)),
        PredicateFuncValue::EqualExpression { space0, value } => predicate_type("equals"@) + space0.value@ + span("variable"@, value.variable.name@),
        PredicateFuncValue::StartWith { space0, value } => predicate_type("startsWith"@) + space0.value@ + span("string"@, elements_html(value@.elements)),
        PredicateFuncValue::Contain { space0, value } => predicate_type("contains"@) + space0.value@ + span("string"@, elements_html(value@.elements)),
        PredicateFuncValue::IncludeString { space0, value } => predicate_type("includes"@) + space0.value@ + span("string"@, elements_html(value@.elements)),
        PredicateFuncValue::IncludeInt { space0, value } => predicate_type("includes"@) + space0.value@ + span("number"@, int_decimal(value as int)),
        PredicateFuncValue::IncludeNull { space0 } => predicate_type("includes"@) + space0.value@ + span("null"@, "null"@),
        PredicateFuncValue::IncludeBool { space0, value } => predicate_type("includes"@) + space0.value@ + span("boolean"@, bool_text(value)),
        PredicateFuncValue::IncludeFloat { space0, value } => predicate_type("includes"@) + space0.value@ + span("number"@, float_text(value)),
        PredicateFuncValue::IncludeExpression { space0, value } => predicate_type("includes"@) + space0.value@ + span("variable"@, value.variable.name@),
        PredicateFuncValue::Match { space0, value } => predicate_type("matches"@) + space0.value@ + span("string"@, elements_html(value@.elements)),
        PredicateFuncValue::EqualNull { space0 } => predicate_type("equals"@) + space0.value@ + span("null"@, "null"@),
        PredicateFuncValue::EqualBool { space0, value } => predicate_type("equals"@) + space0.value@ + span("boolean"@, bool_text(value)),
        PredicateFuncValue::Exist {} => predicate_type("exists"@),
    }
}

/// The text of a float: integer part, a dot, decimal part.
fn float_string(x: Float) -> (s: String)
    ensures
        s@ == float_text(x),
{
    let mut t = i64_to_string(x.int);
    push_char(&mut t, '.');
    let d = u64_to_string(x.decimal);
    append_str(&mut t, d.as_str());
    t
}

/// The name, the whitespace and the value's span of a predicate function.
fn predicate_parts(name: &str, space0: &Whitespace, class: &str, content: &str) -> (s: String)
    ensures
        s@ == predicate_type(name@) + space0.value@ + span(class@, content@),
{
    proof {
        reveal_strlit("predicate-type");
    }
    let mut s = span_of("predicate-type", name);
    append_str(&mut s, space0.value.as_str());
    let v = span_of(class, content);
    append_str(&mut s, v.as_str());
    s
}

impl PredicateFuncValue {
    /// The HTML of the predicate function.
    pub fn to_html(&self) -> (s: String)
        ensures
            s@ == predicate_html(*self),
    {
        proof {
            reveal_strlit("equals");
            reveal_strlit("startsWith");
            reveal_strlit("contains");
            reveal_strlit("includes");
            reveal_strlit("matches");
            reveal_strlit("exists");
            reveal_strlit("number");
            reveal_strlit("string");
            reveal_strlit("variable");
            reveal_strlit("null");
            reveal_strlit("boolean");
            reveal_strlit("predicate-type");
        }
        match self {
            PredicateFuncValue::CountEqual { space0, value } => predicate_parts("equals", space0, "number", u64_to_string(*value).as_str()),
            PredicateFuncValue::EqualString { space0, value } => predicate_parts("equals", space0, "number", value.to_html().as_str()),
            PredicateFuncValue::EqualInt { space0, value } => predicate_parts("equals", space0, "number", i64_to_string(*value).as_str()),
            PredicateFuncValue::EqualFloat { space0, value } => predicate_parts("equals", space0, "number", float_string(*value).as_str()),
            PredicateFuncValue::EqualExpression { space0, value } => predicate_parts("equals", space0, "variable", value.variable.name.as_str()),
            PredicateFuncValue::StartWith { space0, value } => predicate_parts("startsWith", space0, "string", value.to_html().as_str()),
            PredicateFuncValue::Contain { space0, value } => predicate_parts("contains", space0, "string", value.to_html().as_str()),
            PredicateFuncValue::IncludeString { space0, value } => predicate_parts("includes", space0, "string", value.to_html().as_str()),
            PredicateFuncValue::IncludeInt { space0, value } => predicate_parts("includes", space0, "number", i64_to_string(*value).as_str()),
            PredicateFuncValue::IncludeNull { space0 } => predicate_parts("includes", space0, "null", "null"),
            PredicateFuncValue::IncludeBool { space0, value } => predicate_parts("includes", space0, "boolean", bool_to_string(*value).as_str()),
            PredicateFuncValue::IncludeFloat { space0, value } => predicate_parts("includes", space0, "number", float_string(*value).as_str()),
            PredicateFuncValue::IncludeExpression { space0, value } => predicate_parts("includes", space0, "variable", value.variable.name.as_str()),
            PredicateFuncValue::Match { space0, value } => predicate_parts("matches", space0, "string", value.to_html().as_str()),
            PredicateFuncValue::EqualNull { space0 } => predicate_parts("equals", space0, "null", "null"),
            PredicateFuncValue::EqualBool { space0, value } => predicate_parts("equals", space0, "boolean", bool_to_string(*value).as_str()),
            PredicateFuncValue::Exist {} => span_of("predicate-type", "exists"),
        }
    }
}

impl PredicateFunc {
    /// The HTML of the predicate function.
    pub fn to_html(&self) -> (s: String)
        ensures
            s@ == predicate_html(self.value),
    {
        self.value.to_html()
    }
}

} // verus!
