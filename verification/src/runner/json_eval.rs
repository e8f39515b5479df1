use vstd::prelude::*;

use crate::common::{value_text, SourceInfo, Value};
use crate::json::{
    element_model, json_model, list_models, object_models, ElementModel, JsonModel, ListElement, ListElementModel,
    ObjectElement, ObjectElementModel, Template, TemplateElement, Value as JsonValue,
};
use crate::runner::results::{Error, RunnerError};
use crate::text::{append_str, join, join_strings, lit, push_char, str_eq, views};

verus! {

/// The value of the first variable named `name`.
pub open spec fn var_lookup(vs: Seq<(String, Value)>, name: Seq<char>) -> Option<Value>
    decreases vs.len(),
{
    if vs.len() == 0 {
        None
    } else if vs[0].0@ == name {
        Some(vs[0].1)
    } else {
        var_lookup(vs.drop_first(), name)
    }
}

/// The text of a template: its texts, and the values of its variables as text; the first
/// undefined variable is the error.
pub open spec fn template_text(es: Seq<ElementModel>, vs: Seq<(String, Value)>) -> Result<Seq<char>, (SourceInfo, Seq<char>)>
    decreases es.len(),
{
    if es.len() == 0 {
        Ok(Seq::empty())
    } else {
        match template_text(es.drop_last(), vs) {
            Err(e) => Err(e),
            Ok(t) => match es.last() {
                ElementModel::Text { value, .. } => Ok(t + value),
                ElementModel::Expression { name, name_info, .. } => match var_lookup(vs, name) {
                    Some(v) => Ok(t + value_text(v)),
                    None => Err((name_info, name)),
                },
            },
        }
    }
}

/// The JSON text of a JSON value whose strings are templates.
pub open spec fn json_text(m: JsonModel, vs: Seq<(String, Value)>) -> Result<Seq<char>, (SourceInfo, Seq<char>)>
    decreases m,
{
    match m {
        JsonModel::Null => Ok("null"@),
        JsonModel::Number(n) => Ok(n),
        JsonModel::String(t) => match template_text(t.elements, vs) {
            Ok(s) => Ok(seq!['"'] + s + seq!['"']),
            Err(e) => Err(e),
        },
        JsonModel::Boolean(b) => Ok(if b { "true"@ } else { "false"@ }),
        JsonModel::List { space0, elements } => match list_texts(elements, vs) {
            Ok(ts) => Ok(seq!['['] + space0 + join(ts, seq![',']) + seq![']']),
            Err(e) => Err(e),
        },
        JsonModel::Object { space0, elements } => match member_texts(elements, vs) {
            Ok(ts) => Ok(seq!['{'] + space0 + join(ts, seq![',']) + seq!['}']),
            Err(e) => Err(e),
        },
    }
}

/// The texts of list elements, with their spaces; the first error.
pub open spec fn list_texts(es: Seq<ListElementModel>, vs: Seq<(String, Value)>) -> Result<Seq<Seq<char>>, (SourceInfo, Seq<char>)>
    decreases es,
{
    if es.len() == 0 {
        Ok(Seq::empty())
    } else {
        match json_text(es[0].value, vs) {
            Err(e) => Err(e),
            Ok(t) => match list_texts(es.drop_first(), vs) {
                Err(e) => Err(e),
                Ok(rest) => Ok(seq![es[0].space0 + t + es[0].space1] + rest),
            },
        }
    }
}

/// The texts of object members `"name":value`, with their spaces; the first error.
pub open spec fn member_texts(es: Seq<ObjectElementModel>, vs: Seq<(String, Value)>) -> Result<Seq<Seq<char>>, (SourceInfo, Seq<char>)>
    decreases es,
{
    if es.len() == 0 {
        Ok(Seq::empty())
    } else {
        match json_text(es[0].value, vs) {
            Err(e) => Err(e),
            Ok(t) => match member_texts(es.drop_first(), vs) {
                Err(e) => Err(e),
                Ok(rest) => Ok(seq![member_text(es[0], t)] + rest),
            },
        }
    }
}

/// The text of an object member whose value has the text `t`.
pub open spec fn member_text(e: ObjectElementModel, t: Seq<char>) -> Seq<char> {
    e.space0 + seq!['"'] + e.name + seq!['"'] + e.space1 + seq![':'] + e.space2 + t + e.space3
}

/// The error of an undefined variable.
pub open spec fn undefined_error(e: Error, u: (SourceInfo, Seq<char>)) -> bool {
    &&& e.source_info == u.0
    &&& !e.assert
    &&& e.inner matches RunnerError::TemplateVariableNotDefined { name }
    &&& e.inner->TemplateVariableNotDefined_name@ == u.1
}

/// The value of the first variable named `name`.
pub(crate) fn find_variable<'a>(vs: &'a Vec<(String, Value)>, name: &str) -> (r: Option<&'a Value>)
    ensures
        match r {
            Some(v) => var_lookup(vs@, name@) == Some(*v),
            None => var_lookup(vs@, name@) is None,
        },
{
    let ghost all = vs@;
    let mut i: usize = 0;
    assert(all.skip(0) =~= all);
    while i < vs.len()
        invariant
            i <= vs.len(),
            all == vs@,
            var_lookup(all, name@) == var_lookup(all.skip(i as int), name@),
        decreases vs.len() - i,
    {
        assert(all.skip(i as int)[0] == all[i as int]);
        if str_eq(vs[i].0.as_str(), name) {
            return Some(&vs[i].1);
        }
        assert(all.skip(i as int).drop_first() =~= all.skip(i + 1));
        i += 1;
    }
    assert(all.skip(i as int) =~= Seq::<(String, Value)>::empty());
    None
}

impl Template {
    /// The text of the template with its variables replaced by their values.
    pub fn eval(self, variables: &Vec<(String, Value)>) -> (r: Result<String, Error>)
        ensures
            match template_text(self@.elements, variables@) {
                Ok(t) => r matches Ok(s) && s@ == t,
                Err(u) => r matches Err(e) && undefined_error(e, u),
            },
    {
        let ghost es = self@.elements;
        let mut s = String::new();
        let mut i: usize = 0;
        while i < self.elements.len()
            invariant
                i <= self.elements.len(),
                es == self.elements@.map_values(|e: TemplateElement| element_model(e)),
                template_text(es.take(i as int), variables@) == Ok::<Seq<char>, (SourceInfo, Seq<char>)>(s@),
            decreases self.elements.len() - i,
        {
            assert(es.take(i + 1).drop_last() =~= es.take(i as int));
            assert(es.take(i + 1).last() == element_model(self.elements@[i as int]));
            match &self.elements[i] {
                TemplateElement::String { value, .. } => {
                    append_str(&mut s, value.as_str());
                },
                TemplateElement::Expression(x) => {
                    match find_variable(variables, x.variable.name.as_str()) {
                        Some(v) => {
                            let t = v.to_string();
                            append_str(&mut s, t.as_str());
                        },
                        None => {
                            proof {
                                lemma_template_error_stays(es, variables@, i + 1);
                            }
                            return Err(Error {
                                source_info: x.variable.source_info,
                                inner: RunnerError::TemplateVariableNotDefined { name: x.variable.name.clone() },
                                assert: false,
                            });
                        },
                    }
                },
            }
            i += 1;
        }
        assert(es.take(self.elements.len() as int) =~= es);
        Ok(s)
    }
}

/// An error of the first elements is the error of all of them.
proof fn lemma_template_error_stays(es: Seq<ElementModel>, vs: Seq<(String, Value)>, n: int)
    requires
        0 <= n <= es.len(),
        template_text(es.take(n), vs) is Err,
    ensures
        template_text(es, vs) == template_text(es.take(n), vs),
    decreases es.len() - n,
{
    if n < es.len() {
        assert(es.take(n + 1).drop_last() =~= es.take(n));
        lemma_template_error_stays(es, vs, n + 1);
    } else {
        assert(es.take(n) =~= es);
    }
}

/// A measure of the nesting of a JSON value.
pub open spec fn jsize(v: JsonValue) -> nat
    decreases v,
{
    match v {
        JsonValue::List { elements, .. } => 1 + lsize(elements@),
        JsonValue::Object { elements, .. } => 1 + osize(elements@),
        _ => 1,
    }
}

/// The sum of the measures of the values of list elements.
pub open spec fn lsize(es: Seq<ListElement>) -> nat
    decreases es,
{
    if es.len() == 0 { 0 } else { jsize(es[0].value) + lsize(es.drop_first()) }
}

/// The sum of the measures of the values of object members.
pub open spec fn osize(es: Seq<ObjectElement>) -> nat
    decreases es,
{
    if es.len() == 0 { 0 } else { jsize(es[0].value) + osize(es.drop_first()) }
}

/// Evaluates list elements front to back, stopping at the first error.
fn eval_elements(es: &mut Vec<ListElement>, texts: &mut Vec<String>, variables: &Vec<(String, Value)>, Ghost(bound): Ghost<nat>) -> (r: Result<(), Error>)
    requires
        lsize(old(es)@) < bound,
    ensures
        match list_texts(list_models(old(es)@), variables@) {
            Ok(ts) => r is Ok && views(final(texts)@) == views(old(texts)@) + ts,
            Err(u) => r matches Err(e) && undefined_error(e, u),
        },
    decreases bound, 1nat,
{
    if es.len() == 0 {
        assert(views(texts@) =~= views(old(texts)@) + Seq::<Seq<char>>::empty());
        return Ok(());
    }
    let ghost all = es@;
    let e = es.remove(0);
    assert(es@ =~= all.drop_first());
    assert(list_models(all).drop_first() =~= list_models(all.drop_first()));
    match e.eval(variables) {
        Ok(t) => {
            let ghost mid = views(texts@);
            texts.push(t);
            assert(views(texts@) =~= mid.push(t@));
            let r = eval_elements(es, texts, variables, Ghost((bound - 1) as nat));
            proof {
                match list_texts(list_models(all), variables@) {
                    Ok(ts) => {
                        assert(views(texts@) =~= views(old(texts)@) + ts);
                    },
                    Err(_) => {},
                }
            }
            r
        },
        Err(err) => Err(err),
    }
}

/// Evaluates object members front to back, stopping at the first error.
fn eval_members(es: &mut Vec<ObjectElement>, texts: &mut Vec<String>, variables: &Vec<(String, Value)>, Ghost(bound): Ghost<nat>) -> (r: Result<(), Error>)
    requires
        osize(old(es)@) < bound,
    ensures
        match member_texts(object_models(old(es)@), variables@) {
            Ok(ts) => r is Ok && views(final(texts)@) == views(old(texts)@) + ts,
            Err(u) => r matches Err(e) && undefined_error(e, u),
        },
    decreases bound, 1nat,
{
    if es.len() == 0 {
        assert(views(texts@) =~= views(old(texts)@) + Seq::<Seq<char>>::empty());
        return Ok(());
    }
    let ghost all = es@;
    let e = es.remove(0);
    assert(es@ =~= all.drop_first());
    assert(object_models(all).drop_first() =~= object_models(all.drop_first()));
    match e.eval(variables) {
        Ok(t) => {
            let ghost mid = views(texts@);
            texts.push(t);
            assert(views(texts@) =~= mid.push(t@));
            let r = eval_members(es, texts, variables, Ghost((bound - 1) as nat));
            proof {
                match member_texts(object_models(all), variables@) {
                    Ok(ts) => {
                        assert(views(texts@) =~= views(old(texts)@) + ts);
                    },
                    Err(_) => {},
                }
            }
            r
        },
        Err(err) => Err(err),
    }
}

impl JsonValue {
    /// The JSON text of the value, with the variables of its strings replaced.
    pub fn eval(self, variables: &Vec<(String, Value)>) -> (r: Result<String, Error>)
        ensures
            match json_text(json_model(self), variables@) {
                Ok(t) => r matches Ok(s) && s@ == t,
                Err(u) => r matches Err(e) && undefined_error(e, u),
            },
        decreases jsize(self), 2nat,
    {
        let ghost me = self;
        match self {
            JsonValue::Null {} => Ok(lit("null")),
            JsonValue::Number(s) => Ok(s),
            JsonValue::String(template) => {
                match template.eval(variables) {
                    Ok(s) => {
                        let mut r = lit("\"");
                        append_str(&mut r, s.as_str());
                        push_char(&mut r, '"');
                        proof {
                            reveal_strlit("\"");
                            assert("\""@ =~= seq!['"']);
                        }
                        Ok(r)
                    },
                    Err(e) => Err(e),
                }
            },
            JsonValue::Boolean(v) => if v { Ok(lit("true")) } else { Ok(lit("false")) },
            JsonValue::List { space0, elements } => {
                let mut elements = elements;
                let mut texts: Vec<String> = Vec::new();
                assert(views(texts@) =~= Seq::<Seq<char>>::empty());
                match eval_elements(&mut elements, &mut texts, variables, Ghost(jsize(me))) {
                    Ok(()) => {},
                    Err(e) => {
                        return Err(e);
                    },
                }
                let mut r = lit("[");
                append_str(&mut r, space0.as_str());
                let j = join_strings(&texts, ",");
                append_str(&mut r, j.as_str());
                push_char(&mut r, ']');
                proof {
                    reveal_strlit("[");
                    reveal_strlit(",");
                    assert("["@ =~= seq!['[']);
                    assert(","@ =~= seq![',']);
                }
                Ok(r)
            },
            JsonValue::Object { space0, elements } => {
                let mut elements = elements;
                let mut texts: Vec<String> = Vec::new();
                assert(views(texts@) =~= Seq::<Seq<char>>::empty());
                match eval_members(&mut elements, &mut texts, variables, Ghost(jsize(me))) {
                    Ok(()) => {},
                    Err(e) => {
                        return Err(e);
                    },
                }
                let mut r = lit("{");
                append_str(&mut r, space0.as_str());
                let j = join_strings(&texts, ",");
                append_str(&mut r, j.as_str());
                push_char(&mut r, '}');
                proof {
                    reveal_strlit("{");
                    reveal_strlit(",");
                    assert("{"@ =~= seq!['{']);
                    assert(","@ =~= seq![',']);
                }
                Ok(r)
            },
        }
    }
}

impl ListElement {
    /// The text of the element: its spaces around the text of its value.
    pub fn eval(self, variables: &Vec<(String, Value)>) -> (r: Result<String, Error>)
        ensures
            match json_text(json_model(self.value), variables@) {
                Ok(t) => r matches Ok(s) && s@ == self.space0@ + t + self.space1@,
                Err(u) => r matches Err(e) && undefined_error(e, u),
            },
        decreases jsize(self.value), 3nat,
    {
        match self.value.eval(variables) {
            Ok(t) => {
                let mut s = self.space0;
                append_str(&mut s, t.as_str());
                append_str(&mut s, self.space1.as_str());
                Ok(s)
            },
            Err(e) => Err(e),
        }
    }
}

impl ObjectElement {
    /// The text of the member: `"name":value` with its spaces.
    pub fn eval(self, variables: &Vec<(String, Value)>) -> (r: Result<String, Error>)
        ensures
            match json_text(json_model(self.value), variables@) {
                Ok(t) => r matches Ok(s) && s@ == self.space0@ + seq!['"'] + self.name@ + seq!['"'] + self.space1@
                    + seq![':'] + self.space2@ + t + self.space3@,
                Err(u) => r matches Err(e) && undefined_error(e, u),
            },
        decreases jsize(self.value), 3nat,
    {
        match self.value.eval(variables) {
            Ok(t) => {
                let mut s = self.space0;
                push_char(&mut s, '"');
                append_str(&mut s, self.name.as_str());
                push_char(&mut s, '"');
                append_str(&mut s, self.space1.as_str());
                push_char(&mut s, ':');
                append_str(&mut s, self.space2.as_str());
                append_str(&mut s, t.as_str());
                append_str(&mut s, self.space3.as_str());
                Ok(s)
            },
            Err(e) => Err(e),
        }
    }
}

} // verus!
