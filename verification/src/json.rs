use vstd::prelude::*;

use crate::common::SourceInfo;
use crate::text::lit;

verus! {

/// Whitespace in a Hurl file, with its span.
#[derive(Clone, Debug, PartialEq, Eq)]
pub struct Whitespace {
    pub value: String,
    pub source_info: SourceInfo,
}

/// A variable named in a template, with its span.
#[derive(Clone, Debug, PartialEq, Eq)]
pub struct Variable {
    pub name: String,
    pub source_info: SourceInfo,
}

/// An expression `{{ name }}` of a template.
#[derive(Clone, Debug, PartialEq, Eq)]
pub struct Expr {
    pub space0: Whitespace,
    pub variable: Variable,
    pub space1: Whitespace,
}

/// A part of a template: a text (decoded, and as written) or an expression.
#[derive(Clone, Debug, PartialEq, Eq)]
pub enum TemplateElement {
    String { value: String, encoded: String },
    Expression(Expr),
}

/// A text in which variables are substituted.
#[derive(Clone, Debug, PartialEq, Eq)]
pub struct Template {
    pub quotes: bool,
    pub elements: Vec<TemplateElement>,
    pub source_info: SourceInfo,
}

/// A JSON value of a Hurl file, which keeps the whitespace written in it and whose
/// strings are templates.
#[derive(Debug, PartialEq, Eq)]
pub enum Value {
    Number(String),
    String(Template),
    Boolean(bool),
    List { space0: String, elements: Vec<ListElement> },
    Object { space0: String, elements: Vec<ObjectElement> },
    Null {},
}

/// An element of a JSON list, with the whitespace around it.
#[derive(Debug, PartialEq, Eq)]
pub struct ListElement {
    pub space0: String,
    pub value: Value,
    pub space1: String,
}

/// A member of a JSON object, with the whitespace around its parts.
#[derive(Debug, PartialEq, Eq)]
pub struct ObjectElement {
    pub space0: String,
    pub name: String,
    pub space1: String,
    pub space2: String,
    pub value: Value,
    pub space3: String,
}

/// The mathematical content of a template element.
pub enum ElementModel {
    Text { value: Seq<char>, encoded: Seq<char> },
    Expression {
        space0: Seq<char>,
        space0_info: SourceInfo,
        name: Seq<char>,
        name_info: SourceInfo,
        space1: Seq<char>,
        space1_info: SourceInfo,
    },
}

/// The mathematical content of a template.
pub struct TemplateModel {
    pub quotes: bool,
    pub elements: Seq<ElementModel>,
    pub source_info: SourceInfo,
}

/// The mathematical content of a JSON value.
pub enum JsonModel {
    Number(Seq<char>),
    String(TemplateModel),
    Boolean(bool),
    List { space0: Seq<char>, elements: Seq<ListElementModel> },
    Object { space0: Seq<char>, elements: Seq<ObjectElementModel> },
    Null,
}

/// The mathematical content of a list element.
pub struct ListElementModel {
    pub space0: Seq<char>,
    pub value: JsonModel,
    pub space1: Seq<char>,
}

/// The mathematical content of an object member.
pub struct ObjectElementModel {
    pub space0: Seq<char>,
    pub name: Seq<char>,
    pub space1: Seq<char>,
    pub space2: Seq<char>,
    pub value: JsonModel,
    pub space3: Seq<char>,
}

pub open spec fn element_model(e: TemplateElement) -> ElementModel {
    match e {
        TemplateElement::String { value, encoded } => ElementModel::Text { value: value@, encoded: encoded@ },
        TemplateElement::Expression(x) => ElementModel::Expression {
            space0: x.space0.value@,
            space0_info: x.space0.source_info,
            name: x.variable.name@,
            name_info: x.variable.source_info,
            space1: x.space1.value@,
            space1_info: x.space1.source_info,
        },
    }
}

impl View for TemplateElement {
    type V = ElementModel;

    open spec fn view(&self) -> ElementModel {
        element_model(*self)
    }
}

impl View for Template {
    type V = TemplateModel;

    open spec fn view(&self) -> TemplateModel {
        TemplateModel {
            quotes: self.quotes,
            elements: self.elements@.map_values(|e: TemplateElement| element_model(e)),
            source_info: self.source_info,
        }
    }
}

pub open spec fn json_model(v: Value) -> JsonModel
    decreases v,
{
    match v {
        Value::Number(n) => JsonModel::Number(n@),
        Value::String(t) => JsonModel::String(t@),
        Value::Boolean(b) => JsonModel::Boolean(b),
        Value::List { space0, elements } => JsonModel::List { space0: space0@, elements: list_models(elements@) },
        Value::Object { space0, elements } => JsonModel::Object { space0: space0@, elements: object_models(elements@) },
        Value::Null {} => JsonModel::Null,
    }
}

pub open spec fn list_models(es: Seq<ListElement>) -> Seq<ListElementModel>
    decreases es,
{
    if es.len() == 0 {
        Seq::empty()
    } else {
        seq![ListElementModel { space0: es[0].space0@, value: json_model(es[0].value), space1: es[0].space1@ }]
            + list_models(es.drop_first())
    }
}

pub open spec fn object_models(es: Seq<ObjectElement>) -> Seq<ObjectElementModel>
    decreases es,
{
    if es.len() == 0 {
        Seq::empty()
    } else {
        seq![ObjectElementModel {
            space0: es[0].space0@,
            name: es[0].name@,
            space1: es[0].space1@,
            space2: es[0].space2@,
            value: json_model(es[0].value),
            space3: es[0].space3@,
        }] + object_models(es.drop_first())
    }
}

impl View for Value {
    type V = JsonModel;

    open spec fn view(&self) -> JsonModel {
        json_model(*self)
    }
}

impl View for ListElement {
    type V = ListElementModel;

    open spec fn view(&self) -> ListElementModel {
        ListElementModel { space0: self.space0@, value: json_model(self.value), space1: self.space1@ }
    }
}

impl View for ObjectElement {
    type V = ObjectElementModel;

    open spec fn view(&self) -> ObjectElementModel {
        ObjectElementModel {
            space0: self.space0@,
            name: self.name@,
            space1: self.space1@,
            space2: self.space2@,
            value: json_model(self.value),
            space3: self.space3@,
        }
    }
}

pub proof fn lemma_list_models_push(es: Seq<ListElement>, e: ListElement)
    ensures
        list_models(es.push(e)) == list_models(es).push(e@),
    decreases es.len(),
{
    if es.len() == 0 {
        assert(es.push(e).drop_first() == es);
        assert(list_models(es.push(e)) =~= list_models(es).push(e@));
    } else {
        assert(es.push(e).drop_first() == es.drop_first().push(e));
        lemma_list_models_push(es.drop_first(), e);
        assert(list_models(es.push(e)) =~= list_models(es).push(e@));
    }
}

pub proof fn lemma_object_models_push(es: Seq<ObjectElement>, e: ObjectElement)
    ensures
        object_models(es.push(e)) == object_models(es).push(e@),
    decreases es.len(),
{
    if es.len() == 0 {
        assert(es.push(e).drop_first() == es);
        assert(object_models(es.push(e)) =~= object_models(es).push(e@));
    } else {
        assert(es.push(e).drop_first() == es.drop_first().push(e));
        lemma_object_models_push(es.drop_first(), e);
        assert(object_models(es.push(e)) =~= object_models(es).push(e@));
    }
}

/// The name of the type of a JSON value.
pub open spec fn json_type_name(v: JsonModel) -> Seq<char> {
    match v {
        JsonModel::Number(_) => "number"@,
        JsonModel::Null => "null"@,
        JsonModel::Boolean(_) => "boolean"@,
        JsonModel::List { .. } => "list"@,
        JsonModel::Object { .. } => "object"@,
        JsonModel::String(_) => "string"@,
    }
}

impl Value {
    /// The name of the type of the value.
    pub fn _type(&self) -> (s: String)
        ensures
            s@ == json_type_name(self@),
    {
        match self {
            Value::Number(_) => lit("number"),
            Value::Null {} => lit("null"),
            Value::Boolean(_) => lit("boolean"),
            Value::List { .. } => lit("list"),
            Value::Object { .. } => lit("object"),
            Value::String(_) => lit("string"),
        }
    }
}

} // verus!
