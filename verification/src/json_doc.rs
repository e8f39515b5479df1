use vstd::prelude::*;

use crate::text::str_eq;
use serde_json::Value as SerdeValue;

verus! {

/// A JSON document: objects hold their members as a list of names and values.
#[derive(Debug, PartialEq, Eq)]
pub enum JsonDoc {
    Null,
    Bool(bool),
    /// A number: its text, and its value when it is an integer that fits in `u64`.
    Number(String, Option<u64>),
    String(String),
    Array(Vec<JsonDoc>),
    Object(Vec<(String, JsonDoc)>),
}

/// The value of the first member named `key`.
pub open spec fn lookup(members: Seq<(String, JsonDoc)>, key: Seq<char>) -> Option<JsonDoc>
    decreases members.len(),
{
    if members.len() == 0 {
        None
    } else if members[0].0@ == key {
        Some(members[0].1)
    } else {
        lookup(members.drop_first(), key)
    }
}

/// The value of the first member named `key`.
pub fn get<'a>(members: &'a Vec<(String, JsonDoc)>, key: &str) -> (r: Option<&'a JsonDoc>)
    ensures
        match r {
            Some(v) => lookup(members@, key@) == Some(*v),
            None => lookup(members@, key@) is None,
        },
{
    let ghost all = members@;
    let mut i: usize = 0;
    assert(all.skip(0) =~= all);
    while i < members.len()
        invariant
            i <= members.len(),
            all == members@,
            lookup(all, key@) == lookup(all.skip(i as int), key@),
        decreases members.len() - i,
    {
        assert(all.skip(i as int)[0] == all[i as int]);
        if str_eq(members[i].0.as_str(), key) {
            return Some(&members[i].1);
        }
        assert(all.skip(i as int).drop_first() =~= all.skip(i + 1));
        i += 1;
    }
    assert(all.skip(i as int) =~= Seq::<(String, JsonDoc)>::empty());
    None
}

/// The text of a string value.
pub open spec fn string_of(v: Option<JsonDoc>) -> Option<Seq<char>> {
    match v {
        Some(JsonDoc::String(s)) => Some(s@),
        _ => None,
    }
}

/// The flag of a boolean value.
pub open spec fn bool_of(v: Option<JsonDoc>) -> Option<bool> {
    match v {
        Some(JsonDoc::Bool(b)) => Some(b),
        _ => None,
    }
}


/// No two members of an object have the same name.
pub open spec fn unique_keys(members: Seq<(String, JsonDoc)>) -> bool {
    forall|i: int, j: int| 0 <= i < j < members.len() ==> members[i].0@ != members[j].0@
}

/// With member names that are all different, an object behaves as a map: a name is
/// found with a value exactly when some member has that name and value.
pub proof fn law_lookup_as_map(members: Seq<(String, JsonDoc)>, key: Seq<char>, v: JsonDoc)
    requires
        unique_keys(members),
    ensures
        lookup(members, key) == Some(v) <==> exists|i: int| 0 <= i < members.len() && #[trigger] members[i].0@ == key && members[i].1 == v,
    decreases members.len(),
{
    if members.len() > 0 {
        let rest = members.drop_first();
        assert(unique_keys(rest)) by {
            assert forall|a: int, b: int| 0 <= a < b < rest.len() implies rest[a].0@ != rest[b].0@ by {
                assert(rest[a] == members[a + 1]);
                assert(rest[b] == members[b + 1]);
            }
        }
        law_lookup_as_map(rest, key, v);
        if members[0].0@ == key {
            if lookup(members, key) != Some(v) {
                assert forall|i: int| 0 <= i < members.len() && #[trigger] members[i].0@ == key implies members[i].1 != v by {
                    if i > 0 {
                        assert(members[0].0@ != members[i].0@);
                    }
                }
            }
        } else {
            if exists|i: int| 0 <= i < members.len() && #[trigger] members[i].0@ == key && members[i].1 == v {
                let i = choose|i: int| 0 <= i < members.len() && #[trigger] members[i].0@ == key && members[i].1 == v;
                assert(rest[i - 1] == members[i]);
            }
            if exists|j: int| 0 <= j < rest.len() && #[trigger] rest[j].0@ == key && rest[j].1 == v {
                let j = choose|j: int| 0 <= j < rest.len() && #[trigger] rest[j].0@ == key && rest[j].1 == v;
                assert(members[j + 1] == rest[j]);
            }
        }
    }
}


/// The mathematical content of a JSON document.
pub enum DocModel {
    Null,
    Bool(bool),
    Number(Seq<char>, Option<u64>),
    Str(Seq<char>),
    Array(Seq<DocModel>),
    Object(Seq<(Seq<char>, DocModel)>),
}

/// The content of a document.
pub open spec fn doc_model(d: JsonDoc) -> DocModel
    decreases d,
{
    match d {
        JsonDoc::Null => DocModel::Null,
        JsonDoc::Bool(b) => DocModel::Bool(b),
        JsonDoc::Number(t, n) => DocModel::Number(t@, n),
        JsonDoc::String(s) => DocModel::Str(s@),
        JsonDoc::Array(a) => DocModel::Array(docs_model(a@)),
        JsonDoc::Object(m) => DocModel::Object(members_model(m@)),
    }
}

/// The contents of documents.
pub open spec fn docs_model(ds: Seq<JsonDoc>) -> Seq<DocModel>
    decreases ds,
{
    if ds.len() == 0 {
        Seq::empty()
    } else {
        seq![doc_model(ds[0])] + docs_model(ds.drop_first())
    }
}

/// The contents of object members.
pub open spec fn members_model(ms: Seq<(String, JsonDoc)>) -> Seq<(Seq<char>, DocModel)>
    decreases ms,
{
    if ms.len() == 0 {
        Seq::empty()
    } else {
        seq![(ms[0].0@, doc_model(ms[0].1))] + members_model(ms.drop_first())
    }
}

/// The contents of documents, one by one.
pub proof fn lemma_docs_model(ds: Seq<JsonDoc>)
    ensures
        docs_model(ds).len() == ds.len(),
        forall|i: int| 0 <= i < ds.len() ==> #[trigger] docs_model(ds)[i] == doc_model(ds[i]),
    decreases ds.len(),
{
    if ds.len() > 0 {
        lemma_docs_model(ds.drop_first());
        assert forall|i: int| 0 <= i < ds.len() implies #[trigger] docs_model(ds)[i] == doc_model(ds[i]) by {
            if i > 0 {
                assert(docs_model(ds)[i] == docs_model(ds.drop_first())[i - 1]);
            }
        }
    }
}

/// The contents of members, one by one.
pub proof fn lemma_members_model(ms: Seq<(String, JsonDoc)>)
    ensures
        members_model(ms).len() == ms.len(),
        forall|i: int| 0 <= i < ms.len() ==> #[trigger] members_model(ms)[i] == (ms[i].0@, doc_model(ms[i].1)),
    decreases ms.len(),
{
    if ms.len() > 0 {
        lemma_members_model(ms.drop_first());
        assert forall|i: int| 0 <= i < ms.len() implies #[trigger] members_model(ms)[i] == (ms[i].0@, doc_model(ms[i].1)) by {
            if i > 0 {
                assert(members_model(ms)[i] == members_model(ms.drop_first())[i - 1]);
            }
        }
    }
}

/// One more document adds its content.
pub proof fn lemma_docs_model_push(ds: Seq<JsonDoc>, x: JsonDoc)
    ensures
        docs_model(ds.push(x)) == docs_model(ds).push(doc_model(x)),
{
    lemma_docs_model(ds);
    lemma_docs_model(ds.push(x));
    assert(docs_model(ds.push(x)) =~= docs_model(ds).push(doc_model(x)));
}

/// One more member adds its content.
pub proof fn lemma_members_model_push(ms: Seq<(String, JsonDoc)>, x: (String, JsonDoc))
    ensures
        members_model(ms.push(x)) == members_model(ms).push((x.0@, doc_model(x.1))),
{
    lemma_members_model(ms);
    lemma_members_model(ms.push(x));
    assert(members_model(ms.push(x)) =~= members_model(ms).push((x.0@, doc_model(x.1))));
}

/// The contents of documents are those of their parts.
pub proof fn lemma_docs_model_concat(a: Seq<JsonDoc>, b: Seq<JsonDoc>)
    ensures
        docs_model(a + b) == docs_model(a) + docs_model(b),
{
    lemma_docs_model(a);
    lemma_docs_model(b);
    lemma_docs_model(a + b);
    assert(docs_model(a + b) =~= docs_model(a) + docs_model(b));
}

/// The value of the first member named `key`, as content.
pub open spec fn model_lookup(ms: Seq<(Seq<char>, DocModel)>, key: Seq<char>) -> Option<DocModel>
    decreases ms.len(),
{
    if ms.len() == 0 {
        None
    } else if ms[0].0 == key {
        Some(ms[0].1)
    } else {
        model_lookup(ms.drop_first(), key)
    }
}

/// Looking a member up commutes with taking contents.
pub proof fn lemma_lookup_model(ms: Seq<(String, JsonDoc)>, key: Seq<char>)
    ensures
        model_lookup(members_model(ms), key) == (match lookup(ms, key) {
            Some(v) => Some(doc_model(v)),
            None => None,
        }),
    decreases ms.len(),
{
    if ms.len() > 0 {
        assert(members_model(ms).drop_first() == members_model(ms.drop_first()));
        lemma_lookup_model(ms.drop_first(), key);
    }
}

/// A copy of a document, with the same content.
pub fn copy_doc(d: &JsonDoc) -> (r: JsonDoc)
    ensures
        doc_model(r) == doc_model(*d),
    decreases d,
{
    match d {
        JsonDoc::Null => JsonDoc::Null,
        JsonDoc::Bool(b) => JsonDoc::Bool(*b),
        JsonDoc::Number(t, n) => JsonDoc::Number(t.clone(), *n),
        JsonDoc::String(s) => JsonDoc::String(s.clone()),
        JsonDoc::Array(a) => {
            let mut v: Vec<JsonDoc> = Vec::new();
            let mut i: usize = 0;
            while i < a.len()
                invariant
                    i <= a.len(),
                    docs_model(v@) == docs_model(a@.take(i as int)),
                    *d == JsonDoc::Array(*a),
                decreases a.len() - i,
            {
                proof {
                    assert(decreases_to!(*d => (*d)->Array_0));
                    assert(decreases_to!(*a => a@));
                    assert(decreases_to!(a@ => a@[i as int]));
                }
                let x = copy_doc(&a[i]);
                proof {
                    lemma_docs_model_push(v@, x);
                    assert(a@.take(i + 1) =~= a@.take(i as int).push(a@[i as int]));
                    lemma_docs_model_push(a@.take(i as int), a@[i as int]);
                }
                v.push(x);
                i += 1;
            }
            assert(a@.take(a.len() as int) =~= a@);
            JsonDoc::Array(v)
        },
        JsonDoc::Object(m) => {
            let mut v: Vec<(String, JsonDoc)> = Vec::new();
            let mut i: usize = 0;
            while i < m.len()
                invariant
                    i <= m.len(),
                    members_model(v@) == members_model(m@.take(i as int)),
                    *d == JsonDoc::Object(*m),
                decreases m.len() - i,
            {
                proof {
                    assert(decreases_to!(*d => (*d)->Object_0));
                    assert(decreases_to!(*m => m@));
                    assert(decreases_to!(m@ => m@[i as int]));
                    assert(decreases_to!(m@[i as int] => m@[i as int].1));
                }
                let x = copy_doc(&m[i].1);
                let k = m[i].0.clone();
                proof {
                    lemma_members_model_push(v@, (k, x));
                    assert(m@.take(i + 1) =~= m@.take(i as int).push(m@[i as int]));
                    lemma_members_model_push(m@.take(i as int), m@[i as int]);
                }
                v.push((k, x));
                i += 1;
            }
            assert(m@.take(m.len() as int) =~= m@);
            JsonDoc::Object(v)
        },
    }
}


#[verifier::external_type_specification]
#[verifier::external_body]
pub struct ExJsonValue(SerdeValue);

/// What serde_json reads from a JSON text, as content; nothing where the text is no JSON.
pub uninterp spec fn json_text_doc(s: Seq<char>) -> Option<DocModel>;

/// `serde_json::from_str` into a `serde_json::Value`, turned into a document: the contract
/// only names what is read.
#[verifier::external_body]
pub fn parse_json_text(s: &str) -> (r: Option<JsonDoc>)
    ensures
        match r {
            Some(d) => json_text_doc(s@) == Some(doc_model(d)),
            None => json_text_doc(s@) is None,
        },
{
    match serde_json::from_str::<SerdeValue>(s) {
        Ok(v) => Some(doc_of(v)),
        Err(_) => None,
    }
}

/// A `serde_json::Value` as a document, variant for variant; members in the order the map
/// walks them (serde_json's default map sorts them by name).
#[verifier::external_body]
fn doc_of(v: SerdeValue) -> JsonDoc {
    match v {
        SerdeValue::Null => JsonDoc::Null,
        SerdeValue::Bool(b) => JsonDoc::Bool(b),
        SerdeValue::Number(n) => JsonDoc::Number(n.to_string(), n.as_u64()),
        SerdeValue::String(s) => JsonDoc::String(s),
        SerdeValue::Array(a) => JsonDoc::Array(a.into_iter().map(doc_of).collect()),
        SerdeValue::Object(m) => JsonDoc::Object(m.into_iter().map(|(k, x)| (k, doc_of(x))).collect()),
    }
}

} // verus!
