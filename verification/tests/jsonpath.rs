use hurl::json_doc::{copy_doc, parse_json_text, JsonDoc};
use hurl::jsonpath::{number_order, Number, Predicate, PredicateFunc, Query, Selector};

fn doc(s: &str) -> JsonDoc {
    parse_json_text(s).unwrap()
}

fn json_root() -> JsonDoc {
    doc(r#"{
        "store": {
            "book": [
                { "category": "reference", "author": "Nigel Rees", "title": "Sayings of the Century", "price": 8.95 },
                { "category": "fiction", "author": "Evelyn Waugh", "title": "Sword of Honour", "price": 12.99 },
                { "category": "fiction", "author": "Herman Melville", "title": "Moby Dick", "isbn": "0-553-21311-3", "price": 8.99 },
                { "category": "fiction", "author": "J. R. R. Tolkien", "title": "The Lord of the Rings", "isbn": "0-395-19395-8", "price": 22.99 }
            ],
            "bicycle": []
        }
    }"#)
}

fn whole(n: &str) -> Number {
    Number { negative: false, int: n.to_string(), decimal: String::new() }
}

fn authors() -> Vec<JsonDoc> {
    vec![doc("\"Nigel Rees\""), doc("\"Evelyn Waugh\""), doc("\"Herman Melville\""), doc("\"J. R. R. Tolkien\"")]
}

#[test]
pub fn eval_test_query() {
    let root = json_root();
    assert_eq!(Query { selectors: vec![] }.eval(&root), vec![json_root()]);
    let store = match &root {
        JsonDoc::Object(m) => copy_doc(&m[0].1),
        _ => panic!(),
    };
    assert_eq!(Query { selectors: vec![Selector::NameChild("store".to_string())] }.eval(&root), vec![store]);
    let query = Query {
        selectors: vec![
            Selector::NameChild("store".to_string()),
            Selector::NameChild("book".to_string()),
            Selector::ArrayIndex(0),
            Selector::NameChild("title".to_string()),
        ],
    };
    assert_eq!(query.eval(&root), vec![doc("\"Sayings of the Century\"")]);
    // $.store.book[?(@.price<10)].title
    let query = Query {
        selectors: vec![
            Selector::NameChild("store".to_string()),
            Selector::NameChild("book".to_string()),
            Selector::Filter(Predicate { key: "price".to_string(), func: PredicateFunc::LessThan(whole("10")) }),
            Selector::NameChild("title".to_string()),
        ],
    };
    assert_eq!(query.eval(&root), vec![doc("\"Sayings of the Century\""), doc("\"Moby Dick\"")]);
    // $..author
    let query = Query { selectors: vec![Selector::RecursiveKey("author".to_string())] };
    assert_eq!(query.eval(&root), authors());
}

#[test]
pub fn test_bookstore() {
    assert_eq!(Selector::RecursiveKey("author".to_string()).eval(&json_root()), authors());
}

#[test]
pub fn test_array_index() {
    let value = doc(r#"["first", "second", "third", "forth", "fifth"]"#);
    assert_eq!(Selector::ArrayIndex(2).eval(&value), vec![doc("\"third\"")]);
    assert_eq!(Selector::ArrayIndex(5).eval(&value), vec![]);
}

#[test]
pub fn eval_test_predicate() {
    let string = |s: &str| Predicate { key: "key".to_string(), func: PredicateFunc::EqualString(s.to_string()) };
    assert!(string("value").eval(&doc(r#"{"key": "value"}"#)));
    assert!(!string("value").eval(&doc(r#"{"key": "some"}"#)));
    let equal_one = Predicate { key: "key".to_string(), func: PredicateFunc::Equal(whole("1")) };
    assert!(equal_one.eval(&doc(r#"{"key": 1}"#)));
    assert!(!equal_one.eval(&doc(r#"{"key": 2}"#)));
    assert!(!equal_one.eval(&doc(r#"{"key": "1"}"#)));
    let less_ten = Predicate { key: "key".to_string(), func: PredicateFunc::LessThan(whole("10")) };
    assert!(less_ten.eval(&doc(r#"{"key": 1}"#)));
}

#[test]
fn test_number_order() {
    let n = |negative: bool, i: &str, d: &str| Number { negative, int: i.to_string(), decimal: d.to_string() };
    assert_eq!(number_order("8.95", &n(false, "10", "")), -1);
    assert_eq!(number_order("12.99", &n(false, "10", "")), 1);
    assert_eq!(number_order("1.50", &n(false, "1", "5")), 0);
    assert_eq!(number_order("1e3", &n(false, "1000", "")), 0);
    assert_eq!(number_order("1.5e-3", &n(false, "0", "0015")), 0);
    assert_eq!(number_order("-2", &n(true, "1", "")), -1);
    assert_eq!(number_order("-0.0", &n(false, "0", "")), 0);
    assert_eq!(number_order("1e400", &n(false, "99999999", "")), 1);
    assert_eq!(number_order("1e-400", &n(false, "0", "")), 1);
}

#[test]
fn test_jsonpath_parse() {
    assert_eq!(Query::parse("xxx"), None);
    assert_eq!(Query::parse("$.success"), Some(Query { selectors: vec![Selector::NameChild("success".to_string())] }));
    assert_eq!(
        Query::parse("$.store.book[?(@.price<10)].title"),
        Some(Query {
            selectors: vec![
                Selector::NameChild("store".to_string()),
                Selector::NameChild("book".to_string()),
                Selector::Filter(Predicate { key: "price".to_string(), func: PredicateFunc::LessThan(whole("10")) }),
                Selector::NameChild("title".to_string()),
            ]
        })
    );
    assert_eq!(
        Query::parse("$..author[0]['a b'][?(@.k=='v')][?(@.n>=-1.5)]"),
        Some(Query {
            selectors: vec![
                Selector::RecursiveKey("author".to_string()),
                Selector::ArrayIndex(0),
                Selector::NameChild("a b".to_string()),
                Selector::Filter(Predicate { key: "k".to_string(), func: PredicateFunc::EqualString("v".to_string()) }),
                Selector::Filter(Predicate {
                    key: "n".to_string(),
                    func: PredicateFunc::GreaterThanOrEqual(Number { negative: true, int: "1".to_string(), decimal: "5".to_string() })
                }),
            ]
        })
    );
    assert_eq!(Query::parse("$."), None);
    assert_eq!(Query::parse("$[1234567890]"), None);
}
