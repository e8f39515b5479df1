use hurl::http::request::Param;
use hurl::runner::request::{checked_eval_url, eval_url, split_url};
use hurl::runner::results::RunnerError;

#[test]
pub fn test_split_url() {
    assert_eq!(split_url(String::from("http://localhost:8000/hello")), (String::from("http://localhost:8000/hello"), vec![]));
    assert_eq!(
        split_url(String::from("http://localhost:8000/hello?param1=value1")),
        (
            String::from("http://localhost:8000/hello"),
            vec![Param { name: String::from("param1"), value: String::from("value1") }]
        )
    );
}

#[test]
pub fn test_eval_url() {
    assert_eq!(eval_url(String::from("xxx")).err().unwrap(), RunnerError::InvalidURL(String::from("xxx")));

    let url = eval_url(String::from("http://localhost:8000/querystring-params?param1=value1")).unwrap();
    assert_eq!(url.host, "localhost");
    assert_eq!(url.port, Some(8000));
}

#[test]
pub fn test_split_url_several() {
    assert_eq!(
        split_url(String::from("a?x=1&y&z=2=3?")),
        (
            String::from("a"),
            vec![
                Param { name: String::from("x"), value: String::from("1") },
                Param { name: String::from("y"), value: String::from("") },
                Param { name: String::from("z"), value: String::from("2=3?") },
            ]
        )
    );
    assert!(checked_eval_url(String::from("mailto:x@y.z")).is_none());
    assert_eq!(checked_eval_url(String::from("https://a/b")).unwrap().unwrap().port, None);
}
