use hurl::curl_args::{split, Parser};

#[test]
fn test_split() {
    let expected = vec!["AAA".to_string(), "BBB".to_string()];
    assert_eq!(split(r#"AAA BBB"#).unwrap(), expected);
    assert_eq!(split(r#"AAA  BBB"#).unwrap(), expected);
    assert_eq!(split(r#" AAA BBB "#).unwrap(), expected);
    assert_eq!(split(r#"AAA 'BBB'"#).unwrap(), expected);
    assert_eq!(split(r#"AAA $'BBB'"#).unwrap(), expected);

    let expected = vec!["'".to_string()];
    assert_eq!(split(r"$'\''").unwrap(), expected);
}

#[test]
fn test_split_error() {
    assert_eq!(
        split(r#"AAA 'BBB"#).err().unwrap(),
        "Missing delimiter ' at column 9".to_string()
    );
}

#[test]
fn test_param_without_quote() {
    let mut parser = Parser::new("value");
    assert_eq!(parser.param().unwrap().unwrap(), "value".to_string());
    assert_eq!(parser.col(), 6);

    let mut parser = Parser::new(" value  ");
    assert_eq!(parser.param().unwrap().unwrap(), "value".to_string());
    assert_eq!(parser.col(), 8);
}

#[test]
fn test_param_with_quote() {
    let mut parser = Parser::new("'value'");
    assert_eq!(parser.param().unwrap().unwrap(), "value".to_string());
    assert_eq!(parser.col(), 8);

    let mut parser = Parser::new(" 'value'  ");
    assert_eq!(parser.param().unwrap().unwrap(), "value".to_string());
    assert_eq!(parser.col(), 9);

    let mut parser = Parser::new("'\\n'");
    assert_eq!(parser.param().unwrap().unwrap(), "\\n".to_string());
    assert_eq!(parser.col(), 5);
}

#[test]
fn test_dollar_prefix() {
    let mut parser = Parser::new("$'Test: \\''");
    assert_eq!(parser.param().unwrap().unwrap(), "Test: '".to_string());
    assert_eq!(parser.col(), 12);

    let mut parser = Parser::new("$'\\n'");
    assert_eq!(parser.param().unwrap().unwrap(), "\n".to_string());
    assert_eq!(parser.col(), 6);
}

#[test]
fn test_param_missing_closing_quote() {
    let mut parser = Parser::new("'value");
    assert_eq!(
        parser.param().err().unwrap(),
        "Missing delimiter ' at column 7".to_string()
    );
    assert_eq!(parser.col(), 7);
}

#[test]
fn test_no_more_param() {
    assert_eq!(Parser::new("").param().unwrap(), None);
    assert_eq!(Parser::new(" ").param().unwrap(), None);
}

#[test]
fn test_delimiter() {
    let mut parser = Parser::new("value");
    assert_eq!(parser.delimiter(), None);
    assert_eq!(parser.col(), 1);
    let mut parser = Parser::new("'value'");
    assert_eq!(parser.delimiter().unwrap(), ('\'', false));
    assert_eq!(parser.col(), 2);
    let mut parser = Parser::new("$'value'");
    assert_eq!(parser.delimiter().unwrap(), ('\'', true));
    assert_eq!(parser.col(), 3);
    let mut parser = Parser::new("$value");
    assert_eq!(parser.delimiter(), None);
    assert_eq!(parser.col(), 1);
}

#[test]
fn split_escape_at_end_is_an_error() {
    assert_eq!(split("AAA\\").err().unwrap(), "Invalid escape at column 5".to_string());
    assert_eq!(split("$'A\\").err().unwrap(), "Invalid escape at column 5".to_string());
}

#[test]
fn split_backslash_outside_quotes_keeps_next_char() {
    assert_eq!(split("a\\ b c").unwrap(), vec!["a b".to_string(), "c".to_string()]);
}
