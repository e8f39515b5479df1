use hurl::fmt_options::{
    check, color, in_place, input_format, output_format, standalone, InputFormat, Matches, OptionsError, OutputFormat,
};

fn matches() -> Matches {
    Matches {
        check: false,
        color: false,
        no_color: false,
        in_place: false,
        standalone: false,
        input_format: Some("hurl".to_string()),
        output_format: Some("hurl".to_string()),
        input_files: Some(vec!["a.hurl".to_string()]),
    }
}

#[test]
fn test_formats() {
    let mut m = matches();
    assert_eq!(input_format(&m).unwrap(), InputFormat::Hurl);
    assert_eq!(output_format(&m).unwrap(), OutputFormat::Hurl);
    m.input_format = Some("curl".to_string());
    m.output_format = Some("html".to_string());
    assert_eq!(input_format(&m).unwrap(), InputFormat::Curl);
    assert_eq!(output_format(&m).unwrap(), OutputFormat::Html);
    m.output_format = Some("json".to_string());
    assert_eq!(output_format(&m).unwrap(), OutputFormat::Json);
    m.input_format = Some("xml".to_string());
    m.output_format = Some("text".to_string());
    assert_eq!(input_format(&m).err().unwrap(), OptionsError::Error("Invalid input format xml".to_string()));
    assert_eq!(output_format(&m).err().unwrap(), OptionsError::Error("Invalid output format text".to_string()));
}

#[test]
fn test_color_and_check() {
    let mut m = matches();
    assert!(!check(&m));
    assert!(color(&m, true));
    assert!(!color(&m, false));
    m.in_place = true;
    assert!(!color(&m, true));
    m.color = true;
    assert!(color(&m, false));
    m.check = true;
    assert!(check(&m));
}

#[test]
fn test_in_place() {
    let mut m = matches();
    assert_eq!(in_place(&m).unwrap(), false);
    m.in_place = true;
    assert_eq!(in_place(&m).unwrap(), true);
    m.input_files = None;
    assert_eq!(
        in_place(&m).err().unwrap(),
        OptionsError::Error("You can not use --in-place with standard input stream!".to_string())
    );
    m.input_format = Some("curl".to_string());
    assert_eq!(in_place(&m).err().unwrap(), OptionsError::Error("You can use --in-place only hurl format!".to_string()));
}

#[test]
fn test_standalone() {
    let mut m = matches();
    assert_eq!(standalone(&m).unwrap(), false);
    m.standalone = true;
    assert_eq!(
        standalone(&m).err().unwrap(),
        OptionsError::Error("use --standalone option only with html output".to_string())
    );
    m.output_format = Some("html".to_string());
    assert_eq!(standalone(&m).unwrap(), true);
}
