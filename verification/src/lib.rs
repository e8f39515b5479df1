pub mod text;
pub mod common;
pub mod reader;
pub mod curl_args;
pub mod json;
pub mod parse_error;
pub mod template;
pub mod json_parser;
pub mod http;
pub mod fs;
pub mod serialize_json;
pub mod cli_options;
pub mod runner;
pub mod json_doc;
pub mod color;
pub mod format_error;
pub mod curl;
pub mod percent;
pub mod fmt_options;
pub mod linter;
pub mod logger;
pub mod json_laws;
pub mod jsonpath;
pub mod html;
