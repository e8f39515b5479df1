pub mod text;
pub mod cookie;
pub mod query;
pub mod predicate;
pub mod log_deserialize;
pub mod results;
pub mod json_eval;
pub mod request;
pub mod predicate_func;
pub mod response;
pub mod capture;
pub mod assert_result;
pub mod variables;
pub mod entry;
pub mod file;
