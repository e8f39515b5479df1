pub mod header;
pub mod cookie;
pub mod response;
pub mod request;
pub mod libcurl;
pub mod client;
pub mod import;
