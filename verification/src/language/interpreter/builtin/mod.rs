pub mod base64_text;
pub mod request;
pub mod response;
pub mod database;
pub mod localization;
pub mod filesystem;
