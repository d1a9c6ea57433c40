//! A template-driven extractor of records from line-oriented text.
pub mod pattern;
pub mod template;
pub mod value;
pub mod text;
pub mod engine;
pub mod syntax;
pub mod grammar;
pub mod laws;

pub use engine::run;
pub use template::parse_template;
