//! Declarative extraction of structured values from HTML documents.
//!
//! A specification (`Config`) is compiled once into a plan (`Finder`), which
//! is then applied to any number of documents, each time producing a
//! `Value`.

pub mod config;
pub mod dom;
pub mod errors;
pub mod finder;
pub mod literal;
pub mod pipeline;
pub mod sanitization;
pub mod sanitize_policy;
pub mod text;
pub mod value;

pub use config::{CastType, Config};
pub use errors::{ParseError, PipelineError, ValidationError};
pub use finder::Finder;
pub use pipeline::{Pipeline, Proc};
pub use sanitization::SanitizeOption;
pub use sanitize_policy::SanitizePolicy;
pub use value::{InnerMap, Value};
