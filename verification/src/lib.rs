//! A loader and resolver for TIDE configuration text: typed `name: type = value`
//! declarations grouped in nested sections, looked up by dotted key.
pub mod text;
pub mod value;
pub mod parser;
pub mod resolver;
pub mod store;
pub mod laws;
pub mod literal;

pub use store::{Loader, TIDE};
pub use value::{ConfigError, ConfigValue, TypeConverter};
