//! Validation of parsed documents against schemas written in the same format.
pub mod error;
pub mod limit;
pub mod schema;
pub mod validate;
pub mod value;
pub mod yaml;

pub use error::{SchemaError, SchemaErrorKind};
pub use limit::{try_into_usize, Limit};
pub use schema::{parse_type, DataType, Property, YamlSchema};
pub use validate::{validate, YamlContext};
pub use value::Value;
pub use yaml::load_values;
