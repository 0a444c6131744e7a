//! Conversion in both directions between JSON and YAML document trees.
pub mod convert;
pub mod float_literal;
pub mod laws;
pub mod value;

pub use convert::{to_json, to_yaml};
pub use value::{Error, ErrorModel, JsonModel, JsonValue, Result, YamlModel, YamlValue};
