//! Addressing, editing and rendering single nodes of a TOML document by a
//! dotted key path, while the document keeps its comments and layout.
pub mod bash;
pub mod doc;
pub mod error;
pub mod format;
pub mod json;
pub mod keys;
pub mod laws;
pub mod model;
pub mod ops;
pub mod text;
pub mod value;

pub use bash::format_bash;
pub use error::TomatoError;
pub use format::{format_item, format_raw, format_raw_value, format_toml, Format};
pub use json::{format_json, table_to_json, to_json, value_to_json};
pub use keys::{KeySegment, Keyspec};
pub use ops::{append_value, get_in_node, get_key, remove_key, set_key};
pub use value::TomlVal;
