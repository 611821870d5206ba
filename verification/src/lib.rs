//! Serialize a runtime-selected subset of a record's fields.
//!
//! A record type declares its fields once; a field-enumeration type gives each
//! field a typed variant and a canonical name. A [`ViewContext`] binds a record
//! to a set of selected variants and drives a filtered serialization: only the
//! selected fields are emitted, in the record's own declared order, with each
//! value encoded exactly as the record itself would encode it. An empty
//! selection is a sentinel meaning "emit all fields", not "emit nothing".

pub mod context;
pub mod error;
pub mod fields;
pub mod ser;

pub use context::ViewContext;
pub use context::Viewable;
pub use error::Error;
pub use fields::from_str_iter;
pub use fields::from_str_split;
pub use fields::IntoField;
pub use fields::ViewFields;
