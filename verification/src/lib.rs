//! Support library for writing sandboxed business-logic extensions that
//! exchange JSON-like values with a host across a module boundary.
//!
//! The core is the value access layer: a lazy, schema-typed decode/encode
//! bridge between native data structures and a tagged value store, together
//! with a field-name interning cache that amortizes repeated property
//! lookups. Around it stand the scalar codecs, the read/write session that
//! builds and finalizes one output tree per invocation, the generated
//! accessor pattern the schema generator must emit, and the discount
//! function built on all of it.

pub mod context;
pub mod decimal;
pub mod discounts;
pub mod function;
pub mod input;
pub mod intern;
pub mod json_text;
pub mod json_value;
pub mod laws;
pub mod output;
pub mod read;
pub mod scalars;
pub mod schema;
pub mod schema_with_targets;
pub mod store;
pub mod write;

pub use context::{Context, WriteError};
pub use decimal::Decimal;
pub use json_value::JsonValue;
pub use read::{ReadError, WasmDeserialize};
pub use write::WasmSerialize;
