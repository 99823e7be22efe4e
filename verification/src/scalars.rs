//! The named custom scalars of the schema, bound to native types. The
//! decimal scalar has its own exact representation; identifiers, handles and
//! date-like scalars are pass-through strings with no validation; the
//! free-form JSON scalar mirrors the host's tag set into an owned tree.

use vstd::prelude::*;

pub use crate::decimal::Decimal;
pub use crate::json_value::JsonValue;

verus! {

pub type Boolean = bool;

pub type Int = i64;

pub type ID = String;

pub type Void = ();

pub type URL = String;

pub type Handle = String;

pub type Date = String;

pub type DateTime = String;

pub type DateTimeWithoutTimezone = String;

pub type TimeWithoutTimezone = String;

pub type JSON = JsonValue;

} // verus!
