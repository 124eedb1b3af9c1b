//! In-memory value model of a self-describing structured format: annotated
//! identifiers, annotated binary blobs with a base64 text form, and a closed
//! sum of scalar and container values with a canonical equality.
use vstd::prelude::*;

pub mod float_bits;
pub mod hashing;
pub mod blob;
pub mod decimal;
pub mod id;
pub mod temporal;
pub mod value;

pub use crate::blob::{Base64Error, Blob};
pub use crate::decimal::Decimal;
pub use crate::id::Id;
pub use crate::temporal::{Date, DateTime, Time};
pub use crate::value::{Fields, Value};

verus! {

} // verus!
