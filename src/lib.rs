//! A schema-validation core: schema documents compiled once into validator
//! trees (`multipleOf`, `items`, `allOf`, `properties`, boolean schemas) and
//! applied to instance documents in a fast boolean mode or a diagnostic mode
//! that reports every violation with its instance path. Divisibility is
//! decided exactly over decimal numbers.
//!
//! The `metrics` module holds the operation sets of two telemetry metric
//! kinds, for implementors.

mod compile;
mod describe;
pub mod error;
mod execute;
pub mod metrics;
pub mod multiple_of;
pub mod number;
pub mod schema;
pub mod text;
pub mod value;

pub use error::{CompilationError, ErrorKind, ValidationError};
pub use metrics::{ErrorType, Quantity, Uuid};
pub use multiple_of::{MultipleOfFloatValidator, MultipleOfIntegerValidator, MultipleOfValidator};
pub use number::Number;
pub use schema::{Keyword, Schema};
pub use value::{JsonValue, PathSegment};
