//! Verified core of a Concerto entity validator.

use vstd::prelude::*;

pub mod text;
pub mod number;
pub mod json;
pub mod external;
pub mod property;
pub mod declaration;
pub mod error;
pub mod model_file;
pub mod validator;
pub mod model_manager;
pub mod parser;
pub mod conformance;
pub mod summary;

pub use error::ConcertoError;
pub use json::JsonValue;
pub use model_manager::ModelManager;
pub use validator::report::{ErrorKind, ValidationError, ValidationResult};

verus! {
} // verus!
