//! Instance validation.

pub mod type_resolver;
pub mod report;
pub mod string_validator;
pub mod numeric_validator;
pub mod hierarchy;
pub mod instance_validator;
