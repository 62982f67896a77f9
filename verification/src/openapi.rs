//! The OpenAPI document of a parsed interface definition.

pub mod swagger;
