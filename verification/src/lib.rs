//! An event-driven YAML document model: a builder that turns a flat
//! structural event stream into nested document trees, the core-schema
//! scalar typing rules, anchor/alias resolution, input-to-output model
//! conversion, and a serializer kept in lockstep with the typing rules.
pub mod access;
pub mod builder;
pub mod convert;
pub mod emit;
pub mod laws;
pub mod scalar;
pub mod source;
pub mod text;
pub mod value;
