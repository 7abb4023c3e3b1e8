//! Schema-driven decoding of generic semi-structured values into typed values,
//! with every field failure collected before the decode fails.

pub mod attributes;
pub mod decode;
pub mod error;
pub mod laws;
pub mod schema;
pub mod value;
