//! Helpers for AWS CloudFormation custom-resource handlers: a model of the
//! lifecycle event CloudFormation sends, a builder for the response document
//! it expects back, and the JSON codec that connects the two.
//!
//! All text travels as raw UTF-8 bytes (`Vec<u8>`), which is exactly what
//! arrives on the wire and what is sent back.

pub mod json;
pub mod parse;
pub mod uuid_text;
pub mod event;
pub mod response;
pub mod laws;
pub mod roundtrip;

pub use event::CloudformationPayload;
pub use event::CustomResourceEvent;
pub use event::DecodeError;
pub use json::JsonSpec;
pub use json::JsonValue;
pub use response::CustomResourceResponse;
