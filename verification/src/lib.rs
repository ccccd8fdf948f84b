//! Payload construction for the pooling benchmark backends and the request
//! logic of the deterministic mock LLM server, with their contracts.
pub mod escape;
pub mod json;
pub mod mock;
pub mod pooling;
pub mod text;
