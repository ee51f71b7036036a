//! A confirmation request/response bridge.
//!
//! An automated caller submits a confirmation request; the library
//! normalizes it into a canonical popup request, frames it as a
//! structured document for an external presentation process, classifies
//! that process's outcome into a canonical user response, and formats
//! the response back into caller-visible text.

pub mod bridge;
pub mod context;
pub mod decode;
pub mod encode;
pub mod files;
pub mod formatter;
pub mod laws;
pub mod normalize;
pub mod request_laws;
pub mod text;
pub mod types;
pub mod version;
