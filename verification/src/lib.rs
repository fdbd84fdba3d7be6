//! Verified value layer of the ZenoFCIS functional-core / imperative-shell library.
//!
//! Every module is a closed, immutable value model whose constructors check the
//! admission rules stated in their contracts.

pub mod commit;
pub mod decode;
pub mod encode;
pub mod sort;
pub mod os;
pub mod patch;
pub mod plan;
pub mod project;
pub mod receipt;
pub mod refine;
pub mod schema;
pub mod secret;
pub mod security;
pub mod value;
pub mod wire;
pub mod zenodex;
