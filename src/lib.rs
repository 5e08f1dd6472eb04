//! Option model and project identity for running loose Rust source files
//! as a throw-away Cargo project.

pub mod edition;
pub mod error;
pub mod identity;
pub mod options;
pub mod scan;
pub mod text;

pub use edition::RustEdition;
pub use error::CargoPlayError;
pub use options::Options;
