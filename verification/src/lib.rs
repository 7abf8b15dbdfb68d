pub mod doc;
pub mod registry;
pub mod sync;
pub mod error;
