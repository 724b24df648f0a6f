//! The description of a layout and of a corpus, as the files give them.

pub mod corpus;
pub mod json;
pub mod layout;
pub mod symbols;

pub use corpus::Corpus;
pub use layout::{Geometry, Layout, PhysicalKey};
pub use symbols::{DeadKey, Mod, ModMapping, Symbol};
