//! Picture-of-the-day feed processing: reads a feed's items, finds the image
//! address in each description, filters it by extension and rewrites the
//! width of the thumbnail it names.

pub mod text;
pub mod whitelist;
pub mod rewrite;
pub mod parser;
pub mod engine;

pub use whitelist::ExtensionWhitelist;
pub use engine::{Engine, EngineBuilder, Error};
