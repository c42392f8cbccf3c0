//! Bookmark menus for a launcher: the bookmark tree, its two source
//! encodings, selection by title and the tagged-field lines handed back.

pub mod agree;
pub mod decode;
pub mod document;
pub mod emit;
pub mod error;
pub mod flat;
pub mod model;
pub mod resolve;
pub mod text;
pub mod value;
