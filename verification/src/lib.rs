//! Repairs the loss of precision of the light map coordinate in the shaders
//! of a rendering engine.
//!
//! `assembly` patches a disassembled shader listing: `section` sorts its lines
//! into five regions, `listing` takes it apart, `resolve` finds the register
//! of the coordinate and `rewrite` writes the listing again; `rewrite_laws`
//! says what holds of what it writes. `container`
//! decides which fix a compiled material gets; `walker` applies a fix to
//! every shader it is meant for and `fixes` to one source; `bytes` replaces
//! a byte pattern and `version` holds the detected release. `text`, `lines`,
//! `decimal` and `count` say what searching, splitting, numbers and counts
//! mean; `pattern` hands lines to the expression engine.

pub mod assembly;
pub mod bytes;
pub mod container;
pub mod count;
pub mod decimal;
pub mod error;
pub mod fixes;
pub mod lines;
pub mod listing;
pub mod material;
pub mod pattern;
pub mod resolve;
pub mod rewrite;
pub mod rewrite_laws;
pub mod section;
pub mod text;
pub mod version;
pub mod walker;
