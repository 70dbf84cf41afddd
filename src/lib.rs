//! Asset ingestion for a small renderer: a line-oriented mesh parser and a
//! texture decoder, both with exact contracts.

use vstd::prelude::*;

pub mod lex;
pub mod obj;
pub mod texture;

pub use obj::{Error as ObjError, Obj};
pub use texture::{TextureError, TextureRGBA8};

verus! {

/// Why a model could not be built from a mesh text.
#[derive(Debug)]
pub enum ModelError {
    /// The text did not parse.
    Obj(ObjError),
    /// The normal with this one-based index has length zero.
    InvalidNormal(usize),
}

} // verus!
