//! Model-file reading, mesh assembly and thumbnail bookkeeping for `stl_thumb`,
//! with the logic stated and proved in Verus.
use vstd::prelude::*;

pub mod canvas;
pub mod config;
pub mod float_bits;
pub mod info;
pub mod mesh;
pub mod readers;
pub mod text;
pub mod threemf;

verus! {

} // verus!
