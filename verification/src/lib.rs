//! NewFactor — an ANS Forth compiler front end targeting Factor's VM.
//!
//! The library holds the whole compiler pipeline (lex, parse, resolve,
//! stack-effect inference, lowering passes, emit) with contracts proved
//! by Verus.  Hosting the Factor VM itself (dynamic library loading,
//! threads, the GUI) lives outside the library.
use vstd::prelude::*;

pub mod text;
pub mod compiler;
pub mod host;

verus! {

/// Crate identifier.
pub const NAME: &'static str = "newfactor";

} // verus!
