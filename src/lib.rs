//! Binds positional command-line tokens to named required and optional
//! fields in declaration order, tracks which flag tokens were given, and
//! collects every missing required field as a problem.

use vstd::prelude::*;

pub mod args;
pub mod error;
pub mod text;

pub use args::{Arg, Args};
pub use error::ArgsError;

verus! {

} // verus!
