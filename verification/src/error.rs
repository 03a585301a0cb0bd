//! Errors reported by the compilation pipeline.

use vstd::prelude::*;

verus! {

/// An error raised while preparing a tile source for compilation.
#[derive(Clone, Copy, Debug, PartialEq, Eq, Structural)]
pub enum Error {
    /// A layer's geometry template does not follow the delimited wrapper
    /// convention `( <sub-query> ) AS <alias>` (the alias part is optional).
    Template,
}

} // verus!
