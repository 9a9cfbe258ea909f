//! Vocabulary of recorded draw commands.
use vstd::prelude::*;

verus! {

/// How a command's colour combines with the pixels beneath.
#[derive(Copy, Clone, Debug, PartialEq, Eq, Structural)]
pub enum BlendMode {
    /// Overwrite the destination.
    Replace,
    /// Source-over alpha blending.
    SrcOver,
    /// Additive blending.
    Add,
    /// Multiplicative blending.
    Multiply,
}

} // verus!
