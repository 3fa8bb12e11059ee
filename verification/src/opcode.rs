//! The operations that prototype recovery tells apart.
use vstd::prelude::*;

verus! {

#[derive(Debug, Clone, Copy, PartialEq, Eq, Structural)]
pub enum OpCode {
    Copy,
    Load,
    Store,
    Branch,
    CBranch,
    BranchInd,
    Call,
    CallInd,
    CallOther,
    Return,
    MultiEqual,
    Indirect,
    Piece,
    SubPiece,
    IntAdd,
    IntZext,
    IntSext,
    /// Any other operation.
    Other,
}

} // verus!
