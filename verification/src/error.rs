//! The errors of prototype recovery.
use vstd::prelude::*;

verus! {

#[derive(Debug, Clone, Copy, PartialEq, Eq, Structural)]
pub enum FspecError {
    /// No join record stands at the address.
    UnlinkedJoin,
    /// A join needs at least one piece.
    JoinWithoutPieces,
    /// A join of one piece needs a logical size.
    JoinSinglePiece,
    /// Only a join of one piece may have a logical size.
    JoinLogicalSize,
    /// A join must hold at least one byte.
    JoinZeroSize,
    /// A joined entry has no piece among the earlier entries.
    JoinWithoutPrevious,
    /// An entry overlaps an earlier one that it does not contain.
    IllegalOverlap,
    /// Within a group, an entry of the general class precedes a specific one.
    GeneralBeforeSpecific,
    /// Two entries of a group cannot be told apart by size or class.
    AmbiguousGroup,
    /// A little endian space cannot justify values to the right.
    RightJustifiedLittleEndian,
    /// With positive stack growth the size must be a multiple of the alignment.
    StackAlignment,
    /// No split while the placeholder slot is reserved.
    SplitWithPlaceholder,
    /// No join while the placeholder slot is reserved.
    JoinWithPlaceholder,
    /// The joined trials do not add up to the size of the join.
    JoinSizeMismatch,
    /// The merged models have different stacks.
    MergeDifferentStacks,
    /// A merged model has to be resolved first.
    UnresolvedModel,
    /// There is no default data space to point into.
    NoDefaultDataSpace,
    /// A parameter gets no address.
    ParamUnassigned,
    /// A return value cannot be assigned, not even as a pointer.
    ReturnUnassigned,
    /// A piece of a parameter lies in no space.
    PieceWithoutSpace,
    /// The model has no entries to derive parameters from.
    NoEntries,
    /// The effect has no name.
    BadEffectType,
    /// No lists are known for the strategy.
    UnknownStrategy,
    /// Only models with an ordinary input list can be merged.
    MergeNonStandard,
    /// The merged models have different injections.
    MergeInjectIds,
    /// The model is not a merged one.
    NotMerged,
    /// None of the merged models fits.
    NoModelMatches,
    /// Only a parameter whose size is locked can be given another type.
    NotSizeLocked,
    /// The other type has another size.
    DifferentTypeSize,
    /// The operation needs a part of the program that is not there.
    Unsupported,
    /// The callee of a call can be set once.
    CalleeAlreadySet,
    /// The arguments of a call with a locked prototype cannot be joined.
    JoinLocked,
    /// Loads relative to the stack pointer cannot be made.
    NoStackLoads,
    /// The offset of the stack pointer at a call cannot be found.
    PlaceholderUnresolved,
    /// The value that stands for the stack pointer is no locked parameter.
    PlaceholderNotAligned,
    /// The value that stands for the stack pointer is in another space than
    /// the locked parameter.
    PlaceholderOtherSpace,
    /// A prototype without a collection of parameters cannot be written out.
    NoStore,
    /// The word is neither `on` nor `off`.
    BadSetting,
}

} // verus!
