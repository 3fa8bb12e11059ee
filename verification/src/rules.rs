//! Assignment rules: special treatment, by size, of the data-types that a
//! convention does not pass in its ordinary entries.
use crate::space::AddrSpace;
use vstd::prelude::*;

verus! {

/// The outcome of trying to assign storage to one parameter.
#[derive(Debug, Clone, Copy, PartialEq, Eq, Structural)]
#[allow(non_camel_case_types)]
pub enum AssignActionResponse {
    /// The data-type is fully assigned.
    success,
    /// No storage could be found.
    fail,
    /// The parameter gets no storage.
    no_assignment,
    /// Hidden return pointer as the first input parameter.
    hiddenret_ptrparam,
    /// Hidden return pointer in a dedicated register.
    hiddenret_specialreg,
    /// Hidden return pointer, and nothing is returned.
    hiddenret_specialreg_void,
}

/// What a rule does with a data-type that it selects.
#[derive(Debug, Clone, Copy, PartialEq, Eq, Structural)]
pub enum AssignAction {
    /// Put it in the stack resource at this position of the entry list.
    GotoStack { stack_entry: Option<usize> },
    /// Pass a pointer to it, of the size of this space's addresses (of the
    /// default data space if there is none).
    ConvertToPointer { space: Option<AddrSpace> },
}

/// An assignment rule for data-types of `min_size` to `max_size` bytes; a
/// `max_size` of 0 sets no upper limit.
#[derive(Debug, Clone, Copy, PartialEq, Eq, Structural)]
pub struct ModelRule {
    pub min_size: i32,
    pub max_size: i32,
    pub action: AssignAction,
}

impl ModelRule {
    pub fn from_components(min_size: i32, max_size: i32, action: AssignAction) -> (r: ModelRule)
        ensures
            r == (ModelRule { min_size, max_size, action }),
    {
        ModelRule { min_size, max_size, action }
    }

    /// Does the rule select data-types of `size` bytes.
    pub open spec fn selects(self, size: int) -> bool {
        size >= self.min_size && (self.max_size == 0 || size <= self.max_size)
    }

    pub fn is_selected(&self, size: i32) -> (r: bool)
        ensures
            r == self.selects(size as int),
    {
        size >= self.min_size && (self.max_size == 0 || size <= self.max_size)
    }

    /// Can the rule recognise a return value from its trials.
    pub open spec fn affects_output(self) -> bool {
        self.action is GotoStack
    }

    pub fn can_affect_fillin_output(&self) -> (r: bool)
        ensures
            r == self.affects_output(),
    {
        match self.action {
            AssignAction::GotoStack { stack_entry } => true,
            AssignAction::ConvertToPointer { space } => false,
        }
    }
}

} // verus!
