use vstd::prelude::*;

use crate::error::CastError;

verus! {

/// The parts of a statement's evaluation context that the cast rules read:
/// how a truncation is to be treated.
#[derive(Debug, Clone, Copy)]
pub struct StatementContext {
    /// Truncations are ignored altogether.
    pub ignore_truncate: bool,
    /// Truncations are reported as warnings, not errors.
    pub truncate_as_warning: bool,
}

impl StatementContext {
    /// A truncation is an error unless it is ignored or downgraded to a warning.
    pub open spec fn truncates_as_error(&self) -> bool {
        !(self.ignore_truncate || self.truncate_as_warning)
    }

    /// Whether a truncation under this context is an error.
    pub fn handle_truncate_as_error(&self) -> (res: bool)
        ensures
            res == self.truncates_as_error(),
    {
        !(self.ignore_truncate || self.truncate_as_warning)
    }

    /// Fails with `Truncated` exactly when a truncation happened and counts as an error.
    pub fn handle_truncate(&self, is_truncated: bool) -> (res: Result<(), CastError>)
        ensures
            res is Err <==> (is_truncated && self.truncates_as_error()),
            res matches Err(e) ==> e == CastError::Truncated,
    {
        if is_truncated && self.handle_truncate_as_error() {
            Err(CastError::Truncated)
        } else {
            Ok(())
        }
    }
}

/// A truncation is an error exactly in the strict context: ignoring truncation or
/// downgrading it to a warning each make it harmless, on its own.
pub proof fn lemma_strict_context_only(ctx: StatementContext)
    ensures
        ctx.ignore_truncate ==> !ctx.truncates_as_error(),
        ctx.truncate_as_warning ==> !ctx.truncates_as_error(),
        (!ctx.ignore_truncate && !ctx.truncate_as_warning) ==> ctx.truncates_as_error(),
{
}

} // verus!
