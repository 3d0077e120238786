use vstd::prelude::*;

use crate::field_type::FieldType;

verus! {

/// A cast call as the cast rules see it: the type it produces and the type of
/// the argument it converts.
#[derive(Debug)]
pub struct FnCall {
    /// Type of the cast's result.
    pub tp: FieldType,
    /// Type of the cast's argument.
    pub child_tp: FieldType,
}

} // verus!
