use vstd::prelude::*;

use crate::context::StatementContext;
use crate::error::CastError;

verus! {

/// A converted value together with how the conversion went.
#[derive(Debug, PartialEq, Eq)]
pub enum Res<T> {
    /// Converted exactly.
    Exact(T),
    /// Converted, but digits were dropped.
    Truncated(T),
    /// Out of range; the value is the nearest one in range.
    Overflow(T),
}

impl<T> Res<T> {
    /// The converted value, however the conversion went.
    pub open spec fn spec_value(self) -> T {
        match self {
            Res::Exact(v) => v,
            Res::Truncated(v) => v,
            Res::Overflow(v) => v,
        }
    }
}

/// The value of a number fitted to a column's length and decimals: an exact fit
/// is kept; an overflowed or truncated one is kept unless truncation is an error.
pub fn value_after_truncation<T>(ctx: &StatementContext, res: Res<T>) -> (out: Result<
    T,
    CastError,
>)
    ensures
        out is Err <==> (!(res is Exact) && ctx.truncates_as_error()),
        out matches Ok(v) ==> v == res.spec_value(),
        out matches Err(e) ==> e == CastError::Truncated,
{
    match res {
        Res::Exact(v) => Ok(v),
        Res::Overflow(v) | Res::Truncated(v) => {
            match ctx.handle_truncate(true) {
                Ok(()) => Ok(v),
                Err(e) => Err(e),
            }
        },
    }
}

/// The value of a decimal read from text: an exact or overflowed reading is kept;
/// a truncated one is kept unless truncation is an error.
pub fn decimal_from_parse<T>(ctx: &StatementContext, res: Res<T>) -> (out: Result<T, CastError>)
    ensures
        out is Err <==> (res is Truncated && ctx.truncates_as_error()),
        out matches Ok(v) ==> v == res.spec_value(),
        out matches Err(e) ==> e == CastError::Truncated,
{
    match res {
        Res::Exact(d) | Res::Overflow(d) => Ok(d),
        Res::Truncated(d) => {
            match ctx.handle_truncate(true) {
                Ok(()) => Ok(d),
                Err(e) => Err(e),
            }
        },
    }
}

} // verus!
