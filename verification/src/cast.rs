use vstd::prelude::*;
use vstd::utf8::*;

use crate::call::FnCall;
use crate::context::StatementContext;
use crate::error::CastError;
use crate::field_type::{MAX_FSP, TYPE_DATETIME, TYPE_TIMESTAMP};
use crate::int_text::{decimal_text, int_value_to_text, IntValue};
use crate::text::{cut_on_char_boundary, fitted_str};
use crate::utf8_check::is_valid_utf8;

verus! {

broadcast use vstd::seq::group_seq_axioms;

/// The JSON values that casts build from integers and text.
#[derive(Debug, PartialEq, Eq)]
pub enum Json {
    I64(i64),
    U64(u64),
    /// A JSON string, held as its UTF-8 bytes.
    String(Vec<u8>),
}

/// What `cast_str_as_json` makes of a text (held as its UTF-8 bytes): either the
/// text is to be parsed as a JSON document, or it becomes a JSON string.
#[derive(Debug, PartialEq, Eq)]
pub enum StrAsJson {
    Parse(Vec<u8>),
    Value(Json),
}

/// The bytes of an optional result, or its error.
pub open spec fn opt_result_bytes(r: Result<Option<Vec<u8>>, CastError>) -> Result<
    Option<Seq<u8>>,
    CastError,
> {
    match r {
        Ok(Some(v)) => Ok(Some(v@)),
        Ok(None) => Ok(None),
        Err(e) => Err(e),
    }
}

/// A fitted text as an optional result.
pub open spec fn some_text(r: Result<Seq<u8>, CastError>) -> Result<Option<Seq<u8>>, CastError> {
    match r {
        Ok(v) => Ok(Some(v)),
        Err(e) => Err(e),
    }
}

/// ASCII white space as `u8::is_ascii_whitespace` defines it: tab, line feed,
/// form feed, carriage return and space.
pub open spec fn is_ascii_space(b: u8) -> bool {
    b == 9 || b == 10 || b == 12 || b == 13 || b == 32
}

/// The first byte that is not ASCII white space, if any.
pub open spec fn first_non_space(s: Seq<u8>) -> Option<u8>
    decreases s.len(),
{
    if s.len() == 0 {
        None
    } else if is_ascii_space(s[0]) {
        first_non_space(s.drop_first())
    } else {
        Some(s[0])
    }
}

/// Bytes below 0x80 form valid UTF-8, and every position in them is a character boundary.
proof fn lemma_ascii_valid_utf8(b: Seq<u8>)
    requires
        forall|i: int| 0 <= i < b.len() ==> #[trigger] b[i] < 0x80,
    ensures
        valid_utf8(b),
        forall|k: int| 0 <= k <= b.len() ==> is_char_boundary(b, k),
    decreases b.len(),
{
    if b.len() > 0 {
        assert(is_leading_byte_width_1(b[0]));
        assert(pop_first_scalar(b) =~= b.drop_first());
        lemma_ascii_valid_utf8(b.drop_first());
    }
    assert forall|k: int| 0 <= k <= b.len() implies is_char_boundary(b, k) by {
        is_char_boundary_start_end_of_seq(b);
        if k < b.len() {
            is_char_boundary_iff_not_is_continuation_byte(b, k);
        }
    }
}

/// Whether a text, past its leading ASCII white space, starts with `-`.
pub fn str_is_negative(val: &[u8]) -> (res: bool)
    ensures
        res == (first_non_space(val@) == Some(45u8)),
{
    let mut i: usize = 0;
    assert(val@.skip(0) =~= val@);
    while i < val.len()
        invariant
            i <= val@.len(),
            first_non_space(val@) == first_non_space(val@.skip(i as int)),
        decreases val@.len() - i,
    {
        let b = val[i];
        if !(b == 9 || b == 10 || b == 12 || b == 13 || b == 32) {
            return b == 45;
        }
        assert(val@.skip(i as int).drop_first() =~= val@.skip(i as int + 1));
        i = i + 1;
    }
    assert(val@.skip(i as int) =~= Seq::<u8>::empty());
    false
}

/// Leading ASCII white space does not change whether a text reads as negative.
pub proof fn lemma_negative_ignores_leading_space(space: Seq<u8>, s: Seq<u8>)
    requires
        forall|i: int| 0 <= i < space.len() ==> is_ascii_space(#[trigger] space[i]),
    ensures
        first_non_space(space + s) == first_non_space(s),
    decreases space.len(),
{
    if space.len() > 0 {
        assert((space + s).drop_first() =~= space.drop_first() + s);
        lemma_negative_ignores_leading_space(space.drop_first(), s);
    } else {
        assert(space + s =~= s);
    }
}

/// The sign test reads only the first byte after leading ASCII white space: for
/// any run of white space `w`, byte `b` that is not white space and rest `t`,
/// `w + [b] + t` reads as negative exactly when `b` is `-`, whatever `t` is; white
/// space alone does not read as negative.
pub proof fn lemma_sign_is_first_non_space_byte(w: Seq<u8>, b: u8, t: Seq<u8>)
    requires
        forall|i: int| 0 <= i < w.len() ==> is_ascii_space(#[trigger] w[i]),
        !is_ascii_space(b),
    ensures
        first_non_space(w + seq![b] + t) == Some(b),
        (first_non_space(w + seq![b] + t) == Some(45u8)) <==> b == 45u8,
        first_non_space(w) is None,
    decreases w.len(),
{
    lemma_negative_ignores_leading_space(w, seq![b] + t);
    assert(w + seq![b] + t =~= w + (seq![b] + t));
    assert((seq![b] + t)[0] == b);
    if w.len() > 0 {
        lemma_sign_is_first_non_space_byte(w.drop_first(), b, t);
    }
}

/// The fractional-second precision a time is written with in JSON: full precision
/// for `DATETIME` and `TIMESTAMP`, its own otherwise.
pub fn json_fsp_for_time(time_tp: u8, fsp: u8) -> (res: u8)
    ensures
        res == if time_tp == TYPE_DATETIME || time_tp == TYPE_TIMESTAMP {
            MAX_FSP
        } else {
            fsp
        },
{
    if time_tp == TYPE_DATETIME || time_tp == TYPE_TIMESTAMP {
        MAX_FSP
    } else {
        fsp
    }
}

impl FnCall {
    /// `CAST(int AS CHAR)`: the decimal text of the integer, fitted to the result
    /// type. `NULL` stays `NULL`.
    pub fn cast_int_as_str(&self, ctx: &StatementContext, val: Option<IntValue>) -> (res: Result<
        Option<Vec<u8>>,
        CastError,
    >)
        ensures
            opt_result_bytes(res) == match val {
                None => Ok(None),
                Some(v) => some_text(
                    fitted_str(
                        self.tp,
                        ctx.truncates_as_error(),
                        decode_utf8(decimal_text(v.value())),
                    ),
                ),
            },
    {
        match val {
            None => Ok(None),
            Some(v) => {
                let text = int_value_to_text(v);
                proof {
                    crate::int_text::lemma_decimal_text_ascii(v.value());
                    lemma_ascii_valid_utf8(text@);
                    decode_utf8_encode_utf8(text@);
                }
                match self.fit_utf8_bytes(ctx, text) {
                    Ok(b) => Ok(Some(b)),
                    Err(e) => Err(e),
                }
            },
        }
    }

    /// `CAST(string AS CHAR)`: the argument's bytes read as UTF-8 text and fitted
    /// to the result type; bytes that are not UTF-8 fail. `NULL` stays `NULL`.
    pub fn cast_str_as_str(&self, ctx: &StatementContext, val: Option<Vec<u8>>) -> (res: Result<
        Option<Vec<u8>>,
        CastError,
    >)
        requires
            val matches Some(v) ==> (valid_utf8(v@) ==> cut_on_char_boundary(
                self.tp,
                ctx.truncates_as_error(),
                decode_utf8(v@),
            )),
        ensures
            opt_result_bytes(res) == match val {
                None => Ok(None),
                Some(v) => if valid_utf8(v@) {
                    some_text(fitted_str(self.tp, ctx.truncates_as_error(), decode_utf8(v@)))
                } else {
                    Err(CastError::InvalidUtf8)
                },
            },
    {
        match val {
            None => Ok(None),
            Some(v) => {
                if !is_valid_utf8(v.as_slice()) {
                    return Err(CastError::InvalidUtf8);
                }
                match self.fit_utf8_bytes(ctx, v) {
                    Ok(b) => Ok(Some(b)),
                    Err(e) => Err(e),
                }
            },
        }
    }

    /// `CAST(string AS JSON)`: the argument's bytes read as UTF-8 text; with a
    /// result type of zero decimals the text is to be parsed as JSON, otherwise it
    /// becomes a JSON string. Bytes that are not UTF-8 fail; `NULL` stays `NULL`.
    pub fn cast_str_as_json(&self, val: Option<Vec<u8>>) -> (res: Result<
        Option<StrAsJson>,
        CastError,
    >)
        ensures
            match val {
                None => res == Ok::<Option<StrAsJson>, CastError>(None),
                Some(v) => if !valid_utf8(v@) {
                    res == Err::<Option<StrAsJson>, CastError>(CastError::InvalidUtf8)
                } else if self.tp.decimal == 0 {
                    res matches Ok(Some(StrAsJson::Parse(t))) && t@ == v@
                } else {
                    res matches Ok(Some(StrAsJson::Value(Json::String(t)))) && t@ == v@
                },
            },
    {
        match val {
            None => Ok(None),
            Some(v) => {
                if !is_valid_utf8(v.as_slice()) {
                    return Err(CastError::InvalidUtf8);
                }
                if self.tp.decimal == 0 {
                    Ok(Some(StrAsJson::Parse(v)))
                } else {
                    Ok(Some(StrAsJson::Value(Json::String(v))))
                }
            },
        }
    }

    /// `CAST(int AS JSON)`: an integer of an unsigned column becomes a JSON
    /// unsigned number (its bits read as unsigned), any other a JSON signed number.
    /// `NULL` stays `NULL`.
    pub fn cast_int_as_jsonn(&self, val: Option<i64>) -> (res: Option<Json>)
        ensures
            match val {
                None => res is None,
                Some(v) => if self.child_tp.spec_is_unsigned() {
                    res == Some(Json::U64(v as u64))
                } else {
                    res == Some(Json::I64(v))
                },
            },
    {
        match val {
            None => None,
            Some(v) => {
                if self.child_tp.is_unsigned() {
                    Some(Json::U64(v as u64))
                } else {
                    Some(Json::I64(v))
                }
            },
        }
    }
}

} // verus!
