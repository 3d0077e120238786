use vstd::prelude::*;
use vstd::slice::slice_to_vec;
use vstd::utf8::*;

use crate::call::FnCall;
use crate::context::StatementContext;
use crate::error::CastError;
use crate::field_type::{is_utf8_charset, spec_is_utf8_charset, FieldType, TYPE_STRING};
use crate::utf8_scan::{char_start_index, count_char_starts, lemma_char_start_unique, lemma_char_starts_encode};

verus! {

broadcast use vstd::seq::group_seq_axioms;

/// `n` zero bytes.
pub open spec fn zero_bytes(n: nat) -> Seq<u8> {
    Seq::new(n, |i: int| 0u8)
}

/// The bytes of a result, or its error.
pub open spec fn result_bytes(r: Result<Vec<u8>, CastError>) -> Result<Seq<u8>, CastError> {
    match r {
        Ok(v) => Ok(v@),
        Err(e) => Err(e),
    }
}

/// The text `s` fitted to the column type `tp`:
/// - with a negative length it is kept as it is;
/// - a UTF-8 column counts characters: text longer than `flen` characters is an
///   error when truncation is one, and is cut to its first `flen` characters otherwise;
/// - any other column counts bytes: text longer than `flen` bytes is an error or
///   is cut to `flen` bytes; a fixed-length `CHAR` column pads shorter text with
///   zero bytes up to `flen`.
pub open spec fn fitted_str(tp: FieldType, as_error: bool, s: Seq<char>) -> Result<
    Seq<u8>,
    CastError,
> {
    let bytes = encode_utf8(s);
    let flen = tp.flen as int;
    if flen < 0 {
        Ok(bytes)
    } else if spec_is_utf8_charset(tp.charset@) {
        if s.len() <= flen {
            Ok(bytes)
        } else if as_error {
            Err(CastError::DataTooLong { flen: flen as usize, len: s.len() as usize })
        } else {
            Ok(encode_utf8(s.take(flen)))
        }
    } else if bytes.len() > flen {
        if as_error {
            Err(CastError::DataTooLong { flen: flen as usize, len: bytes.len() as usize })
        } else {
            Ok(bytes.take(flen))
        }
    } else if tp.tp == TYPE_STRING as i32 && bytes.len() < flen {
        Ok(bytes + zero_bytes((flen - bytes.len()) as nat))
    } else {
        Ok(bytes)
    }
}

/// Cutting text to a column's byte length only happens on a character boundary.
pub open spec fn cut_on_char_boundary(tp: FieldType, as_error: bool, s: Seq<char>) -> bool {
    let bytes = encode_utf8(s);
    let flen = tp.flen as int;
    (0 <= flen < bytes.len() && !spec_is_utf8_charset(tp.charset@) && !as_error)
        ==> is_char_boundary(bytes, flen)
}

impl FnCall {
    /// Fits the UTF-8 text `bytes` to the result type's length and character set
    /// (see [`fitted_str`]).
    pub(crate) fn fit_utf8_bytes(&self, ctx: &StatementContext, bytes: Vec<u8>) -> (res: Result<
        Vec<u8>,
        CastError,
    >)
        requires
            valid_utf8(bytes@),
            cut_on_char_boundary(self.tp, ctx.truncates_as_error(), decode_utf8(bytes@)),
        ensures
            result_bytes(res) == fitted_str(self.tp, ctx.truncates_as_error(), decode_utf8(bytes@)),
    {
        broadcast use decode_utf8_encode_utf8;

        let ghost s = decode_utf8(bytes@);
        let mut bytes = bytes;
        assert(bytes@ == encode_utf8(s));
        let flen = self.tp.flen;
        if flen < 0 {
            return Ok(bytes);
        }
        let flen = flen as usize;
        if is_utf8_charset(&self.tp.charset) {
            let char_count = count_char_starts(bytes.as_slice());
            proof {
                lemma_char_starts_encode(s);
            }
            if char_count <= flen {
                return Ok(bytes);
            }
            if ctx.handle_truncate_as_error() {
                return Err(CastError::DataTooLong { flen, len: char_count });
            }
            let pos = char_start_index(bytes.as_slice(), flen);
            proof {
                lemma_char_start_unique(s, flen as int, pos as int);
            }
            bytes.truncate(pos);
            return Ok(bytes);
        }
        if bytes.len() > flen {
            if ctx.handle_truncate_as_error() {
                return Err(CastError::DataTooLong { flen, len: bytes.len() });
            }
            bytes.truncate(flen);
            return Ok(bytes);
        }
        if self.tp.tp == TYPE_STRING as i32 && bytes.len() < flen {
            let len = bytes.len();
            bytes.resize(flen, 0u8);
            assert(bytes@ =~= encode_utf8(s) + zero_bytes((flen - len) as nat));
            return Ok(bytes);
        }
        Ok(bytes)
    }

    /// Fits the text `s` to the result type's length and character set (see
    /// [`fitted_str`]). Cutting a non-UTF-8 column's text inside a character is
    /// left out: the text is cut on a character boundary.
    pub fn produce_str_with_specified_tp(&self, ctx: &StatementContext, s: String) -> (res: Result<
        Vec<u8>,
        CastError,
    >)
        requires
            cut_on_char_boundary(self.tp, ctx.truncates_as_error(), s@),
        ensures
            result_bytes(res) == fitted_str(self.tp, ctx.truncates_as_error(), s@),
    {
        broadcast use encode_utf8_valid_utf8, encode_utf8_decode_utf8;

        let bytes = slice_to_vec(s.as_str().as_bytes());
        assert(decode_utf8(bytes@) == s@);
        self.fit_utf8_bytes(ctx, bytes)
    }
}

/// A run of zero bytes is valid UTF-8 (each is the character NUL).
proof fn lemma_zero_bytes_valid_utf8(n: nat)
    ensures
        valid_utf8(zero_bytes(n)),
    decreases n,
{
    if n > 0 {
        let z = zero_bytes(n);
        assert(is_leading_byte_width_1(z[0]));
        assert(pop_first_scalar(z) =~= zero_bytes((n - 1) as nat));
        lemma_zero_bytes_valid_utf8((n - 1) as nat);
    }
}

/// Fitting text to a column type is idempotent: the fitted text is valid UTF-8,
/// and fitting it again to the same type gives it back unchanged.
pub proof fn lemma_fitted_str_idempotent(tp: FieldType, as_error: bool, s: Seq<char>)
    requires
        cut_on_char_boundary(tp, as_error, s),
        fitted_str(tp, as_error, s) is Ok,
    ensures
        valid_utf8(fitted_str(tp, as_error, s)->Ok_0),
        cut_on_char_boundary(tp, as_error, decode_utf8(fitted_str(tp, as_error, s)->Ok_0)),
        fitted_str(tp, as_error, decode_utf8(fitted_str(tp, as_error, s)->Ok_0)) == fitted_str(
            tp,
            as_error,
            s,
        ),
{
    broadcast use encode_utf8_valid_utf8, encode_utf8_decode_utf8, decode_utf8_encode_utf8;

    let bytes = encode_utf8(s);
    let flen = tp.flen as int;
    let out = fitted_str(tp, as_error, s)->Ok_0;
    if flen < 0 {
    } else if spec_is_utf8_charset(tp.charset@) {
        if s.len() > flen {
            assert(decode_utf8(out) == s.take(flen));
        }
    } else if bytes.len() > flen {
        valid_utf8_split(bytes, flen);
        assert(bytes.subrange(0, flen) == out);
    } else if tp.tp == TYPE_STRING as i32 && bytes.len() < flen {
        let pad = zero_bytes((flen - bytes.len()) as nat);
        lemma_zero_bytes_valid_utf8((flen - bytes.len()) as nat);
        valid_utf8_concat(bytes, pad);
        assert(encode_utf8(decode_utf8(out)) == out);
    }
}

/// Fitting text fails exactly when truncation is an error and the text is longer
/// than a non-negative column length, counted in characters for the `utf8` and
/// `utf8mb4` character sets and in bytes for any other; the error is
/// `DataTooLong` with the column length and that text length.
pub proof fn lemma_fitted_str_fails_only_as_error(tp: FieldType, as_error: bool, s: Seq<char>)
    ensures
        !as_error ==> fitted_str(tp, as_error, s) is Ok,
        ({
            let counts_chars = tp.charset@ == "utf8"@ || tp.charset@ == "utf8mb4"@;
            let len = if counts_chars {
                s.len() as int
            } else {
                encode_utf8(s).len() as int
            };
            &&& fitted_str(tp, as_error, s) is Err <==> (as_error && 0 <= tp.flen && len > tp.flen)
            &&& (as_error && 0 <= tp.flen && len > tp.flen) ==> fitted_str(tp, as_error, s) == Err::<
                Seq<u8>,
                CastError,
            >(CastError::DataTooLong { flen: tp.flen as usize, len: len as usize })
        }),
{
    crate::field_type::lemma_only_utf8_charsets_count_chars(tp.charset@);
}

/// A column of negative length takes any text as it is.
pub proof fn lemma_fitted_str_unlimited(tp: FieldType, as_error: bool, s: Seq<char>)
    requires
        tp.flen < 0,
    ensures
        fitted_str(tp, as_error, s) == Ok::<Seq<u8>, CastError>(encode_utf8(s)),
{
}

/// The fitted text respects the column length: a UTF-8 column's text has at most
/// `flen` characters, another column's text at most `flen` bytes, exactly `flen`
/// for fixed-length `CHAR`. It is the text's bytes cut short, or for `CHAR` the
/// text's bytes followed by zero bytes.
pub proof fn lemma_fitted_str_length(tp: FieldType, as_error: bool, s: Seq<char>)
    requires
        0 <= tp.flen,
        cut_on_char_boundary(tp, as_error, s),
        fitted_str(tp, as_error, s) is Ok,
    ensures
        ({
            let out = fitted_str(tp, as_error, s)->Ok_0;
            let bytes = encode_utf8(s);
            let counts_chars = tp.charset@ == "utf8"@ || tp.charset@ == "utf8mb4"@;
            &&& valid_utf8(out)
            &&& counts_chars ==> decode_utf8(out).len() <= tp.flen
            &&& counts_chars ==> decode_utf8(out) == s.take(
                if s.len() <= tp.flen {
                    s.len() as int
                } else {
                    tp.flen as int
                },
            )
            &&& !counts_chars ==> out.len() <= tp.flen
            &&& (!counts_chars && tp.tp == TYPE_STRING as i32) ==> out.len() == tp.flen
            &&& (!counts_chars && tp.tp != TYPE_STRING as i32) ==> out.len() == if bytes.len()
                <= tp.flen {
                bytes.len() as int
            } else {
                tp.flen as int
            }
            &&& forall|i: int| bytes.len() <= i < out.len() ==> #[trigger] out[i] == 0u8
            &&& (out.len() <= bytes.len() && out == bytes.take(out.len() as int)) || (out.len()
                > bytes.len() && out == bytes + zero_bytes((out.len() - bytes.len()) as nat))
        }),
{
    broadcast use encode_utf8_valid_utf8, encode_utf8_decode_utf8;

    let bytes = encode_utf8(s);
    let flen = tp.flen as int;
    let out = fitted_str(tp, as_error, s)->Ok_0;
    crate::field_type::lemma_only_utf8_charsets_count_chars(tp.charset@);
    lemma_fitted_str_idempotent(tp, as_error, s);
    if spec_is_utf8_charset(tp.charset@) {
        if s.len() > flen {
            crate::utf8_scan::lemma_encode_split(s, flen);
            assert(out.len() <= bytes.len());
            assert(out =~= bytes.take(out.len() as int));
        } else {
            assert(bytes.take(bytes.len() as int) =~= bytes);
            assert(s.take(s.len() as int) =~= s);
        }
    } else if bytes.len() > flen {
    } else if tp.tp == TYPE_STRING as i32 && bytes.len() < flen {
    } else {
        assert(bytes.take(bytes.len() as int) =~= bytes);
    }
}

} // verus!
