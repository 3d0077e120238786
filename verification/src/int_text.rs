use vstd::prelude::*;

verus! {

broadcast use vstd::seq::group_seq_axioms;

/// An integer value read either as signed or as unsigned.
#[derive(Debug, Clone, Copy, PartialEq, Eq, Structural)]
pub enum IntValue {
    Signed(i64),
    Unsigned(u64),
}

impl IntValue {
    /// The mathematical value.
    pub open spec fn value(self) -> int {
        match self {
            IntValue::Signed(v) => v as int,
            IntValue::Unsigned(u) => u as int,
        }
    }
}

/// The ASCII decimal digits of `n`, most significant first, without leading zeros.
pub open spec fn decimal_digits(n: nat) -> Seq<u8>
    decreases n,
{
    if n < 10 {
        seq![(n + 48) as u8]
    } else {
        decimal_digits(n / 10).push((n % 10 + 48) as u8)
    }
}

/// The decimal text of `v`: its digits, after a `-` when it is negative.
pub open spec fn decimal_text(v: int) -> Seq<u8> {
    if v < 0 {
        seq![45u8] + decimal_digits((-v) as nat)
    } else {
        decimal_digits(v as nat)
    }
}

/// The number that a sequence of ASCII decimal digits denotes.
pub open spec fn digits_value(d: Seq<u8>) -> int
    decreases d.len(),
{
    if d.len() == 0 {
        0
    } else {
        10 * digits_value(d.drop_last()) + (d.last() - 48)
    }
}

/// The number that a decimal text denotes (an optional `-`, then digits).
pub open spec fn text_value(t: Seq<u8>) -> int {
    if t.len() > 0 && t[0] == 45u8 {
        -digits_value(t.drop_first())
    } else {
        digits_value(t)
    }
}

/// All bytes are ASCII digits.
pub open spec fn all_digits(d: Seq<u8>) -> bool {
    forall|i: int| 0 <= i < d.len() ==> 48 <= #[trigger] d[i] <= 57
}

/// Reading back the digits of `n` gives `n`; they are ASCII digits, and the first
/// is `0` only for `n == 0`.
pub proof fn lemma_decimal_digits(n: nat)
    ensures
        digits_value(decimal_digits(n)) == n,
        all_digits(decimal_digits(n)),
        decimal_digits(n).len() >= 1,
        decimal_digits(n)[0] == 48u8 <==> n == 0,
    decreases n,
{
    if n >= 10 {
        lemma_decimal_digits(n / 10);
        let d = decimal_digits(n);
        assert(d.drop_last() =~= decimal_digits(n / 10));
        assert(d[0] == decimal_digits(n / 10)[0]);
        assert(d.last() == (n % 10 + 48) as u8);
        assert(n == 10 * (n / 10) + n % 10);
    } else {
        let d = decimal_digits(n);
        assert(d.drop_last() =~= Seq::<u8>::empty());
        assert(digits_value(Seq::<u8>::empty()) == 0);
    }
}

/// The decimal text of an integer reads back as that integer, so distinct integers
/// have distinct texts.
pub proof fn lemma_decimal_text_roundtrip(v: int)
    ensures
        text_value(decimal_text(v)) == v,
        v < 0 ==> decimal_text(v)[0] == 45u8 && all_digits(decimal_text(v).drop_first()),
        v >= 0 ==> all_digits(decimal_text(v)),
        decimal_text(v).len() >= 1,
{
    if v < 0 {
        lemma_decimal_digits((-v) as nat);
        assert((seq![45u8] + decimal_digits((-v) as nat)).drop_first() =~= decimal_digits(
            (-v) as nat,
        ));
        assert(decimal_text(v).drop_first() =~= decimal_digits((-v) as nat));
    } else {
        lemma_decimal_digits(v as nat);
        assert(decimal_digits(v as nat)[0] != 45u8);
    }
}

/// A decimal text is plain ASCII: digits and possibly a leading `-`.
pub proof fn lemma_decimal_text_ascii(v: int)
    ensures
        forall|i: int| 0 <= i < decimal_text(v).len() ==> #[trigger] decimal_text(v)[i] < 0x80,
{
    if v < 0 {
        lemma_decimal_digits((-v) as nat);
        let t = decimal_text(v);
        assert forall|i: int| 0 <= i < t.len() implies #[trigger] t[i] < 0x80 by {
            if i > 0 {
                assert(t[i] == decimal_digits((-v) as nat)[i - 1]);
            }
        }
    } else {
        lemma_decimal_digits(v as nat);
    }
}

/// Appends the decimal digits of `n` to `out`.
fn push_decimal_digits(n: u64, out: &mut Vec<u8>)
    ensures
        final(out)@ == old(out)@ + decimal_digits(n as nat),
    decreases n,
{
    if n >= 10 {
        push_decimal_digits(n / 10, out);
    }
    let digit = (n % 10) as u8 + 48;
    out.push(digit);
    proof {
        if n >= 10 {
            assert(old(out)@ + decimal_digits(n as nat) =~= old(out)@ + decimal_digits(
                (n / 10) as nat,
            ) + seq![digit]);
        } else {
            assert(old(out)@ + decimal_digits(n as nat) =~= old(out)@ + seq![digit]);
        }
    }
}

/// The decimal text of an unsigned integer.
pub fn u64_to_text(n: u64) -> (res: Vec<u8>)
    ensures
        res@ == decimal_text(n as int),
{
    let mut out: Vec<u8> = Vec::new();
    push_decimal_digits(n, &mut out);
    assert(out@ =~= decimal_digits(n as nat));
    out
}

/// The decimal text of a signed integer.
pub fn i64_to_text(v: i64) -> (res: Vec<u8>)
    ensures
        res@ == decimal_text(v as int),
{
    let mut out: Vec<u8> = Vec::new();
    if v < 0 {
        out.push(45u8);
        let magnitude: u64 = (-(v as i128)) as u64;
        push_decimal_digits(magnitude, &mut out);
        assert(out@ =~= seq![45u8] + decimal_digits((-v) as nat));
    } else {
        push_decimal_digits(v as u64, &mut out);
        assert(out@ =~= decimal_digits(v as nat));
    }
    out
}

/// The decimal text of an integer value, signed or unsigned.
pub fn int_value_to_text(v: IntValue) -> (res: Vec<u8>)
    ensures
        res@ == decimal_text(v.value()),
{
    match v {
        IntValue::Signed(s) => i64_to_text(s),
        IntValue::Unsigned(u) => u64_to_text(u),
    }
}

/// The 64 bits of an integer value read as a signed integer: an unsigned value
/// wraps around past `i64::MAX`.
pub fn int_value_as_i64(v: IntValue) -> (res: i64)
    ensures
        match v {
            IntValue::Signed(s) => res == s,
            IntValue::Unsigned(u) => res == u as i64 && res as u64 == u,
        },
{
    match v {
        IntValue::Signed(s) => s,
        IntValue::Unsigned(u) => {
            let r = u as i64;
            assert(r as u64 == u) by (bit_vector)
                requires
                    r == u as i64,
            ;
            r
        },
    }
}

} // verus!
