use vstd::prelude::*;
use vstd::utf8::*;

verus! {

broadcast use vstd::seq::group_seq_axioms;

/// The byte length of the character that starts `rest` when `rest` begins with a
/// well-formed character encoding, and 0 otherwise.
fn first_char_len(bytes: &[u8], i: usize) -> (res: usize)
    requires
        i < bytes@.len(),
    ensures
        res > 0 <==> valid_first_scalar(bytes@.subrange(i as int, bytes@.len() as int)),
        res > 0 ==> res == length_of_first_scalar(bytes@.subrange(i as int, bytes@.len() as int)),
{
    let ghost rest = bytes@.subrange(i as int, bytes@.len() as int);
    let n = bytes.len() - i;
    let b0 = bytes[i];
    if b0 <= 0x7f {
        assert(is_leading_byte_width_1(rest[0]));
        return 1;
    }
    if 0xc0 <= b0 && b0 <= 0xdf {
        if n < 2 {
            return 0;
        }
        let b1 = bytes[i + 1];
        if !(0x80 <= b1 && b1 <= 0xbf) {
            return 0;
        }
        let cp: u32 = (((b0 & 0x1f) as u32) << 6) | ((b1 & 0x3f) as u32);
        assert(cp == codepoint_width_2(rest[0], rest[1]));
        if 0x80 <= cp && !(0xd800 <= cp && cp <= 0xdfff) {
            return 2;
        }
        return 0;
    }
    if 0xe0 <= b0 && b0 <= 0xef {
        if n < 3 {
            return 0;
        }
        let b1 = bytes[i + 1];
        let b2 = bytes[i + 2];
        if !(0x80 <= b1 && b1 <= 0xbf) || !(0x80 <= b2 && b2 <= 0xbf) {
            return 0;
        }
        let cp: u32 = (((b0 & 0x0f) as u32) << 12) | (((b1 & 0x3f) as u32) << 6) | ((b2
            & 0x3f) as u32);
        assert(cp == codepoint_width_3(rest[0], rest[1], rest[2]));
        if 0x800 <= cp && !(0xd800 <= cp && cp <= 0xdfff) {
            return 3;
        }
        return 0;
    }
    if 0xf0 <= b0 && b0 <= 0xf7 {
        if n < 4 {
            return 0;
        }
        let b1 = bytes[i + 1];
        let b2 = bytes[i + 2];
        let b3 = bytes[i + 3];
        if !(0x80 <= b1 && b1 <= 0xbf) || !(0x80 <= b2 && b2 <= 0xbf) || !(0x80 <= b3 && b3
            <= 0xbf) {
            return 0;
        }
        let cp: u32 = (((b0 & 0x07) as u32) << 18) | (((b1 & 0x3f) as u32) << 12) | (((b2
            & 0x3f) as u32) << 6) | ((b3 & 0x3f) as u32);
        assert(cp == codepoint_width_4(rest[0], rest[1], rest[2], rest[3]));
        if 0x10000 <= cp && cp <= 0x10ffff && !(0xd800 <= cp && cp <= 0xdfff) {
            return 4;
        }
        return 0;
    }
    0
}

/// Whether `bytes` are valid UTF-8.
pub fn is_valid_utf8(bytes: &[u8]) -> (res: bool)
    ensures
        res == valid_utf8(bytes@),
{
    let mut i: usize = 0;
    assert(bytes@.subrange(0, 0) =~= Seq::<u8>::empty());
    while i < bytes.len()
        invariant
            i <= bytes@.len(),
            partial_valid_utf8(bytes@, i as int),
        decreases bytes@.len() - i,
    {
        let k = first_char_len(bytes, i);
        if k == 0 {
            proof {
                let rest = bytes@.subrange(i as int, bytes@.len() as int);
                assert(!valid_utf8(rest));
                partial_valid_partial_invalid_utf8(bytes@, i as int);
            }
            return false;
        }
        proof {
            partial_valid_utf8_extend(bytes@, i as int);
        }
        i = i + k;
    }
    assert(bytes@.subrange(0, bytes@.len() as int) =~= bytes@);
    true
}

} // verus!
