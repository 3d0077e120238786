use vstd::prelude::*;
use vstd::utf8::*;

verus! {

broadcast use vstd::seq::group_seq_axioms;

/// Number of bytes in `bytes` that begin a character (are not continuation bytes).
pub open spec fn char_starts(bytes: Seq<u8>) -> nat
    decreases bytes.len(),
{
    if bytes.len() == 0 {
        0
    } else {
        char_starts(bytes.drop_last()) + if is_continuation_byte(bytes.last()) {
            0nat
        } else {
            1nat
        }
    }
}

/// Counting character starts distributes over concatenation.
pub proof fn lemma_char_starts_concat(a: Seq<u8>, b: Seq<u8>)
    ensures
        char_starts(a + b) == char_starts(a) + char_starts(b),
    decreases b.len(),
{
    if b.len() == 0 {
        assert(a + b =~= a);
    } else {
        assert((a + b).drop_last() =~= a + b.drop_last());
        assert((a + b).last() == b.last());
        lemma_char_starts_concat(a, b.drop_last());
    }
}

/// A byte sequence whose first byte begins a character has at least one character start.
proof fn lemma_char_starts_first(b: Seq<u8>)
    requires
        b.len() > 0,
        !is_continuation_byte(b[0]),
    ensures
        char_starts(b) >= 1,
{
    lemma_char_starts_concat(seq![b[0]], b.drop_first());
    assert(seq![b[0]] + b.drop_first() =~= b);
    assert(seq![b[0]].drop_last() =~= Seq::<u8>::empty());
}

/// A sequence of continuation bytes has no character start.
proof fn lemma_char_starts_all_continuation(b: Seq<u8>)
    requires
        forall|i: int| 0 <= i < b.len() ==> is_continuation_byte(#[trigger] b[i]),
    ensures
        char_starts(b) == 0,
    decreases b.len(),
{
    if b.len() > 0 {
        lemma_char_starts_all_continuation(b.drop_last());
    }
}

/// The encoding of a character sequence has one character start per character.
pub proof fn lemma_char_starts_encode(cs: Seq<char>)
    ensures
        char_starts(encode_utf8(cs)) == cs.len(),
    decreases cs.len(),
{
    if cs.len() > 0 {
        let e = encode_utf8(cs);
        let first = encode_scalar(cs[0] as u32);
        let rest = encode_utf8(cs.drop_first());
        encode_utf8_first_scalar(cs);
        assert(e == first + rest);
        let n = first.len();
        assert(1 <= n <= 4);
        assert(forall|i: int| 0 <= i < n ==> first[i] == e[i]);
        assert(!is_continuation_byte(first[0]));
        lemma_char_starts_concat(seq![first[0]], first.drop_first());
        assert(seq![first[0]] + first.drop_first() =~= first);
        assert(seq![first[0]].drop_last() =~= Seq::<u8>::empty());
        assert(valid_leading_and_continuation_bytes_first_codepoint(e));
        assert(length_of_first_scalar(e) == n);
        assert forall|i: int| 0 <= i < first.drop_first().len() implies is_continuation_byte(
            #[trigger] first.drop_first()[i],
        ) by {
            assert(first.drop_first()[i] == e[i + 1]);
        }
        lemma_char_starts_all_continuation(first.drop_first());
        assert(char_starts(Seq::<u8>::empty()) == 0);
        assert(char_starts(seq![first[0]]) == 1);
        assert(char_starts(first) == 1);
        lemma_char_starts_concat(first, rest);
        lemma_char_starts_encode(cs.drop_first());
    } else {
        assert(encode_utf8(cs) =~= Seq::<u8>::empty());
    }
}

/// Encoding distributes over splitting a character sequence.
pub proof fn lemma_encode_split(cs: Seq<char>, k: int)
    requires
        0 <= k <= cs.len(),
    ensures
        encode_utf8(cs) == encode_utf8(cs.take(k)) + encode_utf8(cs.skip(k)),
    decreases k,
{
    if k == 0 {
        assert(cs.take(0) =~= Seq::<char>::empty());
        assert(cs.skip(0) =~= cs);
        assert(encode_utf8(Seq::<char>::empty()) =~= Seq::<u8>::empty());
        assert(encode_utf8(cs) =~= Seq::<u8>::empty() + encode_utf8(cs));
    } else {
        let rest = cs.drop_first();
        lemma_encode_split(rest, k - 1);
        assert(rest.take(k - 1) =~= cs.take(k).drop_first());
        assert(rest.skip(k - 1) =~= cs.skip(k));
        assert(cs.take(k)[0] == cs[0]);
        assert(encode_utf8(cs.take(k)) == encode_scalar(cs[0] as u32) + encode_utf8(rest.take(k - 1)));
        assert(encode_utf8(cs) =~= encode_utf8(cs.take(k)) + encode_utf8(cs.skip(k)));
    }
}

/// Counts the bytes of `bytes` that begin a character; for UTF-8 text that is its
/// number of characters.
pub fn count_char_starts(bytes: &[u8]) -> (res: usize)
    ensures
        res == char_starts(bytes@),
{
    let mut count: usize = 0;
    let mut i: usize = 0;
    while i < bytes.len()
        invariant
            i <= bytes@.len(),
            count == char_starts(bytes@.take(i as int)),
            count <= i,
        decreases bytes@.len() - i,
    {
        assert(bytes@.take(i as int + 1).drop_last() =~= bytes@.take(i as int));
        let b = bytes[i];
        if !(0x80 <= b && b <= 0xbf) {
            count = count + 1;
        }
        i = i + 1;
    }
    assert(bytes@.take(i as int) =~= bytes@);
    count
}

/// The index of the byte that begins character number `n` (counting from zero),
/// or the length of `bytes` when it has no more than `n` characters.
pub fn char_start_index(bytes: &[u8], n: usize) -> (res: usize)
    ensures
        res <= bytes@.len(),
        char_starts(bytes@) > n ==> res < bytes@.len() && !is_continuation_byte(bytes@[res as int])
            && char_starts(bytes@.take(res as int)) == n,
        char_starts(bytes@) <= n ==> res == bytes@.len(),
{
    let mut count: usize = 0;
    let mut i: usize = 0;
    while i < bytes.len()
        invariant
            i <= bytes@.len(),
            count == char_starts(bytes@.take(i as int)),
            count <= n,
        decreases bytes@.len() - i,
    {
        assert(bytes@.take(i as int + 1).drop_last() =~= bytes@.take(i as int));
        let b = bytes[i];
        if !(0x80 <= b && b <= 0xbf) {
            if count == n {
                proof {
                    lemma_char_starts_concat(bytes@.take(i as int), bytes@.skip(i as int));
                    assert(bytes@.take(i as int) + bytes@.skip(i as int) =~= bytes@);
                    lemma_char_starts_first(bytes@.skip(i as int));
                }
                return i;
            }
            count = count + 1;
        }
        i = i + 1;
    }
    assert(bytes@.take(i as int) =~= bytes@);
    i
}

/// In the encoding of `cs`, character number `n` begins right after the
/// encoding of the first `n` characters.
pub proof fn lemma_char_start_unique(cs: Seq<char>, n: int, p: int)
    requires
        0 <= n < cs.len(),
        0 <= p < encode_utf8(cs).len(),
        !is_continuation_byte(encode_utf8(cs)[p]),
        char_starts(encode_utf8(cs).take(p)) == n,
    ensures
        encode_utf8(cs).take(p) == encode_utf8(cs.take(n)),
{
    let e = encode_utf8(cs);
    let head = encode_utf8(cs.take(n));
    let tail = encode_utf8(cs.skip(n));
    let q = head.len() as int;
    lemma_encode_split(cs, n);
    lemma_char_starts_encode(cs.take(n));
    lemma_char_starts_encode(cs.skip(n));
    assert(cs.skip(n).len() > 0);
    encode_utf8_first_scalar(cs.skip(n));
    assert(tail.len() > 0);
    assert(e[q] == tail[0]);
    assert(!is_continuation_byte(e[q]));
    assert(e.take(q) =~= head);
    if p < q {
        // the byte at p begins a character inside the first n
        lemma_char_starts_concat(e.take(p), e.subrange(p, q));
        assert(e.take(p) + e.subrange(p, q) =~= e.take(q));
        lemma_char_starts_first(e.subrange(p, q));
        assert(false);
    } else if p > q {
        lemma_char_starts_concat(e.take(q), e.subrange(q, p));
        assert(e.take(q) + e.subrange(q, p) =~= e.take(p));
        lemma_char_starts_first(e.subrange(q, p));
        assert(false);
    }
}

} // verus!
