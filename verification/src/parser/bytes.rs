//! Where the characters of a text stand among its bytes.

use vstd::prelude::*;
use vstd::utf8::*;
use vstd::string::StringSliceAdditionalSpecFns;

verus! {

/// The number of bytes that encode a character.
pub open spec fn char_width(c: char) -> nat {
    encode_scalar(c as u32).len()
}

/// The number of bytes that encode a text.
pub open spec fn byte_len(s: Seq<char>) -> nat {
    encode_utf8(s).len()
}

/// A character takes one to four bytes, by its code point.
pub proof fn lemma_char_width(c: char)
    ensures
        char_width(c) == if c as u32 <= 0x7F {
            1nat
        } else if c as u32 <= 0x7FF {
            2nat
        } else if c as u32 <= 0xFFFF {
            3nat
        } else {
            4nat
        },
{
    char_is_scalar(c);
}

/// The number of bytes that encode a character.
pub fn width(c: char) -> (r: usize)
    ensures
        r == char_width(c),
        1 <= r <= 4,
{
    proof {
        lemma_char_width(c);
    }
    let v = c as u32;
    if v <= 0x7F {
        1
    } else if v <= 0x7FF {
        2
    } else if v <= 0xFFFF {
        3
    } else {
        4
    }
}

/// Two texts one after the other are encoded one after the other.
pub proof fn lemma_encode_concat(a: Seq<char>, b: Seq<char>)
    ensures
        encode_utf8(a + b) == encode_utf8(a) + encode_utf8(b),
    decreases a.len(),
{
    if a.len() == 0 {
        assert(a + b =~= b);
        assert(encode_utf8(a) + encode_utf8(b) =~= encode_utf8(b));
    } else {
        assert((a + b).drop_first() =~= a.drop_first() + b);
        assert((a + b)[0] == a[0]);
        lemma_encode_concat(a.drop_first(), b);
        assert(encode_utf8(a + b) =~= encode_utf8(a) + encode_utf8(b));
    }
}

/// One more character of a text takes as many more bytes as the character is wide.
pub proof fn lemma_byte_len_step(s: Seq<char>, k: int)
    requires
        0 <= k < s.len(),
    ensures
        byte_len(s.take(k + 1)) == byte_len(s.take(k)) + char_width(s[k]),
        byte_len(s.take(k + 1)) <= byte_len(s),
        byte_len(s.take(0)) == 0,
{
    let one = seq![s[k]];
    assert(s.take(k + 1) =~= s.take(k) + one);
    lemma_encode_concat(s.take(k), one);
    assert(one.drop_first() =~= Seq::<char>::empty());
    assert(encode_utf8(one) =~= encode_scalar(s[k] as u32)) by {
        assert(encode_utf8(one.drop_first()) =~= Seq::<u8>::empty());
    }
    assert(s =~= s.take(k + 1) + s.skip(k + 1));
    lemma_encode_concat(s.take(k + 1), s.skip(k + 1));
}

/// The first characters of a text take no more bytes than the text.
pub proof fn lemma_byte_len_prefix(s: Seq<char>, k: int)
    requires
        0 <= k <= s.len(),
    ensures
        byte_len(s.take(k)) <= byte_len(s),
        byte_len(s.take(k)) >= k,
    decreases k,
{
    assert(s =~= s.take(k) + s.skip(k));
    lemma_encode_concat(s.take(k), s.skip(k));
    if k > 0 {
        lemma_byte_len_prefix(s, k - 1);
        lemma_byte_len_step(s, k - 1);
        lemma_char_width(s[k - 1]);
    }
}

/// A text that was cut between its bytes where the first `k` characters end holds those
/// characters in its first part and the others in its second.
pub proof fn lemma_cut(whole: &str, first: &str, second: &str, k: int)
    requires
        0 <= k <= whole@.len(),
        first.spec_bytes() == whole.spec_bytes().subrange(0, byte_len(whole@.take(k)) as int),
        second.spec_bytes() == whole.spec_bytes().subrange(
            byte_len(whole@.take(k)) as int,
            whole.spec_bytes().len() as int,
        ),
    ensures
        first@ == whole@.take(k),
        second@ == whole@.skip(k),
{
    let a = whole@.take(k);
    let b = whole@.skip(k);
    assert(whole@ =~= a + b);
    lemma_encode_concat(a, b);
    let bytes = encode_utf8(whole@);
    assert(bytes.subrange(0, encode_utf8(a).len() as int) =~= encode_utf8(a));
    assert(bytes.subrange(encode_utf8(a).len() as int, bytes.len() as int) =~= encode_utf8(b));
    encode_utf8_decode_utf8(first@);
    encode_utf8_decode_utf8(second@);
    encode_utf8_decode_utf8(a);
    encode_utf8_decode_utf8(b);
}

/// Where the first `k` characters of a text end, a character ends.
pub proof fn lemma_boundary(s: Seq<char>, k: int)
    requires
        0 <= k <= s.len(),
    ensures
        is_char_boundary(encode_utf8(s), byte_len(s.take(k)) as int),
    decreases k,
{
    let bytes = encode_utf8(s);
    encode_utf8_valid_utf8(s);
    if k == 0 {
        assert(s.take(0) =~= Seq::<char>::empty());
    } else {
        let rest = s.drop_first();
        encode_utf8_first_scalar(s);
        assert(pop_first_scalar(bytes) =~= encode_utf8(rest));
        lemma_boundary(rest, k - 1);
        assert(s.take(k) =~= seq![s[0]] + rest.take(k - 1));
        lemma_encode_concat(seq![s[0]], rest.take(k - 1));
        assert(seq![s[0]].drop_first() =~= Seq::<char>::empty());
        assert(encode_utf8(seq![s[0]]) =~= encode_scalar(s[0] as u32)) by {
            assert(encode_utf8(seq![s[0]].drop_first()) =~= Seq::<u8>::empty());
        }
        lemma_byte_len_prefix(s, k);
        lemma_char_width(s[0]);
    }
}

} // verus!
