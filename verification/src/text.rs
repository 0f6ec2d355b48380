//! Text that arrives as bytes.

use vstd::prelude::*;
use vstd::string::StringSliceAdditionalSpecFns;
use vstd::utf8::{decode_utf8, decode_utf8_encode_utf8, encode_utf8, encode_utf8_decode_utf8};
use vstd::utf8::{decode_first_scalar, encode_scalar, encode_utf8_first_scalar};
use vstd::utf8::{encode_utf8_valid_utf8, leading_bits_width_1, pop_first_scalar, valid_utf8};

verus! {

/// The characters with the Unicode property White_Space.
pub open spec fn is_white(c: char) -> bool {
    let n = c as u32;
    ||| 0x9 <= n <= 0xd
    ||| n == 0x20
    ||| n == 0x85
    ||| n == 0xa0
    ||| n == 0x1680
    ||| 0x2000 <= n <= 0x200a
    ||| n == 0x2028
    ||| n == 0x2029
    ||| n == 0x202f
    ||| n == 0x205f
    ||| n == 0x3000
}

/// The text without the white space at its two ends.
pub open spec fn trimmed(s: Seq<char>) -> Seq<char>
    decreases s.len(),
{
    if s.len() == 0 {
        s
    } else if is_white(s.first()) {
        trimmed(s.drop_first())
    } else if is_white(s.last()) {
        trimmed(s.drop_last())
    } else {
        s
    }
}

/// Trusts `core::str::from_utf8`: it succeeds exactly on valid UTF-8, and the text that
/// it hands back is made of the very bytes that it was given.
#[verifier::external_body]
fn utf8_text(bytes: &[u8]) -> (r: Option<&str>)
    ensures
        r is Some <==> valid_utf8(bytes@),
        r matches Some(s) ==> s.spec_bytes() == bytes@,
{
    match core::str::from_utf8(bytes) {
        Ok(s) => Some(s),
        Err(_) => None,
    }
}

/// Trusts `str::trim`: it takes away all the white space at both ends of the text, and
/// nothing else.
#[verifier::external_body]
fn trim_text(s: &str) -> (r: &str)
    ensures
        r@ == trimmed(s@),
{
    s.trim()
}

/// Whether the bytes are valid UTF-8.
pub fn is_utf8(bytes: &[u8]) -> (r: bool)
    ensures
        r == valid_utf8(bytes@),
{
    utf8_text(bytes).is_some()
}

/// The trimmed text that the bytes spell, again as bytes; nothing where the bytes are not
/// valid UTF-8.
pub open spec fn trimmed_utf8_spec(bytes: Seq<u8>) -> Option<Seq<u8>> {
    if valid_utf8(bytes) {
        Some(encode_utf8(trimmed(decode_utf8(bytes))))
    } else {
        None
    }
}

/// The trimmed text that the bytes spell.
pub fn trimmed_utf8(bytes: &[u8]) -> (r: Option<Vec<u8>>)
    ensures
        match r {
            Some(text) => trimmed_utf8_spec(bytes@) == Some(text@),
            None => trimmed_utf8_spec(bytes@) is None,
        },
{
    match utf8_text(bytes) {
        Some(s) => {
            let text: &[u8] = trim_text(s).as_bytes();
            proof {
                encode_utf8_decode_utf8(s@);
            }
            Some(vstd::slice::slice_to_vec(text))
        },
        None => None,
    }
}

/// Encoding works character by character.
pub proof fn encode_utf8_concat(a: Seq<char>, b: Seq<char>)
    ensures
        encode_utf8(a + b) == encode_utf8(a) + encode_utf8(b),
    decreases a.len(),
{
    if a.len() == 0 {
        assert(a + b =~= b);
    } else {
        encode_utf8_concat(a.drop_first(), b);
        assert((a + b).drop_first() =~= a.drop_first() + b);
        assert((a + b)[0] == a[0]);
        assert(encode_utf8(a + b) =~= encode_utf8(a) + encode_utf8(b));
    }
}

proof fn trimmed_encodes_shorter(s: Seq<char>)
    ensures
        encode_utf8(trimmed(s)).len() <= encode_utf8(s).len(),
    decreases s.len(),
{
    if s.len() == 0 {
    } else if is_white(s.first()) {
        trimmed_encodes_shorter(s.drop_first());
    } else if is_white(s.last()) {
        trimmed_encodes_shorter(s.drop_last());
        assert(s.drop_last() + seq![s.last()] =~= s);
        encode_utf8_concat(s.drop_last(), seq![s.last()]);
    }
}

/// Trimming never makes a text longer, and leaves valid UTF-8.
pub proof fn trimmed_utf8_bounds(bytes: Seq<u8>)
    requires
        valid_utf8(bytes),
    ensures
        trimmed_utf8_spec(bytes) matches Some(t) && t.len() <= bytes.len() && valid_utf8(t),
{
    trimmed_encodes_shorter(decode_utf8(bytes));
    decode_utf8_encode_utf8(bytes);
    encode_utf8_valid_utf8(trimmed(decode_utf8(bytes)));
}

/// A trimmed text neither begins nor ends with white space.
pub proof fn trimmed_has_no_white_ends(s: Seq<char>)
    ensures
        trimmed(s).len() > 0 ==> !is_white(trimmed(s).first()) && !is_white(trimmed(s).last()),
    decreases s.len(),
{
    if s.len() == 0 {
    } else if is_white(s.first()) {
        trimmed_has_no_white_ends(s.drop_first());
    } else if is_white(s.last()) {
        trimmed_has_no_white_ends(s.drop_last());
    }
}

/// Trimming a trimmed text changes nothing.
pub proof fn trimmed_utf8_idempotent(bytes: Seq<u8>)
    requires
        valid_utf8(bytes),
    ensures
        trimmed_utf8_spec(trimmed_utf8_spec(bytes)->0) == trimmed_utf8_spec(bytes),
{
    let t = trimmed(decode_utf8(bytes));
    trimmed_has_no_white_ends(decode_utf8(bytes));
    encode_utf8_valid_utf8(t);
    encode_utf8_decode_utf8(t);
    assert(trimmed(t) == t);
}

/// The byte 0xff stands nowhere in valid UTF-8.
pub proof fn utf8_has_no_ff(bytes: Seq<u8>)
    requires
        valid_utf8(bytes),
    ensures
        forall|i: int| 0 <= i < bytes.len() ==> bytes[i] != 0xff,
    decreases bytes.len(),
{
    if bytes.len() != 0 {
        let rest = pop_first_scalar(bytes);
        utf8_has_no_ff(rest);
        let n = bytes.len() - rest.len();
        assert forall|i: int| 0 <= i < bytes.len() implies bytes[i] != 0xff by {
            if i >= n {
                assert(bytes[i] == rest[i - n]);
            }
        }
    }
}

proof fn white_encodes_without_zero(c: char)
    requires
        is_white(c),
    ensures
        !encode_utf8(seq![c]).contains(0u8),
{
    let bytes = encode_utf8(seq![c]);
    encode_utf8_first_scalar(seq![c]);
    assert(seq![c].drop_first() =~= Seq::<char>::empty());
    assert(encode_utf8(seq![c].drop_first()) =~= Seq::<u8>::empty());
    assert(bytes =~= encode_scalar(c as u32));
    if bytes[0] == 0 {
        let zero = bytes[0];
        assert(leading_bits_width_1(zero) == 0) by {
            assert(zero & 0x7fu8 == 0) by (bit_vector)
                requires
                    zero == 0,
            ;
        }
        assert(decode_first_scalar(bytes) == 0);
    }
}

proof fn zero_in_concat(a: Seq<u8>, b: Seq<u8>)
    ensures
        (a + b).contains(0u8) <==> a.contains(0u8) || b.contains(0u8),
{
    let s = a + b;
    if s.contains(0u8) {
        let i = choose|i: int| 0 <= i < s.len() && s[i] == 0u8;
        if i < a.len() {
            assert(a[i] == 0u8);
        } else {
            assert(b[i - a.len()] == 0u8);
        }
    }
    if a.contains(0u8) {
        let i = choose|i: int| 0 <= i < a.len() && a[i] == 0u8;
        assert(s[i] == 0u8);
    }
    if b.contains(0u8) {
        let i = choose|i: int| 0 <= i < b.len() && b[i] == 0u8;
        assert(s[a.len() + i] == 0u8);
    }
}

proof fn trimmed_encodes_same_zeros(s: Seq<char>)
    ensures
        encode_utf8(trimmed(s)).contains(0u8) <==> encode_utf8(s).contains(0u8),
    decreases s.len(),
{
    if s.len() == 0 {
    } else if is_white(s.first()) {
        let (a, b) = (seq![s.first()], s.drop_first());
        trimmed_encodes_same_zeros(b);
        assert(a + b =~= s);
        encode_utf8_concat(a, b);
        white_encodes_without_zero(s.first());
        zero_in_concat(encode_utf8(a), encode_utf8(b));
    } else if is_white(s.last()) {
        let (a, b) = (s.drop_last(), seq![s.last()]);
        trimmed_encodes_same_zeros(a);
        assert(a + b =~= s);
        encode_utf8_concat(a, b);
        white_encodes_without_zero(s.last());
        zero_in_concat(encode_utf8(a), encode_utf8(b));
    }
}

/// Trimming takes away no zero byte and brings in none.
pub proof fn trimmed_utf8_same_zeros(bytes: Seq<u8>)
    requires
        valid_utf8(bytes),
    ensures
        trimmed_utf8_spec(bytes) matches Some(t) && (t.contains(0u8) <==> bytes.contains(0u8)),
{
    trimmed_encodes_same_zeros(decode_utf8(bytes));
    decode_utf8_encode_utf8(bytes);
}

/// What a trimmed text is, told by the bytes that came in: they are white space, the text, and
/// white space, and the text neither begins nor ends with white space. Every valid UTF-8 has
/// such a text, and nothing else has one.
pub proof fn datagram_is_text_between_white_space(bytes: Seq<u8>)
    ensures
        trimmed_utf8_spec(bytes) is Some <==> valid_utf8(bytes),
        trimmed_utf8_spec(bytes) matches Some(t) ==> {
            let white = |c: char|
                {
                    let n = c as u32;
                    ||| 0x9 <= n <= 0xd
                    ||| n == 0x20
                    ||| n == 0x85
                    ||| n == 0xa0
                    ||| n == 0x1680
                    ||| 0x2000 <= n <= 0x200a
                    ||| n == 0x2028
                    ||| n == 0x2029
                    ||| n == 0x202f
                    ||| n == 0x205f
                    ||| n == 0x3000
                };
            &&& valid_utf8(t)
            &&& decode_utf8(t).len() > 0 ==> !white(decode_utf8(t).first()) && !white(
                decode_utf8(t).last(),
            )
            &&& exists|pre: Seq<char>, post: Seq<char>|
                {
                    &&& bytes == #[trigger] encode_utf8(pre) + t + #[trigger] encode_utf8(post)
                    &&& forall|i: int| 0 <= i < pre.len() ==> white(#[trigger] pre[i])
                    &&& forall|i: int| 0 <= i < post.len() ==> white(#[trigger] post[i])
                }
        },
{
    if valid_utf8(bytes) {
        let s = decode_utf8(bytes);
        let t = trimmed(s);
        let (pre, post) = white_ends(s);
        trimmed_has_no_white_ends(s);
        encode_utf8_valid_utf8(t);
        encode_utf8_decode_utf8(t);
        decode_utf8_encode_utf8(bytes);
        encode_utf8_concat(pre, t);
        encode_utf8_concat(pre + t, post);
    }
}

proof fn white_ends(s: Seq<char>) -> (ends: (Seq<char>, Seq<char>))
    ensures
        s == ends.0 + trimmed(s) + ends.1,
        forall|i: int| 0 <= i < ends.0.len() ==> is_white(#[trigger] ends.0[i]),
        forall|i: int| 0 <= i < ends.1.len() ==> is_white(#[trigger] ends.1[i]),
    decreases s.len(),
{
    let none = Seq::<char>::empty();
    if s.len() == 0 {
        assert(s =~= none + trimmed(s) + none);
        (none, none)
    } else if is_white(s.first()) {
        let (pre, post) = white_ends(s.drop_first());
        let longer = seq![s.first()] + pre;
        let rest = s.drop_first();
        assert(s =~= seq![s.first()] + rest);
        assert(seq![s.first()] + (pre + trimmed(rest) + post) =~= longer + trimmed(rest) + post);
        (longer, post)
    } else if is_white(s.last()) {
        let (pre, post) = white_ends(s.drop_last());
        let longer = post.push(s.last());
        let rest = s.drop_last();
        assert(s =~= rest.push(s.last()));
        assert((pre + trimmed(rest) + post).push(s.last()) =~= pre + trimmed(rest) + longer);
        (pre, longer)
    } else {
        assert(s =~= none + trimmed(s) + none);
        (none, none)
    }
}

} // verus!
