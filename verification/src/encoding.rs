//! UTF-8 encoding of single characters, and facts about encoding sequences
//! of characters that the string buffers rely on.
use vstd::prelude::*;
use vstd::utf8::*;

verus! {

broadcast use vstd::seq::group_seq_axioms, vstd::utf8::group_utf8_lib;

/// The UTF-8 encoding of one character (what `char::encode_utf8` writes).
pub fn encode_char(c: char) -> (r: Vec<u8>)
    ensures
        r@ == encode_scalar(c as u32),
        r@ == encode_utf8(seq![c]),
{
    proof {
        lemma_encode_single(c);
    }
    let v = c as u32;
    if v <= 0x7F {
        vec![(v & 0x7F) as u8]
    } else if v <= 0x7FF {
        vec![0xC0 | ((v >> 6) & 0x1F) as u8, 0x80 | (v & 0x3F) as u8]
    } else if v <= 0xFFFF {
        vec![
            0xE0 | ((v >> 12) & 0x0F) as u8,
            0x80 | ((v >> 6) & 0x3F) as u8,
            0x80 | (v & 0x3F) as u8,
        ]
    } else {
        vec![
            0xF0 | ((v >> 18) & 0x7) as u8,
            0x80 | ((v >> 12) & 0x3F) as u8,
            0x80 | ((v >> 6) & 0x3F) as u8,
            0x80 | (v & 0x3F) as u8,
        ]
    }
}

/// The encoding of a one-character sequence is the encoding of that character.
pub proof fn lemma_encode_single(c: char)
    ensures
        encode_utf8(seq![c]) == encode_scalar(c as u32),
{
    assert(seq![c].drop_first() =~= Seq::<char>::empty());
    assert(encode_utf8(seq![c]) =~= encode_scalar(c as u32) + encode_utf8(Seq::<char>::empty()));
}

/// Encoding distributes over concatenation.
pub proof fn lemma_encode_concat(a: Seq<char>, b: Seq<char>)
    ensures
        encode_utf8(a + b) == encode_utf8(a) + encode_utf8(b),
    decreases a.len(),
{
    if a.len() == 0 {
        assert(a + b =~= b);
        assert(encode_utf8(a) =~= Seq::<u8>::empty());
        assert(encode_utf8(a + b) =~= encode_utf8(a) + encode_utf8(b));
    } else {
        assert((a + b).drop_first() =~= a.drop_first() + b);
        lemma_encode_concat(a.drop_first(), b);
        assert(encode_utf8(a + b) =~= encode_utf8(a) + encode_utf8(b));
    }
}

/// Appending a character appends its encoding.
pub proof fn lemma_encode_push(a: Seq<char>, c: char)
    ensures
        encode_utf8(a.push(c)) == encode_utf8(a) + encode_scalar(c as u32),
{
    assert(a.push(c) =~= a + seq![c]);
    lemma_encode_concat(a, seq![c]);
    lemma_encode_single(c);
}

/// The encoding of a prefix is a prefix of the encoding.
pub proof fn lemma_encode_prefix_len(chars: Seq<char>, i: int)
    requires
        0 <= i <= chars.len(),
    ensures
        encode_utf8(chars.take(i)).len() <= encode_utf8(chars).len(),
{
    assert(chars =~= chars.take(i) + chars.skip(i));
    lemma_encode_concat(chars.take(i), chars.skip(i));
}

proof fn lemma_concat_contains(a: Seq<u8>, b: Seq<u8>, x: u8)
    ensures
        (a + b).contains(x) <==> a.contains(x) || b.contains(x),
{
    if a.contains(x) {
        let i = choose|i: int| 0 <= i < a.len() && a[i] == x;
        assert((a + b)[i] == x);
    }
    if b.contains(x) {
        let i = choose|i: int| 0 <= i < b.len() && b[i] == x;
        assert((a + b)[a.len() + i] == x);
    }
    if (a + b).contains(x) {
        let i = choose|i: int| 0 <= i < (a + b).len() && (a + b)[i] == x;
        if i < a.len() {
            assert(a[i] == x);
        } else {
            assert(b[i - a.len()] == x);
        }
    }
}

proof fn lemma_width_2_nonzero(v: u32)
    by (bit_vector)
    ensures
        0xC0u8 | ((v >> 6u32) & 0x1Fu32) as u8 != 0u8,
        0x80u8 | (v & 0x3Fu32) as u8 != 0u8,
        0xE0u8 | ((v >> 12u32) & 0x0Fu32) as u8 != 0u8,
        0x80u8 | ((v >> 6u32) & 0x3Fu32) as u8 != 0u8,
        0xF0u8 | ((v >> 18u32) & 0x7u32) as u8 != 0u8,
        0x80u8 | ((v >> 12u32) & 0x3Fu32) as u8 != 0u8,
{
}

proof fn lemma_width_1_zero(v: u32)
    by (bit_vector)
    requires
        v <= 0x7Fu32,
    ensures
        ((v & 0x7Fu32) as u8 == 0u8) <==> (v == 0u32),
{
}

/// The encoding of a character holds a zero byte exactly when the character is NUL.
pub proof fn lemma_scalar_zero(c: char)
    ensures
        encode_scalar(c as u32).contains(0u8) <==> c == '\0',
{
    let v = c as u32;
    lemma_width_2_nonzero(v);
    let e = encode_scalar(v);
    if has_width_1_encoding(v) {
        lemma_width_1_zero(v);
        assert(e[0] == (v & 0x7F) as u8);
        if e.contains(0u8) {
            assert(v == 0);
            assert(('\0' as u32) == 0);
            assert(c == (v as char));
        }
        if c == '\0' {
            assert(('\0' as u32) == 0);
            assert(e[0] == 0u8);
        }
    } else {
        assert(c != '\0') by {
            if c == '\0' {
                assert(('\0' as u32) == 0);
            }
        }
        assert forall|i: int| 0 <= i < e.len() implies e[i] != 0u8 by {}
    }
}

/// A sequence of characters encodes to bytes holding a zero exactly when it holds a NUL.
pub proof fn lemma_encode_zero(chars: Seq<char>)
    ensures
        encode_utf8(chars).contains(0u8) <==> chars.contains('\0'),
    decreases chars.len(),
{
    if chars.len() == 0 {
        assert(encode_utf8(chars) =~= Seq::<u8>::empty());
    } else {
        let rest = chars.drop_first();
        lemma_encode_zero(rest);
        lemma_scalar_zero(chars[0]);
        lemma_concat_contains(encode_scalar(chars[0] as u32), encode_utf8(rest), 0u8);
        if rest.contains('\0') {
            let i = choose|i: int| 0 <= i < rest.len() && rest[i] == '\0';
            assert(chars[i + 1] == '\0');
        }
        if chars.contains('\0') {
            let i = choose|i: int| 0 <= i < chars.len() && chars[i] == '\0';
            if i > 0 {
                assert(rest[i - 1] == '\0');
            }
        }
    }
}

} // verus!
