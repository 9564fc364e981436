//! Collected UTF-8 strings and the buffer that builds them.
use crate::capacity::{grow_capacity, grown, growth_fits, lemma_grown_bounds, lemma_growth_fits_half_range};
use crate::encoding::{encode_char, lemma_encode_concat, lemma_encode_prefix_len, lemma_encode_push};
use crate::token::GcToken;
use vstd::prelude::*;
use vstd::string::StringSliceAdditionalSpecFns;
use vstd::utf8::*;

verus! {

broadcast use vstd::seq::group_seq_axioms, vstd::utf8::group_utf8_lib;

/// The `fmt::Error` of std, which a failed write returns.
#[verifier::external_type_specification]
#[verifier::external_body]
pub struct ExFmtError(core::fmt::Error);

/// `core::str::from_utf8`, on bytes that are known to be valid UTF-8.
/// Its documentation states that valid UTF-8 is returned as the `str` made of the
/// same bytes; this contract claims that, and that the call does not fail there.
#[verifier::external_body]
fn str_from_utf8(bytes: &[u8]) -> (s: &str)
    requires
        valid_utf8(bytes@),
    ensures
        s.spec_bytes() == bytes@,
{
    core::str::from_utf8(bytes).unwrap()
}

/// A string in collected memory: its UTF-8 bytes.
pub struct GcString {
    bytes: Vec<u8>,
    text: Ghost<Seq<char>>,
}

impl View for GcString {
    type V = Seq<char>;

    closed spec fn view(&self) -> Seq<char> {
        self.text@
    }
}

impl GcString {
    #[verifier::type_invariant]
    spec fn inv(&self) -> bool {
        self.bytes@ == encode_utf8(self.text@)
    }

    /// The UTF-8 bytes of the string.
    pub open spec fn spec_bytes(&self) -> Seq<u8> {
        encode_utf8(self@)
    }

    fn from_parts(bytes: Vec<u8>, text: Ghost<Seq<char>>) -> (r: GcString)
        requires
            bytes@ == encode_utf8(text@),
        ensures
            r@ == text@,
    {
        GcString { bytes, text }
    }

    /// The string, while the thread holds a token.
    pub fn as_ref<'a>(&'a self, _token: &impl GcToken) -> (s: &'a str)
        ensures
            s@ == self@,
    {
        proof {
            use_type_invariant(self);
        }
        let s = str_from_utf8(self.bytes.as_slice());
        proof {
            vstd::utf8::encode_utf8_decode_utf8(s@);
            vstd::utf8::encode_utf8_decode_utf8(self@);
        }
        s
    }
}

/// Copies `s` into collected memory.
pub fn from_str(_token: &impl GcToken, s: &str) -> (r: GcString)
    ensures
        r@ == s@,
{
    let src = s.as_bytes();
    let mut bytes: Vec<u8> = Vec::new();
    let mut i: usize = 0;
    while i < src.len()
        invariant
            i <= src@.len(),
            bytes@ == src@.subrange(0, i as int),
        decreases src@.len() - i,
    {
        bytes.push(src[i]);
        i = i + 1;
    }
    proof {
        assert(bytes@ =~= src@);
    }
    GcString::from_parts(bytes, Ghost(s@))
}

/// Collects `chars` into collected memory, through a buffer that first reserves
/// `size_hint_lower` bytes (the lower bound of the iterator's size hint).
pub fn from_iter(token: &impl GcToken, chars: &[char], size_hint_lower: usize) -> (r: GcString)
    requires
        2 * encode_utf8(chars@).len() <= usize::MAX,
    ensures
        r@ == chars@,
{
    let mut formatter = Formatter::with_capacity(token, size_hint_lower);
    let mut i: usize = 0;
    while i < chars.len()
        invariant
            i <= chars@.len(),
            formatter@ == chars@.take(i as int),
            formatter.written() == encode_utf8(formatter@),
            formatter.reserved() <= usize::MAX,
            2 * encode_utf8(chars@).len() <= usize::MAX,
        decreases chars@.len() - i,
    {
        proof {
            lemma_encode_push(chars@.take(i as int), chars@[i as int]);
            assert(chars@.take(i as int).push(chars@[i as int]) =~= chars@.take(i + 1));
            lemma_encode_prefix_len(chars@, i + 1);
            lemma_growth_fits_half_range(formatter.reserved(), formatter.written().len() + encode_scalar(chars@[i as int] as u32).len());
        }
        let _ = formatter.write_char(chars[i]);
        i = i + 1;
    }
    proof {
        assert(chars@.take(chars@.len() as int) =~= chars@);
    }
    formatter.finish()
}

/// A growable UTF-8 buffer: the bytes written so far and the capacity reserved for them.
pub struct Formatter {
    buf: Vec<u8>,
    cap: usize,
}

impl View for Formatter {
    /// The text written so far.
    type V = Seq<char>;

    closed spec fn view(&self) -> Seq<char> {
        decode_utf8(self.buf@)
    }
}

impl Formatter {
    /// The buffer holds valid UTF-8, within its capacity.
    #[verifier::type_invariant]
    spec fn inv(&self) -> bool {
        &&& valid_utf8(self.buf@)
        &&& self.buf@.len() <= self.cap
    }

    /// The bytes written so far.
    pub closed spec fn written(&self) -> Seq<u8> {
        self.buf@
    }

    /// The capacity reserved so far.
    pub closed spec fn reserved(&self) -> nat {
        self.cap as nat
    }

    /// An empty buffer that has reserved nothing.
    pub fn new(_token: &impl GcToken) -> (f: Formatter)
        ensures
            f@ == Seq::<char>::empty(),
            f.written() == Seq::<u8>::empty(),
            f.reserved() == 0,
    {
        proof {
            assert(decode_utf8(Seq::<u8>::empty()) =~= Seq::<char>::empty());
        }
        Formatter { buf: Vec::new(), cap: 0 }
    }

    /// An empty buffer that has reserved `cap` bytes.
    pub fn with_capacity(_token: &impl GcToken, cap: usize) -> (f: Formatter)
        ensures
            f@ == Seq::<char>::empty(),
            f.written() == Seq::<u8>::empty(),
            f.reserved() == cap,
    {
        proof {
            assert(decode_utf8(Seq::<u8>::empty()) =~= Seq::<char>::empty());
        }
        Formatter { buf: Vec::new(), cap }
    }

    /// The number of bytes written; they are the UTF-8 encoding of the text
    /// written, and fit the reservation.
    pub fn len(&self) -> (n: usize)
        ensures
            n == self.written().len(),
            self.written() == encode_utf8(self@),
            self.written().len() <= self.reserved(),
    {
        proof {
            use_type_invariant(self);
        }
        self.buf.len()
    }

    /// The number of bytes reserved; the bytes written fit in it.
    pub fn capacity(&self) -> (n: usize)
        ensures
            n == self.reserved(),
            self.written().len() <= self.reserved(),
    {
        proof {
            use_type_invariant(self);
        }
        self.cap
    }

    /// Appends the encoding `bytes` of `chars`, growing the reservation by doubling
    /// until the bytes fit.
    fn append(&mut self, bytes: &[u8], chars: Ghost<Seq<char>>)
        requires
            bytes@ == encode_utf8(chars@),
            old(self).written().len() + bytes@.len() <= usize::MAX,
            growth_fits(old(self).reserved(), old(self).written().len() + bytes@.len()),
        ensures
            final(self)@ == old(self)@ + chars@,
            final(self).written() == old(self).written() + bytes@,
            final(self).written() == encode_utf8(final(self)@),
            final(self).reserved() == grown(
                old(self).reserved(),
                old(self).written().len() + bytes@.len(),
            ),
    {
        proof {
            use_type_invariant(&*self);
        }
        let need = self.buf.len() + bytes.len();
        proof {
            lemma_grown_bounds(self.cap as nat, need as nat);
        }
        if need > self.cap {
            match grow_capacity(self.cap, need) {
                Some(c) => {
                    self.cap = c;
                },
                None => {},
            }
        }
        let mut extra: Vec<u8> = Vec::new();
        let mut i: usize = 0;
        while i < bytes.len()
            invariant
                i <= bytes@.len(),
                extra@ == bytes@.subrange(0, i as int),
            decreases bytes@.len() - i,
        {
            extra.push(bytes[i]);
            i = i + 1;
        }
        assert(extra@ =~= bytes@);
        let ghost text = decode_utf8(self.buf@);
        proof {
            vstd::utf8::decode_utf8_encode_utf8(self.buf@);
            lemma_encode_concat(text, chars@);
            vstd::utf8::encode_utf8_valid_utf8(text + chars@);
            vstd::utf8::encode_utf8_decode_utf8(text + chars@);
        }
        let mut buf: Vec<u8> = Vec::new();
        std::mem::swap(&mut buf, &mut self.buf);
        buf.append(&mut extra);
        self.buf = buf;
    }

    /// Appends `s`. Never fails.
    pub fn write_str(&mut self, s: &str) -> (r: core::fmt::Result)
        requires
            old(self).written().len() + s.spec_bytes().len() <= usize::MAX,
            growth_fits(old(self).reserved(), old(self).written().len() + s.spec_bytes().len()),
        ensures
            r is Ok,
            final(self)@ == old(self)@ + s@,
            final(self).written() == old(self).written() + s.spec_bytes(),
            final(self).written() == encode_utf8(final(self)@),
            final(self).reserved() == grown(
                old(self).reserved(),
                old(self).written().len() + s.spec_bytes().len(),
            ),
    {
        self.append(s.as_bytes(), Ghost(s@));
        Ok(())
    }

    /// Appends the encoding of `c`. Never fails.
    pub fn write_char(&mut self, c: char) -> (r: core::fmt::Result)
        requires
            old(self).written().len() + encode_scalar(c as u32).len() <= usize::MAX,
            growth_fits(old(self).reserved(), old(self).written().len() + encode_scalar(c as u32).len()),
        ensures
            r is Ok,
            final(self)@ == old(self)@.push(c),
            final(self).written() == old(self).written() + encode_scalar(c as u32),
            final(self).written() == encode_utf8(final(self)@),
            final(self).reserved() == grown(
                old(self).reserved(),
                old(self).written().len() + encode_scalar(c as u32).len(),
            ),
    {
        let bytes = encode_char(c);
        let ghost one = seq![c];
        self.append(bytes.as_slice(), Ghost(one));
        proof {
            assert(old(self)@ + seq![c] =~= old(self)@.push(c));
        }
        Ok(())
    }

    /// The string written, in collected memory.
    pub fn finish(self) -> (r: GcString)
        ensures
            r@ == self@,
    {
        proof {
            use_type_invariant(&self);
            vstd::utf8::decode_utf8_encode_utf8(self.buf@);
        }
        let ghost text = decode_utf8(self.buf@);
        if self.buf.len() == 0 {
            proof {
                if text.len() > 0 {
                    assert(text =~= seq![text[0]] + text.drop_first());
                    lemma_encode_concat(seq![text[0]], text.drop_first());
                    crate::encoding::lemma_encode_single(text[0]);
                }
                assert(text =~= Seq::<char>::empty());
            }
            return GcString::from_parts(Vec::new(), Ghost(Seq::empty()));
        }
        GcString::from_parts(self.buf, Ghost(text))
    }
}

} // verus!
