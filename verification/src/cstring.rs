//! Collected NUL-terminated strings and the buffer that builds them.
use crate::capacity::{grow_capacity, grown, growth_fits, lemma_grown_bounds, lemma_growth_fits_half_range};
use crate::encoding::{encode_char, lemma_encode_prefix_len, lemma_encode_push, lemma_encode_zero, lemma_scalar_zero};
use crate::token::GcToken;
use vstd::prelude::*;
use vstd::string::StringSliceAdditionalSpecFns;
use vstd::utf8::*;

verus! {

broadcast use vstd::seq::group_seq_axioms, vstd::utf8::group_utf8_lib;

/// `Default::default` of std's `fmt::Error`, a unit struct: the value a failed write returns.
/// Nothing is claimed of it.
pub assume_specification[ <core::fmt::Error as core::default::Default>::default ]() -> core::fmt::Error;

/// True when `bytes` holds no zero byte.
pub open spec fn nul_free(bytes: Seq<u8>) -> bool {
    forall|i: int| 0 <= i < bytes.len() ==> bytes[i] != 0u8
}

/// True when `pos` is the index of the first zero byte of `bytes`.
pub open spec fn first_nul_at(bytes: Seq<u8>, pos: int) -> bool {
    &&& 0 <= pos < bytes.len()
    &&& bytes[pos] == 0u8
    &&& nul_free(bytes.take(pos))
}

/// True when `pos` is the index of the first NUL character of `chars`.
pub open spec fn first_nul_char_at(chars: Seq<char>, pos: int) -> bool {
    &&& 0 <= pos < chars.len()
    &&& chars[pos] == '\0'
    &&& !chars.take(pos).contains('\0')
}

proof fn lemma_nul_free_contains(bytes: Seq<u8>)
    ensures
        nul_free(bytes) <==> !bytes.contains(0u8),
{
    if !nul_free(bytes) {
        let i = choose|i: int| 0 <= i < bytes.len() && bytes[i] == 0u8;
        assert(bytes[i] == 0u8);
    }
}

/// The character of the decimal digit `d`.
pub open spec fn digit_char(d: nat) -> char {
    if d == 0 {
        '0'
    } else if d == 1 {
        '1'
    } else if d == 2 {
        '2'
    } else if d == 3 {
        '3'
    } else if d == 4 {
        '4'
    } else if d == 5 {
        '5'
    } else if d == 6 {
        '6'
    } else if d == 7 {
        '7'
    } else if d == 8 {
        '8'
    } else {
        '9'
    }
}

/// The decimal digits of `n`, most significant first, without leading zeros.
pub open spec fn decimal(n: nat) -> Seq<char>
    decreases n,
{
    if n < 10 {
        seq![digit_char(n)]
    } else {
        decimal(n / 10).push(digit_char(n % 10))
    }
}

fn digit_str(d: usize) -> (s: &'static str)
    requires
        d < 10,
    ensures
        s@ == seq![digit_char(d as nat)],
{
    proof {
        reveal_strlit("0");
        reveal_strlit("1");
        reveal_strlit("2");
        reveal_strlit("3");
        reveal_strlit("4");
        reveal_strlit("5");
        reveal_strlit("6");
        reveal_strlit("7");
        reveal_strlit("8");
        reveal_strlit("9");
    }
    if d == 0 {
        "0"
    } else if d == 1 {
        "1"
    } else if d == 2 {
        "2"
    } else if d == 3 {
        "3"
    } else if d == 4 {
        "4"
    } else if d == 5 {
        "5"
    } else if d == 6 {
        "6"
    } else if d == 7 {
        "7"
    } else if d == 8 {
        "8"
    } else {
        "9"
    }
}

/// `n` written in decimal.
fn decimal_string(n: usize) -> (s: String)
    ensures
        s@ == decimal(n as nat),
    decreases n,
{
    if n < 10 {
        String::from_str(digit_str(n))
    } else {
        let mut s = decimal_string(n / 10);
        s.append(digit_str(n % 10));
        s
    }
}

/// The input held a NUL byte, at the position given.
#[derive(Clone, Copy, PartialEq, Eq, Debug, Structural)]
pub struct NulError(usize);

impl NulError {
    /// The index of the first NUL byte.
    pub closed spec fn position(&self) -> usize {
        self.0
    }

    /// The index of the first NUL byte.
    pub fn nul_position(&self) -> (p: usize)
        ensures
            p == self.position(),
    {
        self.0
    }

    /// The message that describes the error.
    pub fn to_string(&self) -> (m: String)
        ensures
            m@ == "nul byte found in provided data at position: "@ + decimal(self.position() as nat),
    {
        let mut m = String::from_str("nul byte found in provided data at position: ");
        let digits = decimal_string(self.0);
        m.append(digits.as_str());
        m
    }
}

/// A NUL-terminated string in collected memory.
pub struct GcCString {
    bytes: Vec<u8>,
}

impl View for GcCString {
    /// The bytes before the terminator.
    type V = Seq<u8>;

    closed spec fn view(&self) -> Seq<u8> {
        self.bytes@.drop_last()
    }
}

impl GcCString {
    /// Exactly one NUL, at the end.
    #[verifier::type_invariant]
    spec fn inv(&self) -> bool {
        &&& self.bytes@.len() >= 1
        &&& self.bytes@.last() == 0u8
        &&& nul_free(self.bytes@.drop_last())
    }

    fn terminate(mut bytes: Vec<u8>) -> (r: GcCString)
        requires
            nul_free(bytes@),
        ensures
            r@ == bytes@,
    {
        let ghost content = bytes@;
        bytes.push(0u8);
        proof {
            assert(bytes@.drop_last() =~= content);
        }
        GcCString { bytes }
    }

    /// The bytes of the string with its terminator, while the thread holds a token.
    pub fn as_ref<'a>(&'a self, _token: &impl GcToken) -> (b: &'a [u8])
        ensures
            b@ == self@.push(0u8),
            nul_free(self@),
    {
        proof {
            use_type_invariant(self);
            assert(self.bytes@ =~= self@.push(0u8));
        }
        self.bytes.as_slice()
    }
}

/// Copies `s` and a terminator into collected memory. Fails with the position of the
/// first NUL byte when `s` holds a NUL character.
pub fn from_str(_token: &impl GcToken, s: &str) -> (r: Result<GcCString, NulError>)
    ensures
        r is Err <==> s@.contains('\0'),
        r matches Err(e) ==> first_nul_at(s.spec_bytes(), e.position() as int),
        r matches Ok(c) ==> c@ == s.spec_bytes(),
{
    let src = s.as_bytes();
    proof {
        lemma_encode_zero(s@);
        lemma_nul_free_contains(src@);
    }
    let mut i: usize = 0;
    while i < src.len()
        invariant
            i <= src@.len(),
            nul_free(src@.take(i as int)),
            src@ == s.spec_bytes(),
            s@.contains('\0') <==> src@.contains(0u8),
        decreases src@.len() - i,
    {
        if src[i] == 0 {
            assert(src@.contains(0u8)) by {
                assert(src@[i as int] == 0u8);
            }
            return Err(NulError(i));
        }
        assert(src@.take(i + 1) =~= src@.take(i as int).push(src@[i as int]));
        i = i + 1;
    }
    assert(src@.take(src@.len() as int) =~= src@);
    let mut bytes: Vec<u8> = Vec::new();
    let mut j: usize = 0;
    while j < src.len()
        invariant
            j <= src@.len(),
            bytes@ == src@.subrange(0, j as int),
        decreases src@.len() - j,
    {
        bytes.push(src[j]);
        j = j + 1;
    }
    assert(bytes@ =~= src@);
    Ok(GcCString::terminate(bytes))
}

/// Copies a C string, given as its bytes with the terminator, into collected memory.
pub fn from_cstr(_token: &impl GcToken, s: &[u8]) -> (r: GcCString)
    requires
        s@.len() >= 1,
        s@.last() == 0u8,
        nul_free(s@.drop_last()),
    ensures
        r@ == s@.drop_last(),
{
    let mut bytes: Vec<u8> = Vec::new();
    let mut j: usize = 0;
    while j < s.len() - 1
        invariant
            s@.len() >= 1,
            j <= s@.len() - 1,
            bytes@ == s@.subrange(0, j as int),
        decreases s@.len() - 1 - j,
    {
        bytes.push(s[j]);
        j = j + 1;
    }
    assert(bytes@ =~= s@.drop_last());
    GcCString::terminate(bytes)
}

/// Collects `chars` into collected memory, through a buffer that first reserves
/// `size_hint_lower` bytes. At the first NUL character it stops and hands back the
/// characters after it.
pub fn from_iter(token: &impl GcToken, chars: &[char], size_hint_lower: usize) -> (r: Result<GcCString, Vec<char>>)
    requires
        2 * encode_utf8(chars@).len() < usize::MAX,
    ensures
        r is Err <==> chars@.contains('\0'),
        r matches Err(rest) ==> exists|k: int|
            #![trigger chars@[k]]
            first_nul_char_at(chars@, k) && rest@ == chars@.subrange(k + 1, chars@.len() as int),
        r matches Ok(c) ==> c@ == encode_utf8(chars@),
{
    let mut formatter = Formatter::with_capacity(token, size_hint_lower);
    let mut i: usize = 0;
    while i < chars.len()
        invariant
            i <= chars@.len(),
            formatter@ == encode_utf8(chars@.take(i as int)),
            !chars@.take(i as int).contains('\0'),
            2 * encode_utf8(chars@).len() < usize::MAX,
        decreases chars@.len() - i,
    {
        let ghost c = chars@[i as int];
        proof {
            lemma_encode_push(chars@.take(i as int), c);
            assert(chars@.take(i as int).push(c) =~= chars@.take(i + 1));
            lemma_encode_prefix_len(chars@, i + 1);
            lemma_growth_fits_half_range(formatter.reserved(), formatter@.len() + encode_scalar(c as u32).len());
            lemma_grown_bounds(formatter.reserved(), formatter@.len() + encode_scalar(c as u32).len());
        }
        match formatter.write_char(chars[i]) {
            Ok(()) => {},
            Err(_) => {
                let mut rest: Vec<char> = Vec::new();
                let mut j: usize = i + 1;
                while j < chars.len()
                    invariant
                        i + 1 <= j <= chars@.len(),
                        rest@ == chars@.subrange(i + 1, j as int),
                    decreases chars@.len() - j,
                {
                    rest.push(chars[j]);
                    j = j + 1;
                }
                proof {
                    assert(first_nul_char_at(chars@, i as int));
                    assert(chars@.contains('\0')) by {
                        assert(chars@[i as int] == '\0');
                    }
                }
                return Err(rest);
            },
        }
        proof {
            if chars@.take(i + 1).contains('\0') {
                let k = choose|k: int| 0 <= k < i + 1 && #[trigger] chars@.take(i + 1)[k] == '\0';
                if k < i {
                    assert(chars@.take(i as int)[k] == '\0');
                }
            }
        }
        i = i + 1;
    }
    proof {
        assert(chars@.take(chars@.len() as int) =~= chars@);
    }
    Ok(formatter.finish())
}

/// A growable buffer for a C string: the bytes written so far, none of them NUL,
/// the capacity reserved for them, and the size of the block that holds them.
/// `with_capacity` asks for a block of exactly the capacity; every growth asks for
/// the new capacity plus one byte, the room for the terminator.
pub struct Formatter {
    buf: Vec<u8>,
    cap: usize,
    block: usize,
}

impl View for Formatter {
    /// The bytes written so far.
    type V = Seq<u8>;

    closed spec fn view(&self) -> Seq<u8> {
        self.buf@
    }
}

impl Formatter {
    /// No NUL has been written, the bytes fit the capacity, and the block is the
    /// capacity long, or one byte longer.
    #[verifier::type_invariant]
    spec fn inv(&self) -> bool {
        &&& nul_free(self.buf@)
        &&& self.buf@.len() <= self.cap
        &&& (self.block == self.cap || self.block == self.cap + 1)
    }

    /// The capacity reserved so far.
    pub closed spec fn reserved(&self) -> nat {
        self.cap as nat
    }

    /// The size of the block last asked for (`GC_malloc_atomic`); none before any.
    pub closed spec fn allocated(&self) -> nat {
        self.block as nat
    }

    /// An empty buffer that has reserved nothing and holds no block.
    pub fn new(_token: &impl GcToken) -> (f: Formatter)
        ensures
            f@ == Seq::<u8>::empty(),
            f.reserved() == 0,
            f.allocated() == 0,
    {
        Formatter { buf: Vec::new(), cap: 0, block: 0 }
    }

    /// An empty buffer that has reserved `cap` bytes, in a block of `cap` bytes
    /// (none when `cap` is zero).
    pub fn with_capacity(_token: &impl GcToken, cap: usize) -> (f: Formatter)
        ensures
            f@ == Seq::<u8>::empty(),
            f.reserved() == cap,
            f.allocated() == cap,
    {
        Formatter { buf: Vec::new(), cap, block: cap }
    }

    /// The size of the block that holds the bytes: the capacity, or the capacity and
    /// one byte for the terminator. The terminator fits after the bytes exactly when
    /// they are fewer than this.
    pub fn allocation_size(&self) -> (n: usize)
        ensures
            n == self.allocated(),
            n == self.reserved() || n == self.reserved() + 1,
            self@.len() <= self.reserved(),
    {
        proof {
            use_type_invariant(self);
        }
        self.block
    }

    /// The number of bytes written; none of them is NUL, and they fit the reservation.
    pub fn len(&self) -> (n: usize)
        ensures
            n == self@.len(),
            nul_free(self@),
            self@.len() <= self.reserved(),
    {
        proof {
            use_type_invariant(self);
        }
        self.buf.len()
    }

    /// The number of bytes reserved; the bytes written fit in it.
    pub fn capacity(&self) -> (n: usize)
        ensures
            n == self.reserved(),
            self@.len() <= self.reserved(),
    {
        proof {
            use_type_invariant(self);
        }
        self.cap
    }

    /// Appends `bytes`, which hold no NUL, growing the reservation by doubling
    /// until they fit.
    fn append(&mut self, bytes: &[u8])
        requires
            nul_free(bytes@),
            old(self)@.len() + bytes@.len() <= usize::MAX,
            growth_fits(old(self).reserved(), old(self)@.len() + bytes@.len()),
            old(self)@.len() + bytes@.len() <= old(self).reserved()
                || grown(old(self).reserved(), old(self)@.len() + bytes@.len()) < usize::MAX,
        ensures
            final(self)@ == old(self)@ + bytes@,
            final(self).reserved() == grown(old(self).reserved(), old(self)@.len() + bytes@.len()),
            final(self).allocated() == if old(self)@.len() + bytes@.len() > old(self).reserved() {
                final(self).reserved() + 1
            } else {
                old(self).allocated()
            },
    {
        proof {
            use_type_invariant(&*self);
        }
        let need = self.buf.len() + bytes.len();
        proof {
            lemma_grown_bounds(self.cap as nat, need as nat);
        }
        let mut cap = self.cap;
        let mut block = self.block;
        if need > self.cap {
            match grow_capacity(self.cap, need) {
                Some(c) => {
                    cap = c;
                    block = c + 1;
                },
                None => {},
            }
        }
        let mut extra: Vec<u8> = Vec::new();
        let mut i: usize = 0;
        while i < bytes.len()
            invariant
                i <= bytes@.len(),
                extra@ == bytes@.subrange(0, i as int),
            decreases bytes@.len() - i,
        {
            extra.push(bytes[i]);
            i = i + 1;
        }
        assert(extra@ =~= bytes@);
        assert(nul_free(self.buf@ + extra@)) by {
            assert forall|k: int| 0 <= k < (self.buf@ + extra@).len() implies (self.buf@ + extra@)[k] != 0u8 by {
                if k >= self.buf@.len() {
                    assert(extra@[k - self.buf@.len()] != 0u8);
                }
            }
        }
        let mut buf: Vec<u8> = Vec::new();
        std::mem::swap(&mut buf, &mut self.buf);
        buf.append(&mut extra);
        *self = Formatter { buf, cap, block };
    }

    /// Finds whether `bytes` holds a zero byte.
    fn holds_nul(bytes: &[u8]) -> (r: bool)
        ensures
            r == !nul_free(bytes@),
    {
        let mut i: usize = 0;
        while i < bytes.len()
            invariant
                i <= bytes@.len(),
                nul_free(bytes@.take(i as int)),
            decreases bytes@.len() - i,
        {
            if bytes[i] == 0 {
                return true;
            }
            assert(bytes@.take(i + 1) =~= bytes@.take(i as int).push(bytes@[i as int]));
            i = i + 1;
        }
        assert(bytes@.take(bytes@.len() as int) =~= bytes@);
        false
    }

    /// Appends `s`; fails, writing nothing, when `s` holds a NUL character.
    pub fn write_str(&mut self, s: &str) -> (r: core::fmt::Result)
        requires
            !s@.contains('\0') ==> {
                let need = old(self)@.len() + s.spec_bytes().len();
                &&& need <= usize::MAX
                &&& growth_fits(old(self).reserved(), need)
                &&& (need <= old(self).reserved() || grown(old(self).reserved(), need) < usize::MAX)
            },
        ensures
            nul_free(final(self)@),
            final(self)@.len() <= final(self).reserved(),
            r is Err <==> s@.contains('\0'),
            r is Err ==> *final(self) == *old(self),
            r is Ok ==> final(self)@ == old(self)@ + s.spec_bytes(),
            r is Ok ==> final(self).reserved() == grown(old(self).reserved(), old(self)@.len() + s.spec_bytes().len()),
            r is Ok ==> final(self).allocated() == if old(self)@.len() + s.spec_bytes().len() > old(self).reserved() {
                final(self).reserved() + 1
            } else {
                old(self).allocated()
            },
    {
        proof {
            use_type_invariant(&*self);
        }
        let bytes = s.as_bytes();
        proof {
            lemma_encode_zero(s@);
            lemma_nul_free_contains(bytes@);
        }
        if Self::holds_nul(bytes) {
            return Err(core::fmt::Error::default());
        }
        self.append(bytes);
        proof {
            use_type_invariant(&*self);
        }
        Ok(())
    }

    /// Appends the encoding of `c`; fails, writing nothing, when `c` is NUL.
    pub fn write_char(&mut self, c: char) -> (r: core::fmt::Result)
        requires
            c != '\0' ==> {
                let need = old(self)@.len() + encode_scalar(c as u32).len();
                &&& need <= usize::MAX
                &&& growth_fits(old(self).reserved(), need)
                &&& (need <= old(self).reserved() || grown(old(self).reserved(), need) < usize::MAX)
            },
        ensures
            nul_free(final(self)@),
            final(self)@.len() <= final(self).reserved(),
            r is Err <==> c == '\0',
            r is Err ==> *final(self) == *old(self),
            r is Ok ==> final(self)@ == old(self)@ + encode_scalar(c as u32),
            r is Ok ==> final(self).reserved() == grown(old(self).reserved(), old(self)@.len() + encode_scalar(c as u32).len()),
            r is Ok ==> final(self).allocated() == if old(self)@.len() + encode_scalar(c as u32).len() > old(self).reserved() {
                final(self).reserved() + 1
            } else {
                old(self).allocated()
            },
    {
        proof {
            use_type_invariant(&*self);
        }
        let bytes = encode_char(c);
        proof {
            lemma_scalar_zero(c);
            lemma_nul_free_contains(bytes@);
        }
        if Self::holds_nul(bytes.as_slice()) {
            return Err(core::fmt::Error::default());
        }
        self.append(bytes.as_slice());
        proof {
            use_type_invariant(&*self);
        }
        Ok(())
    }

    /// The string written, with its terminator, in collected memory.
    pub fn finish(self) -> (r: GcCString)
        ensures
            r@ == self@,
    {
        proof {
            use_type_invariant(&self);
        }
        if self.buf.len() == 0 {
            return GcCString::terminate(Vec::new());
        }
        GcCString::terminate(self.buf)
    }
}

} // verus!
