//! Slices in collected memory. A slice is laid out behind a one-word header that
//! holds its length; the elements start at `data_offset` in the allocation.
use crate::token::GcToken;
use crate::capacity::{grown, growth_fits, lemma_grown_bounds, lemma_grown_monotonic, lemma_grown_step, lemma_growth_fits_bounded};
use vstd::arithmetic::div_mod::{lemma_fundamental_div_mod, lemma_mod_multiples_basic};
use vstd::arithmetic::power2::is_pow2;
use vstd::layout::{align_of, size_of};
use vstd::prelude::*;

verus! {

/// The allocation request for a slice of `cap` elements of `T` behind its length word.
#[derive(Clone, Copy, PartialEq, Eq, Debug, Structural)]
pub struct SliceLayout {
    /// Bytes to allocate.
    pub size: usize,
    /// Alignment to request.
    pub align: usize,
    /// Offset of the first element from the start of the allocation.
    pub data_offset: usize,
}

pub open spec fn max_nat(a: nat, b: nat) -> nat {
    if a >= b {
        a
    } else {
        b
    }
}

/// True when the layout of `cap` elements of `T` can be computed without overflow.
pub open spec fn layout_fits<T>(cap: nat) -> bool {
    &&& cap + 1 <= usize::MAX
    &&& size_of::<T>() * (cap + 1) <= usize::MAX
    &&& size_of::<T>() * cap + size_of::<usize>() <= usize::MAX
}

/// The layout of `cap` elements of `T`: room for the elements after the length word,
/// and never less than `cap + 1` elements; aligned for both; the elements start after
/// the larger of a word and one element.
pub open spec fn slice_layout<T>(cap: nat) -> SliceLayout {
    SliceLayout {
        size: max_nat(size_of::<T>() * cap + size_of::<usize>(), size_of::<T>() * (cap + 1)) as usize,
        align: max_nat(align_of::<usize>(), align_of::<T>()) as usize,
        data_offset: max_nat(size_of::<usize>(), size_of::<T>()) as usize,
    }
}

/// A slice under construction: the elements placed so far and the capacity of the
/// allocation they sit in.
pub struct VecInner<T> {
    items: Vec<T>,
    cap: usize,
}

impl<T> VecInner<T> {
    pub closed spec fn wf(&self) -> bool {
        &&& self.items@.len() <= self.cap
        &&& layout_fits::<T>(self.cap as nat)
    }

    pub closed spec fn elements(&self) -> Seq<T> {
        self.items@
    }

    pub closed spec fn reserved(&self) -> nat {
        self.cap as nat
    }

    /// The allocation request for `cap` elements (what `GC_memalign` is asked for).
    pub fn allocation_layout(cap: usize) -> (l: SliceLayout)
        requires
            layout_fits::<T>(cap as nat),
        ensures
            l == slice_layout::<T>(cap as nat),
    {
        let elem = core::mem::size_of::<T>();
        let word = core::mem::size_of::<usize>();
        let with_header = elem * cap + word;
        let with_spare = elem * (cap + 1);
        let size = if with_header >= with_spare {
            with_header
        } else {
            with_spare
        };
        let elem_align = core::mem::align_of::<T>();
        let word_align = core::mem::align_of::<usize>();
        let align = if word_align >= elem_align {
            word_align
        } else {
            elem_align
        };
        let data_offset = if word >= elem {
            word
        } else {
            elem
        };
        SliceLayout { size, align, data_offset }
    }

    /// The allocation request for `cap` elements, or `None` where computing it
    /// overflows `usize` (where the slice builders panic).
    pub fn try_allocation_layout(cap: usize) -> (l: Option<SliceLayout>)
        ensures
            l is Some <==> layout_fits::<T>(cap as nat),
            l matches Some(layout) ==> layout == slice_layout::<T>(cap as nat),
    {
        let elem = core::mem::size_of::<T>();
        let word = core::mem::size_of::<usize>();
        let spare = match cap.checked_add(1) {
            None => return None,
            Some(n) => n,
        };
        match elem.checked_mul(spare) {
            None => {
                return None;
            },
            Some(_) => {},
        }
        proof {
            assert(size_of::<T>() * cap <= size_of::<T>() * (cap + 1)) by (nonlinear_arith);
        }
        match (elem * cap).checked_add(word) {
            None => None,
            Some(_) => Some(Self::allocation_layout(cap)),
        }
    }

    /// An empty slice in an allocation for `cap` elements.
    fn new(cap: usize) -> (v: VecInner<T>)
        requires
            layout_fits::<T>(cap as nat),
        ensures
            v.wf(),
            v.elements() == Seq::<T>::empty(),
            v.reserved() == cap,
    {
        VecInner { items: Vec::new(), cap }
    }

    /// The number of elements placed (what the length word holds).
    fn len(&self) -> (n: usize)
        ensures
            n == self.elements().len(),
    {
        self.items.len()
    }
}

/// The difference of two multiples of `c` is a multiple of `c`.
proof fn lemma_sub_multiple(a: int, b: int, c: int)
    requires
        b > 0,
        c > 0,
        a % b == 0,
        b % c == 0,
    ensures
        (a - b) % c == 0,
{
    lemma_fundamental_div_mod(a, b);
    lemma_fundamental_div_mod(b, c);
    let k = a / b;
    let m = b / c;
    assert(a - b == ((k - 1) * m) * c) by (nonlinear_arith)
        requires
            a == b * k,
            b == c * m,
    ;
    lemma_mod_multiples_basic((k - 1) * m, c);
}

/// A power of two divides every power of two at least as large.
proof fn lemma_pow2_divides(a: int, b: int)
    requires
        is_pow2(a),
        is_pow2(b),
        a <= b,
    ensures
        b % a == 0,
    decreases a,
{
    reveal(is_pow2);
    if a == 1 {
    } else {
        assert(b != 1);
        let ha = a / 2;
        let hb = b / 2;
        lemma_pow2_divides(ha, hb);
        let q = hb / ha;
        assert(hb == q * ha) by (nonlinear_arith)
            requires
                hb % ha == 0,
                ha > 0,
                q == hb / ha,
        ;
        assert(b == q * a) by (nonlinear_arith)
            requires
                b == 2 * hb,
                a == 2 * ha,
                hb == q * ha,
        ;
        assert(b % a == 0) by (nonlinear_arith)
            requires
                b == q * a,
                a > 0,
        ;
    }
}

/// Law: the layout has room for the length word before the elements and for
/// `cap` elements after it, and the block's alignment is a multiple of the
/// alignments of both. The first element is aligned for `T` unless `T` is a
/// zero-sized type aligned beyond a word; the length word, which sits just before
/// it, is aligned for `usize` when the size of `T` is at most a word or a multiple
/// of one (for `[u8; 9]` it is not). Alignments are taken to fit in `usize`, as
/// those of every type do.
pub proof fn law_slice_layout<T>(cap: nat)
    requires
        layout_fits::<T>(cap),
        align_of::<T>() <= usize::MAX,
    ensures
        slice_layout::<T>(cap).data_offset >= size_of::<usize>(),
        slice_layout::<T>(cap).data_offset + size_of::<T>() * cap <= slice_layout::<T>(cap).size,
        slice_layout::<T>(cap).size >= size_of::<T>() * (cap + 1),
        (slice_layout::<T>(cap).align as int) % (align_of::<T>() as int) == 0,
        (slice_layout::<T>(cap).align as int) % (align_of::<usize>() as int) == 0,
        (size_of::<T>() > 0 || align_of::<T>() <= size_of::<usize>())
            ==> (slice_layout::<T>(cap).data_offset as int) % (align_of::<T>() as int) == 0,
        (size_of::<T>() <= size_of::<usize>() || size_of::<T>() % size_of::<usize>() == 0)
            ==> (slice_layout::<T>(cap).data_offset - size_of::<usize>()) % (align_of::<usize>() as int) == 0,
{
    broadcast use vstd::layout::align_properties, vstd::layout::align_nonzero;

    let sz = size_of::<T>();
    let word = size_of::<usize>();
    let at = align_of::<T>();
    let aw = align_of::<usize>();
    assert(sz <= sz * (cap + 1)) by (nonlinear_arith);
    assert(sz * (cap + 1) == sz * cap + sz) by (nonlinear_arith);
    vstd::layout::usize_size_pow2();
    assert(word > 0) by {
        reveal(is_pow2);
    }
    assert(word % aw == 0);
    assert(aw <= word) by (nonlinear_arith)
        requires
            word % aw == 0,
            word > 0,
            aw > 0,
    ;
    let l = slice_layout::<T>(cap);
    if aw >= at {
        assert(l.align == aw);
        lemma_pow2_divides(at as int, aw as int);
        lemma_mod_multiples_basic(1, aw as int);
    } else {
        assert(l.align == at);
        lemma_pow2_divides(aw as int, at as int);
        lemma_mod_multiples_basic(1, at as int);
    }
    let off = l.data_offset;
    if sz > 0 || at <= word {
        if word >= sz {
            assert(off == word);
            if sz > 0 {
                assert(at <= sz) by (nonlinear_arith)
                    requires
                        sz % at == 0,
                        sz > 0,
                        at > 0,
                ;
            }
            lemma_pow2_divides(at as int, word as int);
        } else {
            assert(off == sz);
        }
    }
    if sz <= word || sz % word == 0 {
        if word >= sz {
            assert(off == word);
            lemma_mod_multiples_basic(0, aw as int);
        } else {
            assert(off == sz);
            lemma_sub_multiple(sz as int, word as int, aw as int);
        }
    }
}

proof fn lemma_layout_fits_mono<T>(small: nat, big: nat)
    requires
        small <= big,
        layout_fits::<T>(big),
    ensures
        layout_fits::<T>(small),
{
    assert(size_of::<T>() * (small + 1) <= size_of::<T>() * (big + 1)) by (nonlinear_arith)
        requires
            small <= big,
    ;
    assert(size_of::<T>() * small <= size_of::<T>() * big) by (nonlinear_arith)
        requires
            small <= big,
    ;
}

/// A slice of `len` elements, the `i`-th of which is `f(i)`. `f` is called once
/// for each index, in increasing order; the contract does not say so, since a
/// closure's `call_ensures` relates one call's argument to its result and no call
/// to those made before it.
pub fn from_fn<T, F: Fn(usize) -> T>(_token: &impl GcToken, len: usize, f: F) -> (r: Vec<T>)
    requires
        layout_fits::<T>(len as nat),
        forall|i: usize| i < len ==> call_requires(f, (i,)),
    ensures
        r@.len() == len,
        forall|i: int| 0 <= i < len ==> call_ensures(f, (i as usize,), #[trigger] r@[i]),
{
    let mut vec = VecInner::<T>::new(len);
    let mut i: usize = 0;
    while i < len
        invariant
            i <= len,
            vec.cap == len,
            vec.items@.len() == i,
            forall|i: usize| i < len ==> call_requires(f, (i,)),
            forall|j: int| 0 <= j < i ==> call_ensures(f, (j as usize,), #[trigger] vec.items@[j]),
        decreases len - i,
    {
        let x = f(i);
        vec.items.push(x);
        i = i + 1;
    }
    vec.items
}

/// The capacity a slice of `n` elements ends with when collected from an iterator
/// whose size hint gives `lower`.
pub open spec fn collected_capacity(lower: nat, n: nat) -> nat {
    grown(max_nat(lower, 1), n)
}

/// Collects `items` into a slice. The allocation starts with room for
/// `size_hint_lower` elements (at least one) and doubles whenever it is full;
/// returns the elements with the capacity of the allocation that holds them.
pub fn from_iter<T>(_token: &impl GcToken, items: Vec<T>, size_hint_lower: usize) -> (r: (Vec<T>, usize))
    requires
        growth_fits(max_nat(size_hint_lower as nat, 1), items@.len()),
        layout_fits::<T>(collected_capacity(size_hint_lower as nat, items@.len())),
    ensures
        r.0@ == items@,
        r.1 == collected_capacity(size_hint_lower as nat, items@.len()),
        layout_fits::<T>(r.1 as nat),
{
    let ghost n = items@.len();
    let ghost c0 = max_nat(size_hint_lower as nat, 1);
    let first: usize = if size_hint_lower >= 1 {
        size_hint_lower
    } else {
        1
    };
    proof {
        lemma_grown_bounds(c0, n);
        lemma_layout_fits_mono::<T>(c0, grown(c0, n));
        lemma_grown_bounds(c0, 0);
    }
    let mut vec = VecInner::<T>::new(first);
    let mut cap = first;
    let ghost all = items@;
    let mut i: usize = 0;
    for item in it: items
        invariant
            all == it.seq(),
            i == it.index(),
            n == all.len(),
            vec.wf(),
            vec.cap == cap,
            cap == grown(c0, i as nat),
            vec.items@ == all.take(i as int),
            c0 >= 1,
            growth_fits(c0, n),
            layout_fits::<T>(grown(c0, n)),
    {
        proof {
            lemma_grown_step(c0, i as nat);
            lemma_grown_monotonic(c0, (i + 1) as nat, n);
            lemma_growth_fits_bounded(c0, n);
            lemma_layout_fits_mono::<T>(grown(c0, (i + 1) as nat), grown(c0, n));
        }
        if vec.len() == cap {
            cap = cap * 2;
            let mut bigger = VecInner::<T>::new(cap);
            std::mem::swap(&mut bigger.items, &mut vec.items);
            vec = bigger;
        }
        vec.items.push(item);
        i = i + 1;
    }
    proof {
        assert(all.take(n as int) =~= all);
    }
    (vec.items, cap)
}

} // verus!
