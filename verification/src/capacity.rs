//! The growth rule shared by the string buffers and the slice builder:
//! a buffer that is too small is doubled (an empty one becomes two units long)
//! until the requested length fits.
use vstd::prelude::*;

verus! {

/// One growth step: an empty buffer becomes two units long, any other doubles.
pub open spec fn doubled(cap: nat) -> nat {
    if cap == 0 {
        2
    } else {
        cap * 2
    }
}

/// The capacity reached from `cap` by growing step by step until `need` fits.
pub open spec fn grown(cap: nat, need: nat) -> nat
    decreases (if cap < need { need - cap } else { 0int }),
{
    if need <= cap {
        cap
    } else {
        grown(doubled(cap), need)
    }
}

/// True when no step of the growth from `cap` to `need` leaves the range of `usize`.
pub open spec fn growth_fits(cap: nat, need: nat) -> bool
    decreases (if cap < need { need - cap } else { 0int }),
{
    if need <= cap {
        true
    } else {
        doubled(cap) <= usize::MAX && growth_fits(doubled(cap), need)
    }
}

/// Grows `cap` until `need` fits; `None` when a step would overflow `usize`
/// (where the buffers panic with "Capacity overflow").
pub fn grow_capacity(cap: usize, need: usize) -> (r: Option<usize>)
    ensures
        r is Some <==> growth_fits(cap as nat, need as nat),
        r matches Some(c) ==> c == grown(cap as nat, need as nat),
{
    let mut c = cap;
    while need > c
        invariant
            growth_fits(c as nat, need as nat) == growth_fits(cap as nat, need as nat),
            grown(c as nat, need as nat) == grown(cap as nat, need as nat),
        decreases (if c < need { need - c } else { 0 }),
    {
        let base: usize = if c == 0 {
            1
        } else {
            c
        };
        match base.checked_mul(2) {
            Some(next) => {
                c = next;
            },
            None => {
                return None;
            },
        }
    }
    Some(c)
}

/// Law: the grown capacity holds the requested length, never shrinks, stays put
/// when the request already fits, and is at most twice the request otherwise.
pub proof fn lemma_grown_bounds(cap: nat, need: nat)
    ensures
        grown(cap, need) >= need,
        grown(cap, need) >= cap,
        need <= cap ==> grown(cap, need) == cap,
        need > cap ==> grown(cap, need) <= 2 * need,
    decreases (if cap < need { need - cap } else { 0int }),
{
    if need > cap {
        assert(grown(cap, need) == grown(doubled(cap), need));
        lemma_grown_bounds(doubled(cap), need);
        if need > doubled(cap) {
            lemma_grown_bounds_rec(doubled(cap), need);
        } else {
            assert(grown(doubled(cap), need) == doubled(cap));
        }
    }
}

/// Above the initial step, every value of the growth is the double of a value below the request.
proof fn lemma_grown_bounds_rec(cap: nat, need: nat)
    requires
        cap >= 1,
        need > cap,
    ensures
        grown(cap, need) <= 2 * need,
    decreases need - cap,
{
    assert(grown(cap, need) == grown(doubled(cap), need));
    if need > doubled(cap) {
        lemma_grown_bounds_rec(doubled(cap), need);
    } else {
        assert(grown(doubled(cap), need) == doubled(cap));
    }
}

/// Law: a request of at most half the range of `usize` can always be grown to.
pub proof fn lemma_growth_fits_half_range(cap: nat, need: nat)
    requires
        cap <= usize::MAX,
        2 * need <= usize::MAX,
    ensures
        growth_fits(cap, need),
        grown(cap, need) <= usize::MAX,
    decreases (if cap < need { need - cap } else { 0int }),
{
    lemma_grown_bounds(cap, need);
    if need > cap {
        lemma_growth_fits_half_range(doubled(cap), need);
    }
}

/// Law: growing one unit at a time reaches the same capacity as growing at once.
/// From a non-empty capacity, the request `n + 1` is either already covered by the
/// capacity reached for `n`, or that capacity is exactly `n` and doubles.
pub proof fn lemma_grown_step(cap: nat, n: nat)
    requires
        cap >= 1,
    ensures
        grown(cap, n + 1) == if grown(cap, n) >= n + 1 {
            grown(cap, n)
        } else {
            grown(cap, n) * 2
        },
        grown(cap, n) < n + 1 ==> grown(cap, n) == n,
    decreases (if cap < n { n - cap } else { 0int }),
{
    lemma_grown_bounds(cap, n);
    if n > cap {
        assert(grown(cap, n) == grown(doubled(cap), n));
        assert(grown(cap, n + 1) == grown(doubled(cap), n + 1));
        lemma_grown_step(doubled(cap), n);
    } else if n < cap {
        assert(grown(cap, n + 1) == cap);
    } else {
        assert(grown(cap, n + 1) == grown(doubled(cap), n + 1));
        assert(grown(doubled(cap), n + 1) == doubled(cap));
    }
}

/// Law: growing in two steps, first for `small` and then for `big`, reserves the
/// same as growing once for `big`: the capacity a buffer ends with depends only on
/// the total it was asked to hold, not on how the writes were split.
pub proof fn lemma_grown_compose(cap: nat, small: nat, big: nat)
    requires
        small <= big,
    ensures
        grown(grown(cap, small), big) == grown(cap, big),
    decreases (if cap < small { small - cap } else { 0int }),
{
    if small > cap {
        lemma_grown_compose(doubled(cap), small, big);
    }
}

/// Law: when the growth fits, its result fits in `usize`.
pub proof fn lemma_growth_fits_bounded(cap: nat, need: nat)
    requires
        cap <= usize::MAX,
        growth_fits(cap, need),
    ensures
        grown(cap, need) <= usize::MAX,
    decreases (if cap < need { need - cap } else { 0int }),
{
    if need > cap {
        lemma_growth_fits_bounded(doubled(cap), need);
    }
}

/// Law: a larger request never leads to a smaller capacity.
pub proof fn lemma_grown_monotonic(cap: nat, small: nat, big: nat)
    requires
        small <= big,
    ensures
        grown(cap, small) <= grown(cap, big),
    decreases (if cap < big { big - cap } else { 0int }),
{
    lemma_grown_bounds(cap, big);
    if small > cap {
        lemma_grown_monotonic(doubled(cap), small, big);
    }
}

} // verus!
