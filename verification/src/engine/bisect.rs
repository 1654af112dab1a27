//! Bisection for the longest prefix that fits.
use vstd::prelude::*;

verus! {

/// The length that bisection between two lengths settles on: it probes the
/// middle, keeps the longest length that it found to fit, and goes on above a
/// length that fits and below one that does not.
pub open spec fn bisect(fits: spec_fn(int) -> bool, low: int, high: int, best: int) -> int
    decreases high - low + 1,
{
    if low < 0 || low > high {
        best
    } else {
        let middle = low + (high - low) / 2;
        if fits(middle) {
            bisect(fits, middle + 1, high, middle)
        } else if middle == 0 {
            best
        } else {
            bisect(fits, low, middle - 1, best)
        }
    }
}

/// Bisection ends on a length that fits and whose successor does not, unless
/// not even the shortest length fits or the longest does.
pub proof fn bisect_settles(fits: spec_fn(int) -> bool, low: int, high: int, best: int, limit: int)
    requires
        0 <= low <= high + 1,
        high <= limit,
        0 <= limit,
        low == 0 || (best == low - 1 && fits(best)),
        low == 0 ==> best == 0,
        high == limit || !fits(high + 1),
    ensures
        0 <= bisect(fits, low, high, best) <= limit,
        fits(bisect(fits, low, high, best)) || (bisect(fits, low, high, best) == 0 && !fits(0)),
        fits(bisect(fits, low, high, best)) && bisect(fits, low, high, best) < limit ==> !fits(
            bisect(fits, low, high, best) + 1,
        ),
    decreases high - low + 1,
{
    if low <= high {
        let middle = low + (high - low) / 2;
        if fits(middle) {
            bisect_settles(fits, middle + 1, high, middle, limit);
        } else if middle == 0 {
        } else {
            bisect_settles(fits, low, middle - 1, best, limit);
        }
    }
}

/// Where a length fits whenever a longer one does, bisection finds the longest
/// length that fits.
pub proof fn bisect_finds_longest(fits: spec_fn(int) -> bool, limit: int)
    requires
        0 <= limit,
        fits(0),
        forall|a: int, b: int| 0 <= a <= b <= limit && #[trigger] fits(b) ==> #[trigger] fits(a),
    ensures
        0 <= bisect(fits, 0, limit, 0) <= limit,
        fits(bisect(fits, 0, limit, 0)),
        forall|n: int| 0 <= n <= limit && #[trigger] fits(n) ==> n <= bisect(fits, 0, limit, 0),
{
    bisect_settles(fits, 0, limit, 0, limit);
}

/// The largest length up to a limit that fits, or none where none does.
pub open spec fn longest(fits: spec_fn(int) -> bool, limit: int) -> int
    decreases limit,
{
    if limit <= 0 || fits(limit) {
        limit
    } else {
        longest(fits, limit - 1)
    }
}

/// Where a length fits whenever a longer one does, bisection agrees with a
/// search from the longest length downwards.
pub proof fn bisect_agrees_with_descent(fits: spec_fn(int) -> bool, limit: int)
    requires
        0 <= limit,
        fits(0),
        forall|a: int, b: int| 0 <= a <= b <= limit && #[trigger] fits(b) ==> #[trigger] fits(a),
    ensures
        bisect(fits, 0, limit, 0) == longest(fits, limit),
        fits(longest(fits, limit)),
        0 <= longest(fits, limit) <= limit,
{
    bisect_finds_longest(fits, limit);
    longest_is_largest(fits, limit, bisect(fits, 0, limit, 0));
}

proof fn longest_is_largest(fits: spec_fn(int) -> bool, limit: int, found: int)
    requires
        0 <= found <= limit,
        fits(found),
        forall|n: int| found < n <= limit ==> !#[trigger] fits(n),
    ensures
        longest(fits, limit) == found,
    decreases limit,
{
    if found < limit {
        longest_is_largest(fits, limit - 1, found);
    }
}

/// Tells whether the prefix of some length fits.
pub trait PrefixTest {
    /// Whether the prefix of this length fits.
    spec fn fits(&self, length: int) -> bool;

    /// How long the whole text is.
    spec fn limit(&self) -> int;

    /// Whether the prefix of this length fits.
    fn probe(&self, length: usize) -> (result: bool)
        requires
            0 <= length <= self.limit(),
        ensures
            result == self.fits(length as int),
    ;
}

/// Which prefix lengths a test lets pass.
pub open spec fn passing<T: PrefixTest>(test: &T) -> spec_fn(int) -> bool {
    |length: int| test.fits(length)
}

/// The length that bisection over all prefixes settles on.
pub fn bisect_prefix<T: PrefixTest>(test: &T, limit: usize) -> (result: usize)
    requires
        limit == test.limit(),
    ensures
        result == bisect(passing(test), 0, limit as int, 0),
        result <= limit,
{
    let mut low: usize = 0;
    let mut high: usize = limit;
    let mut best: usize = 0;
    proof {
        bisect_settles(passing(test), 0, limit as int, 0, limit as int);
    }
    while low <= high
        invariant
            high <= limit,
            limit == test.limit(),
            bisect(passing(test), low as int, high as int, best as int) == bisect(
                passing(test),
                0,
                limit as int,
                0,
            ),
        ensures
            best == bisect(passing(test), 0, limit as int, 0),
        decreases high + 1 - low,
    {
        let middle: usize = low + (high - low) / 2;
        if test.probe(middle) {
            best = middle;
            if middle == high {
                assert(bisect(passing(test), middle + 1, high as int, middle as int) == middle);
                break ;
            }
            low = middle + 1;
        } else if middle == 0 {
            break ;
        } else {
            high = middle - 1;
        }
    }
    best
}

/// The longest length that fits is one that fits, or none, and no longer one up
/// to the limit does.
pub proof fn longest_is_longest(fits: spec_fn(int) -> bool, limit: int)
    requires
        0 <= limit,
    ensures
        0 <= longest(fits, limit) <= limit,
        longest(fits, limit) > 0 ==> fits(longest(fits, limit)),
        forall|n: int| longest(fits, limit) < n <= limit ==> !#[trigger] fits(n),
    decreases limit,
{
    if limit > 0 && !fits(limit) {
        longest_is_longest(fits, limit - 1);
    }
}

} // verus!
