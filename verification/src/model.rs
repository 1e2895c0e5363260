//! The mathematical model of the encoding: the path a binary search records,
//! the value a replay of such a path narrows to, and the laws tying the two
//! together.

use vstd::arithmetic::div_mod::{lemma_div_multiples_vanish_fancy, lemma_fundamental_div_mod};
use vstd::arithmetic::power2::{lemma_pow2_pos, lemma_pow2_unfold, pow2};
use vstd::prelude::*;

verus! {

/// The split point a binary search probes for the bounds `[lo, hi)`:
/// the arithmetic midpoint, rounded down.
pub open spec fn mid_of(lo: int, hi: int) -> int {
    (lo + hi) / 2
}

/// The decision trail a binary search for `target` in `[lo, hi)` records:
/// nothing once the probed midpoint hits the target (which also covers a
/// range of one element, whose midpoint is that element), otherwise one bit
/// for the chosen half followed by the trail within that half.
pub open spec fn bbse_path(lo: int, hi: int, target: int) -> Seq<bool>
    recommends
        lo <= target < hi,
    decreases hi - lo,
    when lo <= target && target < hi
{
    let mid = mid_of(lo, hi);
    if target == mid {
        Seq::empty()
    } else if target < mid {
        seq![false] + bbse_path(lo, mid, target)
    } else {
        seq![true] + bbse_path(mid, hi, target)
    }
}

/// The value a replay of `path` against the bounds `[lo, hi)` narrows to:
/// each bit keeps one half of the current bounds, and the midpoint of the
/// final bounds is the decoded value.
pub open spec fn replayed_value(lo: int, hi: int, path: Seq<bool>) -> int
    decreases path.len(),
{
    if path.len() == 0 {
        mid_of(lo, hi)
    } else if path[0] {
        replayed_value(mid_of(lo, hi), hi, path.skip(1))
    } else {
        replayed_value(lo, mid_of(lo, hi), path.skip(1))
    }
}

/// Whether every bit of `path` falls on bounds that can still be split.
/// A search never records a decision once its bounds hold fewer than two
/// values, so a path that keeps going past that point cannot have come from
/// an encoding against these bounds.
pub open spec fn path_consumable(lo: int, hi: int, path: Seq<bool>) -> bool
    decreases path.len(),
{
    if path.len() == 0 {
        true
    } else if hi - lo < 2 {
        false
    } else if path[0] {
        path_consumable(mid_of(lo, hi), hi, path.skip(1))
    } else {
        path_consumable(lo, mid_of(lo, hi), path.skip(1))
    }
}

/// The decision trail when the caller picks the first split point `mid0`
/// and every later split falls back to the arithmetic midpoint.
pub open spec fn bbse_from_path(lo: int, hi: int, target: int, mid0: int) -> Seq<bool>
    recommends
        lo <= target < hi,
        lo < mid0 < hi,
{
    if target == mid0 {
        Seq::empty()
    } else if target < mid0 {
        seq![false] + bbse_path(lo, mid0, target)
    } else {
        seq![true] + bbse_path(mid0, hi, target)
    }
}

/// Whether a replay that splits first at `mid0` can consume every bit of
/// `path`. An empty path consumes nothing; otherwise the first bit keeps
/// one side of `mid0` and the rest must fall on splittable bounds.
pub open spec fn from_path_consumable(lo: int, hi: int, mid0: int, path: Seq<bool>) -> bool {
    if path.len() == 0 {
        true
    } else if path[0] {
        path_consumable(mid0, hi, path.skip(1))
    } else {
        path_consumable(lo, mid0, path.skip(1))
    }
}

/// The value a replay that splits first at `mid0` narrows to. An empty path
/// stands for the split point itself; otherwise the first bit keeps one side
/// of `mid0` and the rest replays on arithmetic midpoints.
pub open spec fn from_replayed_value(lo: int, hi: int, mid0: int, path: Seq<bool>) -> int {
    if path.len() == 0 {
        mid0
    } else if path[0] {
        replayed_value(mid0, hi, path.skip(1))
    } else {
        replayed_value(lo, mid0, path.skip(1))
    }
}

/// How many decisions a binary search over `size` values can take at most:
/// the ceiling of the base-two logarithm of `size`, for `size >= 1`.
pub open spec fn max_path_len(size: int) -> nat
    decreases size,
{
    if size <= 1 {
        0nat
    } else {
        1 + max_path_len((size + 1) / 2)
    }
}

/// How the midpoint of `[lo, hi)` splits the range: the lower half gets
/// `(hi - lo) / 2` values and the upper half the remaining
/// `(hi - lo + 1) / 2`.
pub(crate) proof fn lemma_mid_split(lo: int, hi: int)
    requires
        lo <= hi,
    ensures
        mid_of(lo, hi) - lo == (hi - lo) / 2,
        hi - mid_of(lo, hi) == (hi - lo + 1) / 2,
        lo <= mid_of(lo, hi) <= hi,
        hi - lo >= 1 ==> mid_of(lo, hi) < hi,
        hi - lo >= 2 ==> lo < mid_of(lo, hi),
        hi - lo == 1 ==> mid_of(lo, hi) == lo,
{
    let s = hi - lo;
    lemma_fundamental_div_mod(s, 2);
    lemma_div_multiples_vanish_fancy(lo + s / 2, s % 2, 2);
    assert(lo + hi == 2 * (lo + s / 2) + s % 2);
    if s % 2 == 0 {
        lemma_div_multiples_vanish_fancy(s / 2, 1, 2);
        assert(s + 1 == 2 * (s / 2) + 1);
    } else {
        lemma_div_multiples_vanish_fancy(s / 2 + 1, 0, 2);
        assert(s + 1 == 2 * (s / 2 + 1));
    }
}

/// Law: replaying a recorded search path against the bounds it was recorded
/// for consumes every bit and recovers the encoded value.
pub proof fn lemma_path_round_trip(lo: int, hi: int, target: int)
    requires
        lo <= target < hi,
    ensures
        path_consumable(lo, hi, bbse_path(lo, hi, target)),
        replayed_value(lo, hi, bbse_path(lo, hi, target)) == target,
    decreases hi - lo,
{
    let mid = mid_of(lo, hi);
    lemma_mid_split(lo, hi);
    let p = bbse_path(lo, hi, target);
    if target == mid {
        assert(p.len() == 0);
    } else {
        assert(hi - lo >= 2);
        if target < mid {
            lemma_path_round_trip(lo, mid, target);
            assert(p.skip(1) =~= bbse_path(lo, mid, target));
        } else {
            lemma_path_round_trip(mid, hi, target);
            assert(p.skip(1) =~= bbse_path(mid, hi, target));
        }
    }
}

/// Law: a replay that splits first at `mid0` inverts the encoding that split
/// first at `mid0`, for any split point strictly inside the bounds.
pub proof fn lemma_from_path_round_trip(lo: int, hi: int, target: int, mid0: int)
    requires
        lo <= target < hi,
        lo < mid0 < hi,
    ensures
        from_path_consumable(lo, hi, mid0, bbse_from_path(lo, hi, target, mid0)),
        from_replayed_value(lo, hi, mid0, bbse_from_path(lo, hi, target, mid0)) == target,
{
    let p = bbse_from_path(lo, hi, target, mid0);
    if target == mid0 {
        assert(p.len() == 0);
    } else if target < mid0 {
        lemma_path_round_trip(lo, mid0, target);
        assert(p.skip(1) =~= bbse_path(lo, mid0, target));
    } else {
        lemma_path_round_trip(mid0, hi, target);
        assert(p.skip(1) =~= bbse_path(mid0, hi, target));
    }
}

/// Law: when the caller-supplied first split point equals the arithmetic
/// midpoint, the biased encoding records exactly the default path, so the
/// plain replay decodes it too.
pub proof fn lemma_from_path_default_midpoint(lo: int, hi: int, target: int)
    requires
        lo <= target < hi,
    ensures
        bbse_from_path(lo, hi, target, mid_of(lo, hi)) == bbse_path(lo, hi, target),
{
}

/// Law: a recorded path is empty exactly when the first probed midpoint is
/// already the target; a range of one value is the special case whose
/// midpoint is its only value.
pub proof fn lemma_empty_path_iff_midpoint_hit(lo: int, hi: int, target: int)
    requires
        lo <= target < hi,
    ensures
        bbse_path(lo, hi, target).len() == 0 <==> target == mid_of(lo, hi),
        hi - lo == 1 ==> bbse_path(lo, hi, target).len() == 0,
{
    lemma_mid_split(lo, hi);
}

/// `max_path_len` grows with the size of the range.
pub(crate) proof fn lemma_max_path_len_mono(a: int, b: int)
    requires
        a <= b,
    ensures
        max_path_len(a) <= max_path_len(b),
    decreases b,
{
    if a >= 2 {
        lemma_fundamental_div_mod(a + 1, 2);
        lemma_fundamental_div_mod(b + 1, 2);
        lemma_max_path_len_mono((a + 1) / 2, (b + 1) / 2);
    }
}

/// Law: a recorded path never exceeds the ceiling of the base-two logarithm
/// of the range's size.
pub proof fn lemma_path_len_bound(lo: int, hi: int, target: int)
    requires
        lo <= target < hi,
    ensures
        bbse_path(lo, hi, target).len() <= max_path_len(hi - lo),
    decreases hi - lo,
{
    let mid = mid_of(lo, hi);
    lemma_mid_split(lo, hi);
    if target != mid {
        assert(hi - lo >= 2);
        if target < mid {
            lemma_path_len_bound(lo, mid, target);
            lemma_max_path_len_mono(mid - lo, (hi - lo + 1) / 2);
        } else {
            lemma_path_len_bound(mid, hi, target);
            lemma_max_path_len_mono(hi - mid, (hi - lo + 1) / 2);
        }
    }
}

/// `max_path_len` is exact on powers of two.
proof fn lemma_max_path_len_pow2(k: nat)
    ensures
        max_path_len(pow2(k) as int) == k,
    decreases k,
{
    if k == 0 {
        assert(pow2(0) == 1) by {
            vstd::arithmetic::power2::lemma2_to64();
        }
    } else {
        lemma_pow2_unfold(k);
        lemma_pow2_pos((k - 1) as nat);
        lemma_max_path_len_pow2((k - 1) as nat);
        lemma_div_multiples_vanish_fancy(pow2((k - 1) as nat) as int, 1, 2);
        assert(pow2(k) as int + 1 == 2 * (pow2((k - 1) as nat) as int) + 1);
    }
}

/// No range a machine word can span takes more than 64 decisions.
pub(crate) proof fn lemma_max_path_len_usize(size: int)
    requires
        0 <= size <= usize::MAX,
    ensures
        max_path_len(size) <= 64,
{
    vstd::arithmetic::power2::lemma2_to64();
    vstd::arithmetic::power2::lemma2_to64_rest();
    lemma_max_path_len_mono(size, pow2(64) as int);
    lemma_max_path_len_pow2(64);
}

/// Law: over a range of exactly `2^k` values, no path exceeds `k` bits.
pub proof fn lemma_pow2_path_len(lo: int, hi: int, target: int, k: nat)
    requires
        lo <= target < hi,
        hi - lo == pow2(k),
    ensures
        bbse_path(lo, hi, target).len() <= k,
{
    lemma_path_len_bound(lo, hi, target);
    lemma_max_path_len_pow2(k);
}

/// Law: over a range of exactly `2^k` values, the lowest value takes exactly
/// `k` bits; the bound of `lemma_pow2_path_len` is attained.
pub proof fn lemma_pow2_path_len_exact(lo: int, hi: int, k: nat)
    requires
        hi - lo == pow2(k),
    ensures
        bbse_path(lo, hi, lo).len() == k,
    decreases k,
{
    lemma_pow2_pos(k);
    lemma_mid_split(lo, hi);
    if k == 0 {
        assert(pow2(0) == 1) by {
            vstd::arithmetic::power2::lemma2_to64();
        }
    } else {
        lemma_pow2_unfold(k);
        lemma_pow2_pos((k - 1) as nat);
        lemma_div_multiples_vanish_fancy(lo + pow2((k - 1) as nat) as int, 0, 2);
        assert(lo + hi == 2 * (lo + pow2((k - 1) as nat) as int));
        assert(mid_of(lo, hi) == lo + pow2((k - 1) as nat));
        lemma_pow2_path_len_exact(lo, lo + pow2((k - 1) as nat), (k - 1) as nat);
    }
}

} // verus!
