//! The encoder and decoder pair: a binary search over `[start, end)` that
//! records its decisions, and a replay of such a record that narrows the
//! same bounds back down to the encoded value.

use crate::bits::Path;
use crate::model::{
    bbse_from_path, bbse_path, from_path_consumable, from_replayed_value, lemma_max_path_len_mono,
    lemma_max_path_len_usize, lemma_mid_split, max_path_len, mid_of, path_consumable,
    replayed_value,
};
use vstd::arithmetic::div_mod::lemma_div_is_ordered;
use vstd::prelude::*;

verus! {

/// What can go wrong: a range with nothing in it, a target or a split point
/// outside the range, or a path whose bits keep going after the bounds can
/// no longer be split.
#[derive(Clone, Copy, Debug, PartialEq, Eq, Structural)]
pub enum BbseError {
    InvalidRange,
    TargetOutOfBounds,
    MidpointOutOfBounds,
    IncompletePath,
}

/// The split point for the bounds `lo` and `hi`, in either order, without
/// overflow.
fn split_point(lo: usize, hi: usize) -> (mid: usize)
    ensures
        mid == mid_of(lo as int, hi as int),
{
    if lo <= hi {
        proof {
            lemma_mid_split(lo as int, hi as int);
        }
        lo + (hi - lo) / 2
    } else {
        proof {
            lemma_mid_split(hi as int, lo as int);
        }
        hi + (lo - hi) / 2
    }
}

/// Runs the recording search for `target` over `[lo, hi)`, appending each
/// decision to `path`.
fn extend_path(path: &mut Path, lo: usize, hi: usize, target: usize)
    requires
        lo <= target < hi,
        old(path)@.len() + max_path_len(hi as int - lo as int) < 0x1FFF_FFFF,
    ensures
        final(path)@ == old(path)@ + bbse_path(lo as int, hi as int, target as int),
    decreases hi - lo,
{
    let ghost orig = path@;
    let mid = split_point(lo, hi);
    proof {
        lemma_mid_split(lo as int, hi as int);
    }
    if target == mid {
        proof {
            assert(path@ =~= orig + bbse_path(lo as int, hi as int, target as int));
        }
    } else if target < mid {
        proof {
            lemma_div_is_ordered(hi as int - lo as int, hi as int - lo as int + 1, 2);
            lemma_max_path_len_mono(mid as int - lo as int, (hi as int - lo as int + 1) / 2);
        }
        path.push(false);
        extend_path(path, lo, mid, target);
        proof {
            assert(path@ =~= orig + bbse_path(lo as int, hi as int, target as int));
        }
    } else {
        proof {
            lemma_max_path_len_mono(hi as int - mid as int, (hi as int - lo as int + 1) / 2);
        }
        path.push(true);
        extend_path(path, mid, hi, target);
        proof {
            assert(path@ =~= orig + bbse_path(lo as int, hi as int, target as int));
        }
    }
}

/// Encodes `target` as the decision trail of a binary search over
/// `[start, end)`. Rejects an empty range and a target outside the range;
/// for every allowed input it returns exactly the recorded search path,
/// which is empty exactly when the first probed midpoint is the target.
pub fn encode(start: usize, end: usize, target: usize) -> (result: Result<Path, BbseError>)
    ensures
        start >= end ==> result == Err::<Path, BbseError>(BbseError::InvalidRange),
        start < end && !(start <= target < end) ==> result == Err::<Path, BbseError>(
            BbseError::TargetOutOfBounds,
        ),
        start <= target < end ==> (result matches Ok(path) && path@ == bbse_path(
            start as int,
            end as int,
            target as int,
        )),
{
    if start >= end {
        return Err(BbseError::InvalidRange);
    }
    if !(start <= target && target < end) {
        return Err(BbseError::TargetOutOfBounds);
    }
    let mut path = Path::new();
    proof {
        lemma_max_path_len_usize(end as int - start as int);
    }
    extend_path(&mut path, start, end, target);
    proof {
        assert(path@ =~= bbse_path(start as int, end as int, target as int));
    }
    Ok(path)
}

/// Encodes `target` over `[start, end)` with a caller-chosen first split
/// point; later splits fall back to the arithmetic midpoint. A range of one
/// value needs no decision, so it yields an empty path before the split
/// point is even looked at; otherwise a split point not strictly inside the
/// range is rejected.
pub fn encode_from(start: usize, end: usize, target: usize, midpoint: usize) -> (result: Result<
    Path,
    BbseError,
>)
    ensures
        start >= end ==> result == Err::<Path, BbseError>(BbseError::InvalidRange),
        start < end && !(start <= target < end) ==> result == Err::<Path, BbseError>(
            BbseError::TargetOutOfBounds,
        ),
        start <= target < end && end - start == 1 ==> (result matches Ok(path) && path@
            == Seq::<bool>::empty()),
        start <= target < end && end - start >= 2 && !(start < midpoint < end) ==> result
            == Err::<Path, BbseError>(BbseError::MidpointOutOfBounds),
        start <= target < end && end - start >= 2 && start < midpoint < end ==> (result
            matches Ok(path) && path@ == bbse_from_path(
            start as int,
            end as int,
            target as int,
            midpoint as int,
        )),
{
    if start >= end {
        return Err(BbseError::InvalidRange);
    }
    if !(start <= target && target < end) {
        return Err(BbseError::TargetOutOfBounds);
    }
    if end - start == 1 {
        return Ok(Path::new());
    }
    if !(start < midpoint && midpoint < end) {
        return Err(BbseError::MidpointOutOfBounds);
    }
    let mut path = Path::new();
    if target == midpoint {
        return Ok(path);
    }
    if target < midpoint {
        proof {
            lemma_max_path_len_usize(midpoint as int - start as int);
        }
        path.push(false);
        extend_path(&mut path, start, midpoint, target);
    } else {
        proof {
            lemma_max_path_len_usize(end as int - midpoint as int);
        }
        path.push(true);
        extend_path(&mut path, midpoint, end, target);
    }
    proof {
        assert(path@ =~= bbse_from_path(start as int, end as int, target as int, midpoint as int));
    }
    Ok(path)
}

/// Replays `path` against `[start, end)` and returns the value the bounds
/// narrow to. Trusts the caller to supply the range used at encode time;
/// a path with a bit left over once the bounds can no longer be split
/// cannot have come from that range and is rejected.
pub fn decode(start: usize, end: usize, path: &Path) -> (result: Result<usize, BbseError>)
    ensures
        path_consumable(start as int, end as int, path@) ==> (result matches Ok(value) && value
            as int == replayed_value(start as int, end as int, path@)),
        !path_consumable(start as int, end as int, path@) ==> result == Err::<usize, BbseError>(
            BbseError::IncompletePath,
        ),
{
    let n = path.len();
    let mut lo = start;
    let mut hi = end;
    let mut i: usize = 0;
    proof {
        assert(path@.skip(0) =~= path@);
    }
    while i < n
        invariant
            i <= n,
            n == path@.len(),
            path_consumable(start as int, end as int, path@) == path_consumable(
                lo as int,
                hi as int,
                path@.skip(i as int),
            ),
            replayed_value(start as int, end as int, path@) == replayed_value(
                lo as int,
                hi as int,
                path@.skip(i as int),
            ),
        decreases n - i,
    {
        if hi <= lo || hi - lo < 2 {
            return Err(BbseError::IncompletePath);
        }
        let mid = split_point(lo, hi);
        let bit = path.bit(i);
        proof {
            assert(path@.skip(i as int)[0] == path@[i as int]);
            assert(path@.skip(i as int).skip(1) =~= path@.skip(i as int + 1));
        }
        if bit {
            lo = mid;
        } else {
            hi = mid;
        }
        i += 1;
    }
    proof {
        assert(path@.skip(n as int) =~= Seq::<bool>::empty());
    }
    let value = split_point(lo, hi);
    Ok(value)
}

/// Replays `path` against `[start, end)` with a caller-chosen first split
/// point, the counterpart of `encode_from`. An empty path stands for the
/// split point itself, the mirror of the encoder's early exits, so it is
/// returned before the split point is checked.
pub fn decode_from(start: usize, end: usize, path: &Path, midpoint: usize) -> (result: Result<
    usize,
    BbseError,
>)
    ensures
        path@.len() == 0 ==> result == Ok::<usize, BbseError>(midpoint),
        path@.len() > 0 && !(start < midpoint < end) ==> result == Err::<usize, BbseError>(
            BbseError::MidpointOutOfBounds,
        ),
        path@.len() > 0 && start < midpoint < end && from_path_consumable(
            start as int,
            end as int,
            midpoint as int,
            path@,
        ) ==> (result matches Ok(value) && value as int == from_replayed_value(
            start as int,
            end as int,
            midpoint as int,
            path@,
        )),
        path@.len() > 0 && start < midpoint < end && !from_path_consumable(
            start as int,
            end as int,
            midpoint as int,
            path@,
        ) ==> result == Err::<usize, BbseError>(BbseError::IncompletePath),
{
    let n = path.len();
    if n == 0 {
        return Ok(midpoint);
    }
    if !(start < midpoint && midpoint < end) {
        return Err(BbseError::MidpointOutOfBounds);
    }
    let first = path.bit(0);
    let mut lo = start;
    let mut hi = end;
    if first {
        lo = midpoint;
    } else {
        hi = midpoint;
    }
    let mut i: usize = 1;
    while i < n
        invariant
            1 <= i <= n,
            n == path@.len(),
            start < midpoint < end,
            from_path_consumable(start as int, end as int, midpoint as int, path@)
                == path_consumable(lo as int, hi as int, path@.skip(i as int)),
            from_replayed_value(start as int, end as int, midpoint as int, path@)
                == replayed_value(lo as int, hi as int, path@.skip(i as int)),
        decreases n - i,
    {
        if hi <= lo || hi - lo < 2 {
            return Err(BbseError::IncompletePath);
        }
        let mid = split_point(lo, hi);
        let bit = path.bit(i);
        proof {
            assert(path@.skip(i as int)[0] == path@[i as int]);
            assert(path@.skip(i as int).skip(1) =~= path@.skip(i as int + 1));
        }
        if bit {
            lo = mid;
        } else {
            hi = mid;
        }
        i += 1;
    }
    proof {
        assert(path@.skip(n as int) =~= Seq::<bool>::empty());
    }
    let value = split_point(lo, hi);
    Ok(value)
}

/// Replays `path` against `[start, end)` with no validity check at all:
/// every bit narrows the current bounds, splittable or not, and the final
/// midpoint is returned. Batch decoding trusts its caller this way.
pub(crate) fn replay_path(start: usize, end: usize, path: &Path) -> (value: usize)
    ensures
        value as int == replayed_value(start as int, end as int, path@),
{
    let n = path.len();
    let mut lo = start;
    let mut hi = end;
    let mut i: usize = 0;
    proof {
        assert(path@.skip(0) =~= path@);
    }
    while i < n
        invariant
            i <= n,
            n == path@.len(),
            replayed_value(start as int, end as int, path@) == replayed_value(
                lo as int,
                hi as int,
                path@.skip(i as int),
            ),
        decreases n - i,
    {
        let mid = split_point(lo, hi);
        let bit = path.bit(i);
        proof {
            assert(path@.skip(i as int)[0] == path@[i as int]);
            assert(path@.skip(i as int).skip(1) =~= path@.skip(i as int + 1));
        }
        if bit {
            lo = mid;
        } else {
            hi = mid;
        }
        i += 1;
    }
    proof {
        assert(path@.skip(n as int) =~= Seq::<bool>::empty());
    }
    split_point(lo, hi)
}

} // verus!
