//! Bounding the number of completion results.
use vstd::prelude::*;

verus! {

/// The number of results kept out of `len` under `limit`: all of them when
/// there is no limit.
pub open spec fn kept_count(len: nat, limit: Option<usize>) -> nat {
    match limit {
        Some(n) => if (n as nat) < len { n as nat } else { len },
        None => len,
    }
}

/// Keeps the first `limit` matches, in the order given, or all of them when
/// there is no limit.
pub fn take_limit<T>(matches: Vec<T>, limit: Option<usize>) -> (r: Vec<T>)
    ensures
        r@ == matches@.take(kept_count(matches@.len(), limit) as int),
        r@.len() <= matches@.len(),
        limit matches Some(n) ==> r@.len() <= n,
{
    let mut kept: Vec<T> = matches;
    match limit {
        Some(n) => {
            kept.truncate(n);
        },
        None => {},
    }
    proof {
        assert(matches@.take(matches@.len() as int) =~= matches@);
    }
    kept
}

} // verus!
