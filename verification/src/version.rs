//! The version resolver: given the declared versions of a structure's
//! shape chain and the version stated for the bytes being decoded, pick
//! the historical shape to decode as. The caller then decodes at that
//! shape and replays each forward conversion up the rest of the chain.
//! This is the only place schema-evolution policy lives; the codec never
//! inspects version numbers.
use vstd::prelude::*;
use crate::types::{version_lt, Error, Version};

verus! {

/// Walk the chain downward from shape `i`: move to the predecessor while
/// it is a distinct shape whose version still covers the stated one.
pub open spec fn resolve_from(chain: Seq<Version>, i: int, stated: Version) -> int
    decreases i,
{
    if i > 0 && !version_lt(chain[i - 1], stated) && chain[i - 1] != chain[i] {
        resolve_from(chain, i - 1, stated)
    } else {
        i
    }
}

/// The index of the shape at which to decode bytes stated to be of
/// version `stated`, in a chain of shape versions ordered oldest first.
pub open spec fn spec_resolve_index(chain: Seq<Version>, stated: Version) -> int {
    resolve_from(chain, chain.len() - 1, stated)
}

/// The walk stays inside the chain.
pub proof fn lemma_resolve_from_bounds(chain: Seq<Version>, i: int, stated: Version)
    requires
        0 <= i < chain.len(),
    ensures
        0 <= resolve_from(chain, i, stated) <= i,
    decreases i,
{
    if i > 0 && !version_lt(chain[i - 1], stated) && chain[i - 1] != chain[i] {
        lemma_resolve_from_bounds(chain, i - 1, stated);
    }
}

/// In a strictly increasing chain whose newest shape covers the stated
/// version, the resolver picks the oldest shape whose version still
/// covers it; every shape before the pick is older than the stated
/// version, so no older shape would do.
pub proof fn lemma_resolver_chooses_oldest_sufficient(chain: Seq<Version>, stated: Version)
    requires
        chain.len() >= 1,
        forall|i: int| 0 <= i < chain.len() - 1 ==> version_lt(#[trigger] chain[i], chain[i + 1]),
        !version_lt(chain.last(), stated),
    ensures
        ({
            let k = spec_resolve_index(chain, stated);
            &&& 0 <= k < chain.len()
            &&& !version_lt(chain[k], stated)
            &&& k > 0 ==> version_lt(chain[k - 1], stated)
        }),
{
    lemma_resolve_from_bounds(chain, chain.len() - 1, stated);
    lemma_resolver_walk(chain, chain.len() - 1, stated);
}

proof fn lemma_resolver_walk(chain: Seq<Version>, i: int, stated: Version)
    requires
        0 <= i < chain.len(),
        forall|j: int| 0 <= j < chain.len() - 1 ==> version_lt(#[trigger] chain[j], chain[j + 1]),
        !version_lt(chain[i], stated),
    ensures
        ({
            let k = resolve_from(chain, i, stated);
            &&& 0 <= k <= i
            &&& !version_lt(chain[k], stated)
            &&& k > 0 ==> version_lt(chain[k - 1], stated)
        }),
    decreases i,
{
    if i > 0 && !version_lt(chain[i - 1], stated) && chain[i - 1] != chain[i] {
        lemma_resolver_walk(chain, i - 1, stated);
    }
}

/// Resolve the shape to decode at. `chain` holds the declared versions of
/// a structure's shapes, oldest first, the current shape last; `stated`
/// is the version declared, out of band, for the bytes being read.
/// Data stated newer than the newest known shape cannot be represented
/// and is refused; otherwise the result is the index of the chosen shape,
/// and the caller replays the conversions from it up to the end of the
/// chain after decoding.
pub fn resolve_version(chain: &Vec<Version>, stated: &Version) -> (r: Result<usize, Error>)
    requires
        chain@.len() >= 1,
    ensures
        version_lt(chain@.last(), *stated) ==> r == Err::<usize, Error>(
            Error::VersionInTheFuture(*stated, chain@.last()),
        ),
        !version_lt(chain@.last(), *stated) ==> (r matches Ok(k) && k == spec_resolve_index(
            chain@,
            *stated,
        ) && k < chain@.len()),
{
    let n = chain.len();
    let newest = chain[n - 1];
    if newest.lt(stated) {
        return Err(Error::VersionInTheFuture(*stated, newest));
    }
    let mut i: usize = n - 1;
    loop
        invariant
            n == chain@.len(),
            1 <= n,
            i < n,
            resolve_from(chain@, i as int, *stated) == spec_resolve_index(chain@, *stated),
        ensures
            i == spec_resolve_index(chain@, *stated),
            i < chain@.len(),
        decreases i,
    {
        if i > 0 {
            let prev = chain[i - 1];
            let cur = chain[i];
            if !prev.lt(stated) && !(prev == cur) {
                i = i - 1;
                continue;
            }
        }
        break;
    }
    proof {
        lemma_resolve_from_bounds(chain@, i as int, *stated);
    }
    Ok(i)
}

} // verus!
