//! Combining the results of all sources.

use vstd::prelude::*;
use super::SourceError;
use crate::cache::MetricsCache;
use crate::external::share;
use std::sync::Arc;

verus! {

/// The collected values of the sources that succeeded, in source order.
pub open spec fn successes<F>(s: Seq<(String, Result<F, SourceError>)>) -> Seq<F>
    decreases s.len(),
{
    if s.len() == 0 {
        Seq::empty()
    } else {
        let rest = successes(s.drop_last());
        match s.last().1 {
            Ok(f) => rest.push(f),
            Err(_) => rest,
        }
    }
}

/// The names and errors of the sources that failed, in source order.
pub open spec fn failures<F>(s: Seq<(String, Result<F, SourceError>)>) -> Seq<(String, SourceError)>
    decreases s.len(),
{
    if s.len() == 0 {
        Seq::empty()
    } else {
        let rest = failures(s.drop_last());
        match s.last().1 {
            Ok(_) => rest,
            Err(e) => rest.push((s.last().0, e)),
        }
    }
}

/// The results of sources are combined in source order: splitting `s + t`
/// gives the successes of `s` then those of `t`, and likewise the failures.
pub proof fn lemma_partition_append<F>(s: Seq<(String, Result<F, SourceError>)>, t: Seq<(String, Result<F, SourceError>)>)
    ensures
        successes(s + t) == successes(s) + successes(t),
        failures(s + t) == failures(s) + failures(t),
    decreases t.len(),
{
    if t.len() == 0 {
        assert(s + t =~= s);
        assert(successes(s) + Seq::<F>::empty() =~= successes(s));
        assert(failures(s) + Seq::<(String, SourceError)>::empty() =~= failures(s));
    } else {
        lemma_partition_append(s, t.drop_last());
        assert((s + t).drop_last() =~= s + t.drop_last());
        assert((s + t).last() == t.last());
        match t.last().1 {
            Ok(f) => {
                assert(successes(s + t) =~= successes(s) + successes(t));
            },
            Err(e) => {
                assert(failures(s + t) =~= failures(s) + failures(t));
            },
        }
    }
}

/// Every source is accounted for exactly once: either its family is among the
/// collected ones or its error among the failures.
pub proof fn lemma_partition_counts<F>(s: Seq<(String, Result<F, SourceError>)>)
    ensures
        successes(s).len() + failures(s).len() == s.len(),
    decreases s.len(),
{
    if s.len() > 0 {
        lemma_partition_counts(s.drop_last());
    }
}

/// Splits the sources' results into the collected families and the errors
/// with the names of the sources that gave them, both in source order.
pub fn partition_results<F>(results: Vec<(String, Result<F, SourceError>)>) -> (r: (Vec<F>, Vec<(String, SourceError)>))
    ensures
        r.0@ == successes(results@),
        r.1@ == failures(results@),
{
    let ghost all = results@;
    let total = results.len();
    let mut rest = results;
    let mut families: Vec<F> = Vec::new();
    let mut errors: Vec<(String, SourceError)> = Vec::new();
    let mut k: usize = 0;
    while rest.len() > 0
        invariant
            k + rest@.len() == all.len(),
            all.len() == total,
            rest@ == all.skip(k as int),
            families@ == successes(all.take(k as int)),
            errors@ == failures(all.take(k as int)),
        decreases rest@.len(),
    {
        let (name, result) = rest.remove(0);
        assert(all.take(k + 1).drop_last() =~= all.take(k as int));
        assert(all.take(k + 1).last() == all[k as int]);
        assert(all.skip(k as int)[0] == all[k as int]);
        match result {
            Ok(f) => families.push(f),
            Err(e) => errors.push((name, e)),
        }
        assert(rest@ =~= all.skip(k + 1));
        k = k + 1;
    }
    assert(all.take(k as int) =~= all);
    (families, errors)
}

/// After a cache miss, takes what the source gave: a collected family is
/// shared, and kept in the source's cache at time `now` (when caching is on);
/// an error is passed on and the cache left as it is.
pub fn remember_collected<F>(cache: &mut MetricsCache<Arc<F>>, result: Result<F, SourceError>, now: u64) -> (r: Result<Arc<F>, SourceError>)
    ensures
        final(cache).ttl() == old(cache).ttl(),
        match result {
            Ok(f) => r matches Ok(a) && *a == f && final(cache).stored() == (if old(cache).enabled() {
                Some((a, now))
            } else {
                old(cache).stored()
            }),
            Err(e) => r == Err::<Arc<F>, SourceError>(e) && final(cache).stored() == old(cache).stored(),
        },
{
    match result {
        Ok(family) => {
            let shared = Arc::new(family);
            cache.set(share(&shared), now);
            Ok(shared)
        },
        Err(e) => Err(e),
    }
}

/// Whether every source reported healthy (true when there is none).
pub fn all_healthy(results: &[(String, bool)]) -> (b: bool)
    ensures
        b == (forall|i: int| 0 <= i < results@.len() ==> #[trigger] results@[i].1),
{
    let n = results.len();
    for i in 0..n
        invariant
            n == results@.len(),
            forall|k: int| 0 <= k < i ==> #[trigger] results@[k].1,
    {
        if !results[i].1 {
            return false;
        }
    }
    true
}

} // verus!
