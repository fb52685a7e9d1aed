//! A value cached for a time-to-live.
//!
//! With a TTL of 0 caching is disabled: `get` finds nothing and `set` stores
//! nothing. Otherwise a stored value is found until the TTL has passed since
//! it was stored. Times are nanoseconds on a monotonic clock that the caller
//! reads.

use vstd::prelude::*;

verus! {

/// Nanoseconds in a second.
pub const NANOS_PER_SECOND: u128 = 1_000_000_000;

/// A stored value and the time it was stored.
#[derive(Debug)]
pub struct CacheEntry<T> {
    pub data: T,
    pub created_at: u64,
}

/// A single cached value with a TTL in seconds.
#[derive(Debug)]
pub struct MetricsCache<T> {
    ttl_seconds: u64,
    entry: Option<CacheEntry<T>>,
}

/// Time passed from `from` to `to`; zero when `to` is earlier (as a
/// monotonic clock's `elapsed` saturates).
pub open spec fn elapsed(from: u64, to: u64) -> nat {
    if to >= from {
        (to - from) as nat
    } else {
        0
    }
}

/// Whether a value stored at `created_at` is still fresh at `now`.
pub open spec fn fresh(ttl_seconds: u64, created_at: u64, now: u64) -> bool {
    elapsed(created_at, now) < ttl_seconds * NANOS_PER_SECOND
}

impl<T> MetricsCache<T> {
    /// The TTL in seconds.
    pub closed spec fn ttl(&self) -> u64 {
        self.ttl_seconds
    }

    /// The stored value and its time, if any.
    pub closed spec fn stored(&self) -> Option<(T, u64)> {
        match self.entry {
            Some(e) => Some((e.data, e.created_at)),
            None => None,
        }
    }

    /// Caching is enabled when the TTL is positive.
    pub open spec fn enabled(&self) -> bool {
        self.ttl() > 0
    }

    /// What `get` finds at `now`.
    pub open spec fn lookup_at(&self, now: u64) -> Option<T> {
        if !self.enabled() {
            None
        } else {
            match self.stored() {
                Some((d, t)) => if fresh(self.ttl(), t, now) {
                    Some(d)
                } else {
                    None
                },
                None => None,
            }
        }
    }

    /// A cache with the given TTL in seconds (0 disables caching).
    pub fn new(ttl_seconds: u64) -> (c: Self)
        ensures
            c.ttl() == ttl_seconds,
            c.stored() is None,
    {
        MetricsCache { ttl_seconds, entry: None }
    }

    /// Whether caching is enabled (TTL > 0).
    pub fn is_enabled(&self) -> (b: bool)
        ensures
            b == self.enabled(),
    {
        self.ttl_seconds != 0
    }

    /// The cached value at time `now`, if one was stored and is still fresh.
    pub fn get(&self, now: u64) -> (r: Option<&T>)
        ensures
            match r {
                Some(d) => self.lookup_at(now) == Some(*d),
                None => self.lookup_at(now) is None,
            },
    {
        if self.ttl_seconds == 0 {
            return None;
        }
        match &self.entry {
            Some(e) => {
                let age: u64 = if now >= e.created_at {
                    now - e.created_at
                } else {
                    0
                };
                if (age as u128) < (self.ttl_seconds as u128) * NANOS_PER_SECOND {
                    Some(&e.data)
                } else {
                    None
                }
            },
            None => None,
        }
    }

    /// Stores `data` at time `now`; does nothing when caching is disabled.
    pub fn set(&mut self, data: T, now: u64)
        ensures
            final(self).ttl() == old(self).ttl(),
            final(self).stored() == (if old(self).enabled() {
                Some((data, now))
            } else {
                old(self).stored()
            }),
    {
        if self.ttl_seconds == 0 {
            return;
        }
        self.entry = Some(CacheEntry { data, created_at: now });
    }

    /// Forgets the stored value.
    pub fn clear(&mut self)
        ensures
            final(self).ttl() == old(self).ttl(),
            final(self).stored() is None,
    {
        self.entry = None;
    }
}

/// A disabled cache never holds a value.
pub proof fn lemma_disabled_cache_is_empty<T>(c: MetricsCache<T>, now: u64)
    requires
        c.ttl() == 0,
    ensures
        c.lookup_at(now) is None,
{
}

/// A value stored at `stored_at` is read back at `now` exactly while less
/// than the TTL has passed.
pub proof fn lemma_read_after_write<T>(c: MetricsCache<T>, data: T, stored_at: u64, now: u64)
    requires
        c.enabled(),
        c.stored() == Some((data, stored_at)),
        stored_at <= now,
    ensures
        c.lookup_at(now) == (if (now - stored_at) < c.ttl() * NANOS_PER_SECOND {
            Some(data)
        } else {
            None
        }),
{
}

/// A cache holding nothing finds nothing.
pub proof fn lemma_cleared_cache_is_empty<T>(c: MetricsCache<T>, now: u64)
    requires
        c.stored() is None,
    ensures
        c.lookup_at(now) is None,
{
}

} // verus!
