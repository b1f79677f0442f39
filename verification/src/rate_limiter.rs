//! The request rate limiter: per-peer request counts against a fixed
//! ceiling, cleared periodically by the caller.
use vstd::prelude::*;
use vstd::hash_map::HashMapWithView;

verus! {

/// Counts requests per peer, keyed by the packed IPv4 address and port.
pub struct RateLimiter {
    pub ip_counts: HashMapWithView<u64, u32>,
    pub max_requests: u32,
    pub reset_duration_secs: u64,
    pub disabled: bool,
}

impl Default for RateLimiter {
    /// An enabled limiter of one hundred requests per minute.
    fn default() -> (r: Self)
        ensures
            r.ip_counts@ == Map::<u64, u32>::empty(),
            r.max_requests == 100u32,
            r.reset_duration_secs == 60u64,
            !r.disabled,
    {
        RateLimiter::new(100, 60, false)
    }
}

impl RateLimiter {
    pub fn new(max_requests: u32, reset_duration_secs: u64, disabled: bool) -> (r: RateLimiter)
        ensures
            r.ip_counts@ == Map::<u64, u32>::empty(),
            r.max_requests == max_requests,
            r.reset_duration_secs == reset_duration_secs,
            r.disabled == disabled,
    {
        proof {
            broadcast use vstd::std_specs::hash::axiom_u64_obeys_hash_table_key_model;

        }
        RateLimiter {
            ip_counts: HashMapWithView::new(),
            max_requests,
            reset_duration_secs,
            disabled,
        }
    }

    /// Counts one request from this peer and tells whether it is within
    /// the ceiling: a disabled limiter always admits; otherwise the
    /// request is admitted while the raised count is at most the ceiling,
    /// so at most `max_requests` requests per peer are admitted in one
    /// window. The count saturates rather than wrap.
    pub fn check_rate_limit(&mut self, ip: u64) -> (r: bool)
        ensures
            final(self).max_requests == old(self).max_requests,
            final(self).reset_duration_secs == old(self).reset_duration_secs,
            final(self).disabled == old(self).disabled,
            old(self).disabled ==> r && final(self).ip_counts@ == old(self).ip_counts@,
            !old(self).disabled ==> {
                let c2 = if old(self).ip_counts@.contains_key(ip) {
                    if old(self).ip_counts@[ip] == u32::MAX {
                        u32::MAX
                    } else {
                        (old(self).ip_counts@[ip] + 1) as u32
                    }
                } else {
                    1u32
                };
                &&& final(self).ip_counts@ == old(self).ip_counts@.insert(ip, c2)
                &&& r == (c2 <= old(self).max_requests)
            },
    {
        if self.disabled {
            return true;
        }
        let current: Option<&u32> = self.ip_counts.get(&ip);
        let c2: u32 = match current {
            Some(c) => {
                if *c == u32::MAX {
                    *c
                } else {
                    *c + 1
                }
            },
            None => 1,
        };
        self.ip_counts.insert(ip, c2);
        c2 <= self.max_requests
    }

    /// Forgets every count; the caller runs this each reset interval.
    pub fn reset(&mut self)
        ensures
            final(self).ip_counts@ == Map::<u64, u32>::empty(),
            final(self).max_requests == old(self).max_requests,
            final(self).reset_duration_secs == old(self).reset_duration_secs,
            final(self).disabled == old(self).disabled,
    {
        self.ip_counts.clear();
    }
}

} // verus!
