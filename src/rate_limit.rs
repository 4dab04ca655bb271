use crate::addr::IpAddress;
use vstd::prelude::*;
use vstd::string::*;

verus! {

/// Connections held by `ip` according to a list of (address, count) entries.
pub open spec fn count_in(s: Seq<(IpAddress, usize)>, ip: IpAddress) -> nat
    decreases s.len(),
{
    if s.len() == 0 {
        0
    } else {
        count_in(s.drop_last(), ip) + if s.last().0 == ip {
            s.last().1 as nat
        } else {
            0
        }
    }
}

/// Connections held by all addresses together.
pub open spec fn total(s: Seq<(IpAddress, usize)>) -> nat
    decreases s.len(),
{
    if s.len() == 0 {
        0
    } else {
        total(s.drop_last()) + s.last().1 as nat
    }
}

proof fn lemma_update(s: Seq<(IpAddress, usize)>, i: int, v: usize, ip: IpAddress)
    requires
        0 <= i < s.len(),
    ensures
        count_in(s.update(i, (s[i].0, v)), ip) + (if s[i].0 == ip {
            s[i].1 as nat
        } else {
            0
        }) == count_in(s, ip) + (if s[i].0 == ip {
            v as nat
        } else {
            0
        }),
        total(s.update(i, (s[i].0, v))) + s[i].1 == total(s) + v,
    decreases s.len(),
{
    let u = s.update(i, (s[i].0, v));
    if i < s.len() - 1 {
        lemma_update(s.drop_last(), i, v, ip);
        assert(u.drop_last() =~= s.drop_last().update(i, (s[i].0, v)));
    } else {
        assert(u.drop_last() =~= s.drop_last());
    }
}

proof fn lemma_remove_empty(s: Seq<(IpAddress, usize)>, i: int, ip: IpAddress)
    requires
        0 <= i < s.len(),
        s[i].1 == 0,
    ensures
        count_in(s.remove(i), ip) == count_in(s, ip),
        total(s.remove(i)) == total(s),
    decreases s.len(),
{
    let r = s.remove(i);
    if i < s.len() - 1 {
        lemma_remove_empty(s.drop_last(), i, ip);
        assert(r.drop_last() =~= s.drop_last().remove(i));
        assert(r.last() == s.last());
    } else {
        assert(r =~= s.drop_last());
    }
}

proof fn lemma_none_held(s: Seq<(IpAddress, usize)>, ip: IpAddress)
    requires
        forall|j: int| 0 <= j < s.len() && s[j].0 == ip ==> s[j].1 == 0,
    ensures
        count_in(s, ip) == 0,
    decreases s.len(),
{
    if s.len() > 0 {
        lemma_none_held(s.drop_last(), ip);
    }
}

pub open spec fn keys_unique(s: Seq<(IpAddress, usize)>) -> bool {
    forall|i: int, j: int| 0 <= i < j < s.len() ==> s[i].0 != s[j].0
}

proof fn lemma_unique_count(s: Seq<(IpAddress, usize)>, i: int)
    requires
        keys_unique(s),
        0 <= i < s.len(),
    ensures
        count_in(s, s[i].0) == s[i].1,
    decreases s.len(),
{
    if i == s.len() - 1 {
        lemma_none_held(s.drop_last(), s[i].0);
    } else {
        lemma_unique_count(s.drop_last(), i);
    }
}

proof fn lemma_count_le_total(s: Seq<(IpAddress, usize)>, ip: IpAddress)
    ensures
        count_in(s, ip) <= total(s),
    decreases s.len(),
{
    if s.len() > 0 {
        lemma_count_le_total(s.drop_last(), ip);
    }
}

pub open spec fn global_limit_reason() -> Seq<char> {
    "global connection limit reached"@
}

pub open spec fn per_ip_limit_reason() -> Seq<char> {
    "per-IP connection limit reached"@
}

fn global_limit_error() -> (r: RateLimitError)
    ensures
        r matches RateLimitError::Limit { reason } && reason@ == global_limit_reason(),
{
    RateLimitError::Limit { reason: String::from_str("global connection limit reached") }
}

fn per_ip_limit_error() -> (r: RateLimitError)
    ensures
        r matches RateLimitError::Limit { reason } && reason@ == per_ip_limit_reason(),
{
    RateLimitError::Limit { reason: String::from_str("per-IP connection limit reached") }
}

/// Why an admission was refused.
#[derive(Debug)]
pub enum RateLimitError {
    Limit { reason: String },
}

/// A reservation of one connection slot for `ip`. It is not `Clone`: giving
/// it back to the limiter that issued it releases the slot exactly once.
#[derive(Debug)]
pub struct Ticket {
    pub ip: IpAddress,
}

/// Counts of live connections, globally and per client address.
pub struct InMemoryRateLimit {
    global_limit: usize,
    per_ip_limit: usize,
    global: usize,
    entries: Vec<(IpAddress, usize)>,
}

impl InMemoryRateLimit {
    pub closed spec fn spec_global_limit(&self) -> nat {
        self.global_limit as nat
    }

    pub closed spec fn spec_per_ip_limit(&self) -> nat {
        self.per_ip_limit as nat
    }

    /// Live connections over all addresses.
    pub closed spec fn active(&self) -> nat {
        self.global as nat
    }

    /// Live connections of one address.
    pub closed spec fn count(&self, ip: IpAddress) -> nat {
        count_in(self.entries@, ip)
    }

    /// The live connections as a mapping from address to count; an address
    /// with none is absent.
    pub open spec fn counts(&self) -> Map<IpAddress, nat> {
        Map::new(|ip: IpAddress| self.count(ip) > 0, |ip: IpAddress| self.count(ip))
    }

    pub closed spec fn wf(&self) -> bool {
        &&& self.global as nat == total(self.entries@)
        &&& keys_unique(self.entries@)
        &&& self.global <= self.global_limit
        &&& forall|ip: IpAddress| #[trigger] count_in(self.entries@, ip) <= self.per_ip_limit
    }

    /// `new` holds one connection of `ip` more than `old`, and otherwise the same.
    pub open spec fn one_more(old: &Self, new: &Self, ip: IpAddress) -> bool {
        &&& new.spec_global_limit() == old.spec_global_limit()
        &&& new.spec_per_ip_limit() == old.spec_per_ip_limit()
        &&& new.active() == old.active() + 1
        &&& new.count(ip) == old.count(ip) + 1
        &&& forall|x: IpAddress| x != ip ==> #[trigger] new.count(x) == old.count(x)
    }

    /// `new` holds one connection of `ip` fewer than `old`, and otherwise the same.
    pub open spec fn one_fewer(old: &Self, new: &Self, ip: IpAddress) -> bool {
        &&& new.spec_global_limit() == old.spec_global_limit()
        &&& new.spec_per_ip_limit() == old.spec_per_ip_limit()
        &&& new.active() + 1 == old.active()
        &&& new.count(ip) + 1 == old.count(ip)
        &&& forall|x: IpAddress| x != ip ==> #[trigger] new.count(x) == old.count(x)
    }

    pub fn new(global_limit: usize, per_ip_limit: usize) -> (r: InMemoryRateLimit)
        ensures
            r.wf(),
            r.spec_global_limit() == global_limit,
            r.spec_per_ip_limit() == per_ip_limit,
            r.active() == 0,
            forall|ip: IpAddress| #[trigger] r.count(ip) == 0,
    {
        InMemoryRateLimit { global_limit, per_ip_limit, global: 0, entries: Vec::new() }
    }

    /// Reserves a slot for `ip`. The global limit is checked first, so when
    /// both are reached the refusal names the global one.
    pub fn try_acquire(&mut self, ip: IpAddress) -> (r: Result<Ticket, RateLimitError>)
        requires
            old(self).wf(),
        ensures
            final(self).wf(),
            old(self).active() >= old(self).spec_global_limit() ==> (r matches Err(
                RateLimitError::Limit { reason },
            ) && reason@ == global_limit_reason() && *final(self) == *old(self)),
            old(self).active() < old(self).spec_global_limit() && old(self).count(ip)
                >= old(self).spec_per_ip_limit() ==> (r matches Err(
                RateLimitError::Limit { reason },
            ) && reason@ == per_ip_limit_reason() && *final(self) == *old(self)),
            old(self).active() < old(self).spec_global_limit() && old(self).count(ip) < old(
                self,
            ).spec_per_ip_limit() ==> (r matches Ok(t) && t.ip == ip && Self::one_more(
                old(self),
                final(self),
                ip,
            )),
    {
        if self.global >= self.global_limit {
            return Err(global_limit_error());
        }
        let n = self.entries.len();
        let mut i: usize = 0;
        while i < n && self.entries[i].0 != ip
            invariant
                n == self.entries.len(),
                i <= n,
                forall|j: int| 0 <= j < i ==> self.entries@[j].0 != ip,
            decreases n - i,
        {
            i = i + 1;
        }
        let ghost s = self.entries@;
        if i < n {
            let c = self.entries[i].1;
            proof {
                lemma_unique_count(s, i as int);
            }
            if c >= self.per_ip_limit {
                return Err(per_ip_limit_error());
            }
            self.entries.set(i, (ip, c + 1));
            proof {
                assert(keys_unique(self.entries@));
                assert forall|x: IpAddress|
                    #[trigger] count_in(self.entries@, x) == count_in(s, x) + if x == ip {
                        1nat
                    } else {
                        0nat
                    } by {
                    lemma_update(s, i as int, (c + 1) as usize, x);
                }
                lemma_update(s, i as int, (c + 1) as usize, ip);
            }
        } else {
            proof {
                lemma_none_held(s, ip);
            }
            if self.per_ip_limit == 0 {
                return Err(per_ip_limit_error());
            }
            self.entries.push((ip, 1));
            assert(self.entries@.drop_last() =~= s);
            assert(keys_unique(self.entries@));
        }
        self.global = self.global + 1;
        Ok(Ticket { ip })
    }

    /// Live connections over all addresses.
    pub fn connections(&self) -> (r: usize)
        ensures
            r == self.active(),
    {
        self.global
    }

    /// Live connections of `ip`.
    pub fn connections_of(&self, ip: IpAddress) -> (r: usize)
        requires
            self.wf(),
        ensures
            r == self.count(ip),
    {
        let n = self.entries.len();
        let mut i: usize = 0;
        while i < n && self.entries[i].0 != ip
            invariant
                n == self.entries.len(),
                i <= n,
                forall|j: int| 0 <= j < i ==> self.entries@[j].0 != ip,
            decreases n - i,
        {
            i = i + 1;
        }
        if i < n {
            proof {
                lemma_unique_count(self.entries@, i as int);
            }
            self.entries[i].1
        } else {
            proof {
                lemma_none_held(self.entries@, ip);
            }
            0
        }
    }

    /// Gives a reservation back where the limiter holds a connection of its
    /// address; says whether it did. A ticket of another limiter, or one
    /// whose slot is already free, changes nothing.
    pub fn release_checked(&mut self, ticket: Ticket) -> (r: bool)
        requires
            old(self).wf(),
        ensures
            final(self).wf(),
            r == (old(self).count(ticket.ip) >= 1),
            r ==> Self::one_fewer(old(self), final(self), ticket.ip),
            !r ==> *final(self) == *old(self),
    {
        if self.connections_of(ticket.ip) == 0 {
            return false;
        }
        self.release(ticket);
        true
    }

    /// Gives a reservation back: the counts it added are taken off again.
    pub fn release(&mut self, ticket: Ticket)
        requires
            old(self).wf(),
            old(self).count(ticket.ip) >= 1,
        ensures
            final(self).wf(),
            Self::one_fewer(old(self), final(self), ticket.ip),
    {
        let ip = ticket.ip;
        let ghost s = self.entries@;
        let n = self.entries.len();
        let mut i: usize = 0;
        while i < n && !(self.entries[i].0 == ip && self.entries[i].1 > 0)
            invariant
                n == self.entries.len(),
                s == self.entries@,
                i <= n,
                forall|j: int| 0 <= j < i && s[j].0 == ip ==> s[j].1 == 0,
            decreases n - i,
        {
            i = i + 1;
        }
        if i == n {
            proof {
                lemma_none_held(s, ip);
            }
            return;
        }
        let c = self.entries[i].1;
        proof {
            lemma_count_le_total(s, ip);
        }
        self.entries.set(i, (ip, c - 1));
        let ghost u = self.entries@;
        proof {
            assert forall|x: IpAddress|
                #[trigger] count_in(u, x) + (if x == ip {
                    1nat
                } else {
                    0nat
                }) == count_in(s, x) by {
                lemma_update(s, i as int, (c - 1) as usize, x);
            }
            lemma_update(s, i as int, (c - 1) as usize, ip);
        }
        if c == 1 {
            self.entries.remove(i);
            proof {
                assert forall|x: IpAddress|
                    #[trigger] count_in(self.entries@, x) == count_in(u, x) by {
                    lemma_remove_empty(u, i as int, x);
                }
                lemma_remove_empty(u, i as int, ip);
            }
        }
        self.global = self.global - 1;
        proof {
            assert forall|x: IpAddress| x != ip implies #[trigger] self.count(x) == old(
                self,
            ).count(x) by {
                assert(count_in(self.entries@, x) == count_in(u, x));
            }
        }
    }
}

/// The limits hold in every well-formed state, so at every instant:
/// live connections never exceed the global limit, nor those of any one
/// address the per-address limit.
pub proof fn lemma_limits_hold(r: &InMemoryRateLimit, ip: IpAddress)
    requires
        r.wf(),
    ensures
        r.active() <= r.spec_global_limit(),
        r.count(ip) <= r.spec_per_ip_limit(),
{
}

/// Acquiring a ticket and releasing it brings the counts back to what they
/// were before the acquisition.
pub proof fn lemma_acquire_release_restores(
    a: &InMemoryRateLimit,
    b: &InMemoryRateLimit,
    c: &InMemoryRateLimit,
    ip: IpAddress,
)
    requires
        InMemoryRateLimit::one_more(a, b, ip),
        InMemoryRateLimit::one_fewer(b, c, ip),
    ensures
        c.active() == a.active(),
        c.counts() =~= a.counts(),
{
    assert forall|x: IpAddress| #[trigger] c.count(x) == a.count(x) by {
        if x != ip {
            assert(b.count(x) == a.count(x));
        }
    }
}

} // verus!
