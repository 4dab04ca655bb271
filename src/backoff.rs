use vstd::prelude::*;

verus! {

/// The delay, in seconds, before the first connection attempt and after a
/// successful connection.
pub const INITIAL_DELAY_SECS: u64 = 1;

/// Capped doubling of a delay.
pub open spec fn next_delay(d: nat, max: nat) -> nat {
    if 2 * d <= max {
        2 * d
    } else {
        max
    }
}

/// The delay reached from the initial one after `k` consecutive failures.
pub open spec fn delay_after(k: nat, max: nat) -> nat
    decreases k,
{
    if k == 0 {
        INITIAL_DELAY_SECS as nat
    } else {
        next_delay(delay_after((k - 1) as nat, max), max)
    }
}

pub open spec fn pow2(k: nat) -> nat
    decreases k,
{
    if k == 0 {
        1
    } else {
        2 * pow2((k - 1) as nat)
    }
}

pub open spec fn min_nat(a: nat, b: nat) -> nat {
    if a <= b {
        a
    } else {
        b
    }
}

/// After `k` consecutive failed attempts the delay is `min(2^k, max)` seconds.
/// With a maximum of zero the initial delay of one second still stands
/// before any failure, hence the exclusion of that single case.
pub proof fn lemma_delay_after_failures(k: nat, max: nat)
    requires
        k >= 1 || max >= 1,
    ensures
        delay_after(k, max) == min_nat(pow2(k), max),
    decreases k,
{
    if k == 0 {
        assert(pow2(0) == 1);
    } else if k == 1 {
        assert(pow2(1) == 2 * pow2(0));
        assert(delay_after(1, max) == next_delay(delay_after(0, max), max));
    } else {
        let j = (k - 1) as nat;
        lemma_delay_after_failures(j, max);
        assert(pow2(k) == 2 * pow2(j));
        assert(delay_after(k, max) == next_delay(delay_after(j, max), max));
    }
}

/// Reconnection delay of one upstream subscriber.
#[derive(Clone, Copy, Debug, PartialEq, Eq, Structural)]
pub struct Backoff {
    pub delay_secs: u64,
    pub max_secs: u64,
}

impl Backoff {
    pub fn new(max_secs: u64) -> (r: Backoff)
        ensures
            r.delay_secs == INITIAL_DELAY_SECS,
            r.max_secs == max_secs,
    {
        Backoff { delay_secs: INITIAL_DELAY_SECS, max_secs }
    }

    /// Records a failed connection attempt: the delay doubles, up to the maximum.
    pub fn on_failure(&mut self)
        ensures
            final(self).max_secs == old(self).max_secs,
            final(self).delay_secs as nat == next_delay(
                old(self).delay_secs as nat,
                old(self).max_secs as nat,
            ),
    {
        if self.delay_secs <= self.max_secs / 2 {
            self.delay_secs = self.delay_secs * 2;
        } else {
            self.delay_secs = self.max_secs;
        }
    }

    /// Records a successful connection: the delay goes back to its initial value.
    pub fn on_success(&mut self)
        ensures
            final(self).max_secs == old(self).max_secs,
            final(self).delay_secs == INITIAL_DELAY_SECS,
    {
        self.delay_secs = INITIAL_DELAY_SECS;
    }
}

} // verus!
