//! Bookkeeping of idle players: since when each server has had nothing to play, and when the
//! bot should leave it.
use vstd::prelude::*;

use std::collections::HashMap;

verus! {

broadcast use vstd::std_specs::hash::group_hash_axioms;

/// For each idle server, the moment (in milliseconds of a monotonic clock) since which its
/// player has had nothing to play.
pub struct InactivityTracker {
    idle_since: HashMap<u64, u64>,
}

impl View for InactivityTracker {
    type V = Map<u64, u64>;

    closed spec fn view(&self) -> Map<u64, u64> {
        self.idle_since@
    }
}

/// Time passed from `since` to `now`, never negative.
pub open spec fn elapsed(since: u64, now: u64) -> nat {
    if now >= since {
        (now - since) as nat
    } else {
        0
    }
}

/// One check of a server: while it idles, the first idle moment is kept and the bot leaves
/// once `timeout_secs` seconds have passed since then; a server that plays is forgotten.
pub open spec fn observe_step(m: Map<u64, u64>, guild: u64, idle: bool, now: u64, timeout_secs: u64) -> (Map<u64, u64>, bool) {
    if idle {
        let since = if m.contains_key(guild) {
            m[guild]
        } else {
            now
        };
        (m.insert(guild, since), elapsed(since, now) >= timeout_secs as nat * 1000)
    } else {
        (m.remove(guild), false)
    }
}

impl InactivityTracker {
    /// No server is idle.
    pub fn new() -> (t: Self)
        ensures
            t@ == Map::<u64, u64>::empty(),
    {
        InactivityTracker { idle_since: HashMap::new() }
    }

    /// The moment since which `guild` has been idle, if it is.
    pub fn idle_since(&self, guild: u64) -> (r: Option<u64>)
        ensures
            r == if self@.contains_key(guild) {
                Some(self@[guild])
            } else {
                None
            },
    {
        match self.idle_since.get(&guild) {
            Some(t) => Some(*t),
            None => None,
        }
    }

    /// `guild` went idle at `now` (its music was stopped); an earlier moment is replaced.
    pub fn mark_idle(&mut self, guild: u64, now: u64)
        ensures
            final(self)@ == old(self)@.insert(guild, now),
    {
        self.idle_since.insert(guild, now);
    }

    /// `guild` is busy again, or was left: it is no longer idle.
    pub fn clear(&mut self, guild: u64)
        ensures
            final(self)@ == old(self)@.remove(guild),
    {
        self.idle_since.remove(&guild);
    }

    /// Records one check of `guild` at `now` and says whether to leave it (see
    /// [`observe_step`]).
    pub fn observe(&mut self, guild: u64, idle: bool, now: u64, timeout_secs: u64) -> (leave: bool)
        ensures
            (final(self)@, leave) == observe_step(old(self)@, guild, idle, now, timeout_secs),
    {
        if idle {
            let since = match self.idle_since.get(&guild) {
                Some(t) => *t,
                None => now,
            };
            self.idle_since.insert(guild, since);
            let passed: u64 = if now >= since {
                now - since
            } else {
                0
            };
            (passed as u128) >= (timeout_secs as u128) * 1000
        } else {
            self.idle_since.remove(&guild);
            false
        }
    }
}

/// A server that stays idle is left once the timeout has passed since it first went idle:
/// checks at `t0` and later at `t1` keep `t0` as the idle moment, and the second check says
/// to leave exactly when `t1 - t0` reaches the timeout.
pub proof fn lemma_idle_guild_is_left(m: Map<u64, u64>, guild: u64, t0: u64, t1: u64, timeout_secs: u64)
    requires
        !m.contains_key(guild),
        t0 <= t1,
    ensures
        ({
            let first = observe_step(m, guild, true, t0, timeout_secs);
            let second = observe_step(first.0, guild, true, t1, timeout_secs);
            &&& second.0[guild] == t0
            &&& second.1 == ((t1 - t0) as nat >= timeout_secs as nat * 1000)
        }),
{
}

/// Activity resets the clock: after a busy check, the next idle check starts counting anew.
pub proof fn lemma_activity_resets(m: Map<u64, u64>, guild: u64, t: u64, timeout_secs: u64)
    ensures
        ({
            let busy = observe_step(m, guild, false, t, timeout_secs);
            let idle = observe_step(busy.0, guild, true, t, timeout_secs);
            &&& !busy.0.contains_key(guild)
            &&& !busy.1
            &&& idle.0[guild] == t
            &&& idle.1 == (timeout_secs == 0)
        }),
{
}

/// Checking one server leaves the bookkeeping of every other server as it was.
pub proof fn lemma_observe_is_local(m: Map<u64, u64>, guild: u64, other: u64, idle: bool, now: u64, timeout_secs: u64)
    requires
        other != guild,
    ensures
        observe_step(m, guild, idle, now, timeout_secs).0.contains_key(other) == m.contains_key(other),
        m.contains_key(other) ==> observe_step(m, guild, idle, now, timeout_secs).0[other] == m[other],
{
}

} // verus!
