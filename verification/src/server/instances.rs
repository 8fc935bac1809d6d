//! Which headless game instances run: what starts, what stops, and what is refused.
//!
//! An instance is the same game the player runs, fed the inputs the client reports, so that the
//! server has its own account of what happened.

use std::collections::HashSet;
use vstd::prelude::*;

verus! {

broadcast use vstd::std_specs::hash::group_hash_axioms;

/// How many instances may run at once. Refusing to start another costs one player their replay
/// validation; running it might cost everyone the server.
pub const DEFAULT_MAX: usize = 20;

/// The characters whose instances are running, and how many may.
pub struct Instances {
    max: usize,
    running: HashSet<i64>,
}

/// What is to be done about a wish for an instance.
#[derive(Debug, Clone, Copy, PartialEq, Eq, Structural)]
pub enum Start {
    /// One is already up.
    Running,
    /// There is no room for another.
    Full,
    /// One is to be started, and `started` to be told whether it came up.
    Spawn,
}

impl Instances {
    /// The characters whose instances are running.
    pub closed spec fn running(&self) -> Set<i64> {
        self.running@
    }

    /// How many may run at once.
    pub closed spec fn max(&self) -> usize {
        self.max
    }

    /// A supervisor without instances.
    pub fn new() -> (r: Self)
        ensures
            r.running() == Set::<i64>::empty(),
            r.max() == DEFAULT_MAX,
    {
        Instances { max: DEFAULT_MAX, running: HashSet::new() }
    }

    /// The same supervisor with another bound.
    pub fn with_max(self, max: usize) -> (r: Self)
        ensures
            r.running() == self.running(),
            r.max() == max,
    {
        Instances { max, running: self.running }
    }

    /// How many instances are running.
    pub fn count(&self) -> (r: usize)
        ensures
            r == self.running().len(),
    {
        self.running.len()
    }

    /// Whether a character's instance is running.
    pub fn is_running(&self, character_id: i64) -> (r: bool)
        ensures
            r == self.running().contains(character_id),
    {
        self.running.contains(&character_id)
    }

    /// Decides whether an instance is to be started for a character: only if there is room and
    /// one is not already up.
    pub fn start(&self, character_id: i64) -> (r: Start)
        ensures
            r == (if self.running().contains(character_id) {
                Start::Running
            } else if self.running().len() >= self.max() {
                Start::Full
            } else {
                Start::Spawn
            }),
    {
        if self.running.contains(&character_id) {
            Start::Running
        } else if self.running.len() >= self.max {
            Start::Full
        } else {
            Start::Spawn
        }
    }

    /// Records whether an instance came up. Returns whether one is now running.
    pub fn started(&mut self, character_id: i64, up: bool) -> (r: bool)
        ensures
            final(self).max() == old(self).max(),
            final(self).running() == (if up {
                old(self).running().insert(character_id)
            } else {
                old(self).running()
            }),
            r == up,
    {
        if up {
            self.running.insert(character_id);
        }
        up
    }

    /// Forgets a character's instance, on stopping it or on finding that it has exited. Safe when
    /// there is none. Returns whether there was one.
    pub fn stop(&mut self, character_id: i64) -> (r: bool)
        ensures
            final(self).max() == old(self).max(),
            final(self).running() == old(self).running().remove(character_id),
            r == old(self).running().contains(character_id),
    {
        self.running.remove(&character_id)
    }

    /// Forgets the instances of these characters, whose processes have exited, so that a crashed
    /// one does not hold its place forever.
    pub fn reap(&mut self, exited: &[i64])
        ensures
            final(self).max() == old(self).max(),
            final(self).running() == old(self).running().difference(exited@.to_set()),
    {
        let ghost before = self.running@;
        let mut i: usize = 0;
        while i < exited.len()
            invariant
                i <= exited@.len(),
                self.max == old(self).max,
                self.running@ =~= before.difference(exited@.subrange(0, i as int).to_set()),
            decreases exited@.len() - i,
        {
            let ghost part = exited@.subrange(0, i as int);
            let ghost next = exited@.subrange(0, i + 1);
            let id: i64 = exited[i];
            self.running.remove(&id);
            proof {
                assert(next =~= part.push(id));
                assert forall|x: i64| next.to_set().contains(x) <==> x == id
                    || part.to_set().contains(x) by {
                    if part.contains(x) {
                        let k = choose|k: int| 0 <= k < part.len() && part[k] == x;
                        assert(next[k] == x);
                    }
                    if x == id {
                        assert(next[i as int] == x);
                    }
                }
            }
            i = i + 1;
        }
        assert(exited@.subrange(0, i as int) =~= exited@);
    }
}

/// The bound is kept: where an instance is started only when told to, no more run than may.
pub proof fn law_the_cap_is_kept(running: Set<i64>, max: usize, character_id: i64)
    requires
        running.finite(),
        running.len() < max,
    ensures
        running.insert(character_id).len() <= max,
{
}

} // verus!
