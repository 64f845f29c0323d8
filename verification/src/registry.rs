//! The set of canonical file paths currently under tail.
//!
//! Every registration attempt funnels through [`WatchRegistry::try_register`],
//! whose check-and-insert is one call on `&mut self`: two callers can never
//! both observe "absent" for the same path, so at most one tail task is ever
//! spawned per canonical path.

use vstd::prelude::*;

verus! {

/// The registered canonical paths, in registration order, each path a
/// sequence of characters.
pub struct WatchRegistry {
    paths: Vec<String>,
}

impl View for WatchRegistry {
    type V = Seq<Seq<char>>;

    closed spec fn view(&self) -> Seq<Seq<char>> {
        self.paths@.map_values(|p: String| p@)
    }
}

impl WatchRegistry {
    /// No path is registered twice.
    pub open spec fn wf(&self) -> bool {
        forall|i: int, j: int| 0 <= i < j < self@.len() ==> self@[i] != self@[j]
    }

    /// A fresh registry holds nothing.
    pub fn new() -> (reg: Self)
        ensures
            reg@ == Seq::<Seq<char>>::empty(),
            reg.wf(),
    {
        let reg = WatchRegistry { paths: Vec::new() };
        proof {
            assert(reg@ =~= Seq::<Seq<char>>::empty());
        }
        reg
    }

    /// Insert-if-absent: returns true iff `path` was not yet registered, and
    /// in that case appends it. A second attempt for the same path leaves the
    /// registry unchanged and returns false.
    pub fn try_register(&mut self, path: String) -> (newly: bool)
        requires
            old(self).wf(),
        ensures
            final(self).wf(),
            newly == !old(self)@.contains(path@),
            newly ==> final(self)@ == old(self)@.push(path@),
            !newly ==> final(self)@ == old(self)@,
    {
        let n = self.paths.len();
        let mut i: usize = 0;
        while i < n
            invariant
                i <= n,
                n == self.paths.len(),
                *self == *old(self),
                old(self).wf(),
                forall|j: int| 0 <= j < i ==> self@[j] != path@,
            decreases n - i,
        {
            if self.paths[i] == path {
                proof {
                    assert(self@[i as int] == path@);
                    assert(self@.contains(path@));
                }
                return false;
            }
            i = i + 1;
        }
        proof {
            assert(forall|j: int| 0 <= j < self@.len() ==> self@[j] != path@);
            assert(!self@.contains(path@));
        }
        let ghost pre = self@;
        self.paths.push(path);
        proof {
            assert(self@ =~= pre.push(path@));
            assert forall|i: int, j: int| 0 <= i < j < self@.len() implies self@[i]
                != self@[j] by {
                if j < pre.len() {
                } else {
                    assert(self@[j] == path@);
                    assert(!pre.contains(path@));
                    assert(pre[i] != path@);
                }
            }
        }
        true
    }
}

} // verus!
