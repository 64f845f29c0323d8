//! The control step shared by bootstrap and the steady-state loop.
//!
//! At startup every configured root, and afterwards every notified path, is
//! classified by the surrounding program into a [`PathInfo`]: gone, a regular
//! file, or a directory with its snapshot. [`handle_event`] runs discovery on
//! it and attempts registration for every discovered file; the paths it
//! returns are exactly the newly registered ones, the ones the surrounding
//! program must spawn a tail task for. Duplicate notifications are harmless:
//! registration, not discovery, enforces uniqueness.

use crate::fstree::FsNode;
use crate::fstree::discover;
use crate::fstree::discover_node;
use crate::fstree::path_views;
use crate::registry::WatchRegistry;
use vstd::prelude::*;

verus! {

/// What a configured or notified path is at the moment it is inspected.
pub enum PathInfo {
    /// The path no longer exists, or is neither a regular file nor a
    /// directory: it is silently ignored.
    Absent,
    /// A regular file, by its canonical path.
    RegularFile { canon: String },
    /// A directory: its canonical path and the snapshot read under it.
    Directory { canon: String, snapshot: FsNode },
}

/// The file paths discovery yields for a path in state `info`.
pub open spec fn discovered_of(info: PathInfo, depth: int) -> Seq<Seq<char>> {
    match info {
        PathInfo::Absent => Seq::empty(),
        PathInfo::RegularFile { canon } => seq![canon@],
        PathInfo::Directory { canon, snapshot } => discover_node(canon@, snapshot, depth),
    }
}

/// The registry contents after attempting registration of `paths` in order.
pub open spec fn reg_after(reg: Seq<Seq<char>>, paths: Seq<Seq<char>>) -> Seq<Seq<char>>
    decreases paths.len(),
{
    if paths.len() == 0 {
        reg
    } else {
        let r = reg_after(reg, paths.drop_last());
        if r.contains(paths.last()) {
            r
        } else {
            r.push(paths.last())
        }
    }
}

/// The paths newly registered — hence spawned — when `paths` are attempted
/// in order against a registry holding `reg`.
pub open spec fn spawned(reg: Seq<Seq<char>>, paths: Seq<Seq<char>>) -> Seq<Seq<char>>
    decreases paths.len(),
{
    if paths.len() == 0 {
        Seq::empty()
    } else {
        let r = reg_after(reg, paths.drop_last());
        let s = spawned(reg, paths.drop_last());
        if r.contains(paths.last()) {
            s
        } else {
            s.push(paths.last())
        }
    }
}

/// Attempt registration for every path in `files`, in order, and return the
/// newly registered ones, in order.
fn register_batch(reg: &mut WatchRegistry, files: Vec<String>) -> (spawn: Vec<String>)
    requires
        old(reg).wf(),
    ensures
        final(reg).wf(),
        final(reg)@ == reg_after(old(reg)@, path_views(files@)),
        path_views(spawn@) == spawned(old(reg)@, path_views(files@)),
{
    let mut spawn: Vec<String> = Vec::new();
    let n = files.len();
    let mut i: usize = 0;
    proof {
        assert(path_views(files@).take(0) =~= Seq::<Seq<char>>::empty());
        assert(path_views(spawn@) =~= Seq::<Seq<char>>::empty());
    }
    while i < n
        invariant
            i <= n,
            n == files.len(),
            reg.wf(),
            reg@ == reg_after(old(reg)@, path_views(files@).take(i as int)),
            path_views(spawn@) == spawned(old(reg)@, path_views(files@).take(i as int)),
        decreases n - i,
    {
        let ghost pv = path_views(files@);
        let ghost spawn_pre = spawn@;
        let f = files[i].clone();
        proof {
            assert(f@ == pv[i as int]);
            assert(pv.take(i as int + 1).drop_last() =~= pv.take(i as int));
            assert(pv.take(i as int + 1).last() == pv[i as int]);
        }
        let newly = reg.try_register(f.clone());
        if newly {
            spawn.push(f);
            proof {
                assert(path_views(spawn@) =~= path_views(spawn_pre).push(pv[i as int]));
            }
        }
        i = i + 1;
    }
    proof {
        assert(path_views(files@).take(n as int) =~= path_views(files@));
    }
    spawn
}

/// Run discovery on one classified path and register every result; the
/// returned paths are exactly the newly registered ones, the ones to spawn a
/// tail task for.
pub fn handle_event(reg: &mut WatchRegistry, info: &PathInfo, depth: u64) -> (spawn: Vec<String>)
    requires
        old(reg).wf(),
    ensures
        final(reg).wf(),
        final(reg)@ == reg_after(old(reg)@, discovered_of(*info, depth as int)),
        path_views(spawn@) == spawned(old(reg)@, discovered_of(*info, depth as int)),
{
    match info {
        PathInfo::Absent => {
            let spawn: Vec<String> = Vec::new();
            proof {
                assert(path_views(spawn@) =~= Seq::<Seq<char>>::empty());
            }
            spawn
        },
        PathInfo::RegularFile { canon } => {
            let mut files: Vec<String> = Vec::new();
            files.push(canon.clone());
            proof {
                assert(path_views(files@) =~= seq![canon@]);
            }
            register_batch(reg, files)
        },
        PathInfo::Directory { canon, snapshot } => {
            let files = discover(canon, snapshot, depth);
            register_batch(reg, files)
        },
    }
}

/// Law: one registration batch grows the registry by exactly the paths it
/// spawns; the spawned paths are pairwise distinct and none was registered
/// before.
pub proof fn lemma_batch_spawns_fresh(reg: Seq<Seq<char>>, paths: Seq<Seq<char>>)
    ensures
        reg_after(reg, paths) == reg + spawned(reg, paths),
        spawned(reg, paths).no_duplicates(),
        forall|p: Seq<char>| spawned(reg, paths).contains(p) ==> !reg.contains(p),
    decreases paths.len(),
{
    if paths.len() == 0 {
        assert(reg_after(reg, paths) =~= reg + spawned(reg, paths));
    } else {
        let pre = paths.drop_last();
        let p = paths.last();
        lemma_batch_spawns_fresh(reg, pre);
        let r = reg_after(reg, pre);
        let s = spawned(reg, pre);
        if r.contains(p) {
        } else {
            assert(reg_after(reg, paths) =~= reg + s.push(p));
            assert(forall|q: Seq<char>| s.push(p).contains(q) ==> s.contains(q) || q == p);
            assert(!reg.contains(p)) by {
                assert(r.contains(p) || !reg.contains(p)) by {
                    if reg.contains(p) {
                        let k = choose|k: int| 0 <= k < reg.len() && reg[k] == p;
                        assert(r[k] == p);
                    }
                }
            }
            assert(!s.contains(p)) by {
                if s.contains(p) {
                    let k = choose|k: int| 0 <= k < s.len() && s[k] == p;
                    assert(r[reg.len() + k] == p);
                }
            }
        }
    }
}

/// Law: every path attempted in a batch is registered afterwards, and
/// whatever was registered before stays registered.
pub proof fn lemma_batch_registers_all(reg: Seq<Seq<char>>, paths: Seq<Seq<char>>)
    ensures
        forall|p: Seq<char>| paths.contains(p) ==> #[trigger] reg_after(reg, paths).contains(p),
        forall|p: Seq<char>| reg.contains(p) ==> #[trigger] reg_after(reg, paths).contains(p),
    decreases paths.len(),
{
    if paths.len() > 0 {
        let pre = paths.drop_last();
        lemma_batch_registers_all(reg, pre);
        let r = reg_after(reg, pre);
        assert forall|p: Seq<char>| paths.contains(p) implies #[trigger] reg_after(
            reg,
            paths,
        ).contains(p) by {
            let k = choose|k: int| 0 <= k < paths.len() && paths[k] == p;
            if k < pre.len() {
                assert(pre[k] == p);
                assert(pre.contains(p));
                assert(r.contains(p));
                lemma_contains_after_one(reg, paths, p);
            } else {
                assert(p == paths.last());
                if r.contains(p) {
                    lemma_contains_after_one(reg, paths, p);
                } else {
                    assert(reg_after(reg, paths).last() == p);
                }
            }
        }
        assert forall|p: Seq<char>| reg.contains(p) implies #[trigger] reg_after(
            reg,
            paths,
        ).contains(p) by {
            assert(r.contains(p));
            lemma_contains_after_one(reg, paths, p);
        }
    }
}

/// A path registered before the last attempt of a batch is still registered
/// after it.
proof fn lemma_contains_after_one(reg: Seq<Seq<char>>, paths: Seq<Seq<char>>, p: Seq<char>)
    requires
        paths.len() > 0,
        reg_after(reg, paths.drop_last()).contains(p),
    ensures
        reg_after(reg, paths).contains(p),
{
    let r = reg_after(reg, paths.drop_last());
    let k = choose|k: int| 0 <= k < r.len() && r[k] == p;
    if !r.contains(paths.last()) {
        assert(reg_after(reg, paths)[k] == p);
    }
}

/// The registry contents after a whole run: each batch of discovered paths
/// attempted in order, batch after batch.
pub open spec fn reg_after_batches(reg: Seq<Seq<char>>, batches: Seq<Seq<Seq<char>>>) -> Seq<
    Seq<char>,
>
    decreases batches.len(),
{
    if batches.len() == 0 {
        reg
    } else {
        reg_after(reg_after_batches(reg, batches.drop_last()), batches.last())
    }
}

/// Every path spawned over a whole run, in spawn order.
pub open spec fn spawned_batches(reg: Seq<Seq<char>>, batches: Seq<Seq<Seq<char>>>) -> Seq<
    Seq<char>,
>
    decreases batches.len(),
{
    if batches.len() == 0 {
        Seq::<Seq<char>>::empty()
    } else {
        spawned_batches(reg, batches.drop_last()) + spawned(
            reg_after_batches(reg, batches.drop_last()),
            batches.last(),
        )
    }
}

/// Law: over the life of the process — any sequence of discovery batches,
/// near-simultaneous duplicates included — the spawned paths are pairwise
/// distinct: each unique canonical path gets at most one tail task, and none
/// that was already registered at the start.
pub proof fn lemma_one_task_per_path(reg: Seq<Seq<char>>, batches: Seq<Seq<Seq<char>>>)
    ensures
        reg_after_batches(reg, batches) == reg + spawned_batches(reg, batches),
        spawned_batches(reg, batches).no_duplicates(),
        forall|p: Seq<char>| spawned_batches(reg, batches).contains(p) ==> !reg.contains(p),
    decreases batches.len(),
{
    if batches.len() == 0 {
        assert(reg_after_batches(reg, batches) =~= reg + spawned_batches(reg, batches));
    } else {
        let pre = batches.drop_last();
        lemma_one_task_per_path(reg, pre);
        let r = reg_after_batches(reg, pre);
        let s1 = spawned_batches(reg, pre);
        lemma_batch_spawns_fresh(r, batches.last());
        let s2 = spawned(r, batches.last());
        let all = spawned_batches(reg, batches);
        assert(all == s1 + s2);
        assert(reg_after_batches(reg, batches) =~= reg + all);
        assert forall|p: Seq<char>| s2.contains(p) implies !s1.contains(p) && !reg.contains(
            p,
        ) by {
            assert(!r.contains(p));
            if s1.contains(p) {
                let k = choose|k: int| 0 <= k < s1.len() && s1[k] == p;
                assert(r[reg.len() + k] == p);
            }
            if reg.contains(p) {
                let k = choose|k: int| 0 <= k < reg.len() && reg[k] == p;
                assert(r[k] == p);
            }
        }
        assert(all.no_duplicates()) by {
            assert forall|i: int, j: int| 0 <= i < j < all.len() implies all[i] != all[j] by {
                if i < s1.len() && j >= s1.len() {
                    assert(s2.contains(all[j])) by {
                        assert(s2[j - s1.len()] == all[j]);
                    }
                    assert(s1.contains(all[i])) by {
                        assert(s1[i] == all[i]);
                    }
                }
            }
        }
        assert forall|p: Seq<char>| all.contains(p) implies !reg.contains(p) by {
            let k = choose|k: int| 0 <= k < all.len() && all[k] == p;
            if k < s1.len() {
                assert(s1[k] == p);
            } else {
                assert(s2[k - s1.len()] == p);
            }
        }
    }
}

/// Law: running discovery twice over the same paths spawns nothing the
/// second time and leaves the registry as the first run left it —
/// registration, not discovery, enforces uniqueness.
pub proof fn lemma_second_run_is_noop(reg: Seq<Seq<char>>, paths: Seq<Seq<char>>)
    ensures
        spawned(reg_after(reg, paths), paths) == Seq::<Seq<char>>::empty(),
        reg_after(reg_after(reg, paths), paths) == reg_after(reg, paths),
{
    lemma_batch_registers_all(reg, paths);
    lemma_rerun_spawns_nothing(reg_after(reg, paths), paths);
}

/// Law: registration attempts for paths that all stand in the registry
/// spawn nothing and change nothing.
pub proof fn lemma_rerun_spawns_nothing(reg: Seq<Seq<char>>, paths: Seq<Seq<char>>)
    requires
        forall|p: Seq<char>| paths.contains(p) ==> reg.contains(p),
    ensures
        spawned(reg, paths) == Seq::<Seq<char>>::empty(),
        reg_after(reg, paths) == reg,
    decreases paths.len(),
{
    if paths.len() > 0 {
        let pre = paths.drop_last();
        assert(forall|p: Seq<char>| pre.contains(p) ==> paths.contains(p)) by {
            assert forall|p: Seq<char>| pre.contains(p) implies paths.contains(p) by {
                let k = choose|k: int| 0 <= k < pre.len() && pre[k] == p;
                assert(paths[k] == p);
            }
        }
        lemma_rerun_spawns_nothing(reg, pre);
        assert(paths.contains(paths.last())) by {
            assert(paths[paths.len() - 1] == paths.last());
        }
        assert(reg.contains(paths.last()));
    }
}

} // verus!
