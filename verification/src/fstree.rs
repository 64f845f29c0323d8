//! Depth-bounded discovery of regular files under a root path.
//!
//! Discovery works on a snapshot of the directory tree: the surrounding
//! program reads the filesystem into an [`FsNode`] (skipping entries it could
//! not read and entries that are neither regular files nor directories), and
//! [`discover`] walks that snapshot. Depth 1 keeps the immediate children
//! only; depth `n` keeps `n` levels of nesting. A root that is itself a
//! regular file yields exactly its own path. Discovery never deduplicates:
//! that is the registry's job.

use vstd::prelude::*;

verus! {

/// A snapshot of part of the filesystem: a regular file, or a directory with
/// the entries that could be read under it.
pub enum FsNode {
    RegularFile { name: String },
    Directory { name: String, entries: Vec<FsNode> },
}

/// The views of a vector of path strings, in order.
pub open spec fn path_views(v: Seq<String>) -> Seq<Seq<char>> {
    v.map_values(|p: String| p@)
}

/// The entry's own file or directory name.
pub open spec fn node_name(node: FsNode) -> Seq<char> {
    match node {
        FsNode::RegularFile { name } => name@,
        FsNode::Directory { name, .. } => name@,
    }
}

/// The path of an entry that sits inside the directory at `dir_path`.
pub open spec fn child_path(dir_path: Seq<char>, node: FsNode) -> Seq<char> {
    dir_path + "/"@ + node_name(node)
}

/// The file paths a depth-bounded walk finds, in walk order. A regular file
/// is its own singleton whatever the depth; a directory contributes entries
/// only while `depth` is positive, each entry walked one level deeper.
pub open spec fn discover_node(path: Seq<char>, node: FsNode, depth: int) -> Seq<Seq<char>>
    decreases node,
{
    match node {
        FsNode::RegularFile { .. } => seq![path],
        FsNode::Directory { entries, .. } => {
            if depth <= 0 {
                Seq::empty()
            } else {
                discover_entries(path, entries@, depth - 1)
            }
        },
    }
}

/// The concatenation of the walks of `entries`, each rooted under `path`.
pub open spec fn discover_entries(path: Seq<char>, entries: Seq<FsNode>, depth: int) -> Seq<
    Seq<char>,
>
    decreases entries,
{
    if entries.len() == 0 {
        Seq::empty()
    } else {
        discover_entries(path, entries.drop_last(), depth) + discover_node(
            child_path(path, entries.last()),
            entries.last(),
            depth,
        )
    }
}

/// Every file under `node`, however deep, each with the level it sits at:
/// 0 for the root itself, 1 for immediate children, and so on.
pub open spec fn leveled_files(path: Seq<char>, node: FsNode) -> Seq<(Seq<char>, int)>
    decreases node,
{
    match node {
        FsNode::RegularFile { .. } => seq![(path, 0int)],
        FsNode::Directory { entries, .. } => leveled_entries(path, entries@),
    }
}

/// The leveled files of the entries of a directory, one level deeper each.
pub open spec fn leveled_entries(path: Seq<char>, entries: Seq<FsNode>) -> Seq<(Seq<char>, int)>
    decreases entries,
{
    if entries.len() == 0 {
        Seq::empty()
    } else {
        leveled_entries(path, entries.drop_last()) + one_deeper(
            leveled_files(child_path(path, entries.last()), entries.last()),
        )
    }
}

/// The same files, one level further down.
pub open spec fn one_deeper(s: Seq<(Seq<char>, int)>) -> Seq<(Seq<char>, int)> {
    s.map_values(|pr: (Seq<char>, int)| (pr.0, pr.1 + 1))
}

/// Holds of a leveled file that sits within `depth` levels.
pub open spec fn level_within(depth: int) -> spec_fn((Seq<char>, int)) -> bool {
    |pr: (Seq<char>, int)| pr.1 <= depth
}

/// The paths of a sequence of leveled files, levels forgotten.
pub open spec fn paths_of(s: Seq<(Seq<char>, int)>) -> Seq<Seq<char>> {
    s.map_values(|pr: (Seq<char>, int)| pr.0)
}

/// The entry's own name, as a string.
fn name_of(node: &FsNode) -> (name: &String)
    ensures
        name@ == node_name(*node),
{
    match node {
        FsNode::RegularFile { name } => name,
        FsNode::Directory { name, .. } => name,
    }
}

/// Walk the snapshot `node`, rooted at `path`, and return the regular files
/// found within `depth` levels, in walk order.
pub fn discover(path: &String, node: &FsNode, depth: u64) -> (files: Vec<String>)
    ensures
        path_views(files@) == discover_node(path@, *node, depth as int),
    decreases *node,
{
    match node {
        FsNode::RegularFile { .. } => {
            let mut files: Vec<String> = Vec::new();
            files.push(path.clone());
            proof {
                assert(path_views(files@) =~= seq![path@]);
            }
            files
        },
        FsNode::Directory { entries, .. } => {
            let mut files: Vec<String> = Vec::new();
            if depth == 0 {
                proof {
                    assert(path_views(files@) =~= Seq::<Seq<char>>::empty());
                }
                return files;
            }
            let n = entries.len();
            let mut i: usize = 0;
            while i < n
                invariant
                    i <= n,
                    n == entries.len(),
                    1 <= depth,
                    *node == (FsNode::Directory { name: node->Directory_name, entries: *entries }),
                    path_views(files@) == discover_entries(
                        path@,
                        entries@.take(i as int),
                        depth as int - 1,
                    ),
                decreases n - i,
            {
                let e = &entries[i];
                let mut child = path.clone();
                child.append("/");
                child.append(name_of(e).as_str());
                proof {
                    assert(child@ == child_path(path@, *e));
                    assert(decreases_to!(*node => node->Directory_entries));
                    assert(node->Directory_entries == *entries);
                    assert(decreases_to!(*entries => entries@));
                    assert(decreases_to!(entries@ => entries@[i as int]));
                }
                let mut sub = discover(&child, e, depth - 1);
                let ghost files_pre = files@;
                files.append(&mut sub);
                proof {
                    let prefix = entries@.take(i as int);
                    let step = entries@.take(i as int + 1);
                    assert(step.drop_last() =~= prefix);
                    assert(step.last() == entries@[i as int]);
                    assert(path_views(files@) =~= path_views(files_pre) + path_views(
                        files@.subrange(files_pre.len() as int, files@.len() as int),
                    ));
                    assert(path_views(files@) =~= discover_entries(
                        path@,
                        step,
                        depth as int - 1,
                    ));
                }
                i = i + 1;
            }
            proof {
                assert(entries@.take(n as int) =~= entries@);
            }
            files
        },
    }
}

/// Nothing passes a filter that holds of no element.
proof fn lemma_filter_none<A>(s: Seq<A>, pred: spec_fn(A) -> bool)
    requires
        forall|i: int| 0 <= i < s.len() ==> !pred(#[trigger] s[i]),
    ensures
        s.filter(pred) == Seq::<A>::empty(),
    decreases s.len(),
{
    reveal(Seq::filter);
    if s.len() > 0 {
        lemma_filter_none(s.drop_last(), pred);
        assert(!pred(s.last()));
    }
}

/// Forgetting levels distributes over concatenation.
proof fn lemma_paths_of_add(a: Seq<(Seq<char>, int)>, b: Seq<(Seq<char>, int)>)
    ensures
        paths_of(a + b) == paths_of(a) + paths_of(b),
{
    assert(paths_of(a + b) =~= paths_of(a) + paths_of(b));
}

/// Pushing everything one level down turns the bound `depth + 1` into the
/// bound `depth`.
proof fn lemma_one_deeper_filter(s: Seq<(Seq<char>, int)>, depth: int)
    ensures
        one_deeper(s).filter(level_within(depth + 1)) == one_deeper(
            s.filter(level_within(depth)),
        ),
    decreases s.len(),
{
    reveal(Seq::filter);
    if s.len() == 0 {
        assert(one_deeper(s).filter(level_within(depth + 1)) =~= one_deeper(
            s.filter(level_within(depth)),
        ));
    } else {
        lemma_one_deeper_filter(s.drop_last(), depth);
        assert(one_deeper(s).drop_last() =~= one_deeper(s.drop_last()));
        assert(one_deeper(s).last() == (s.last().0, s.last().1 + 1));
        if level_within(depth)(s.last()) {
            assert(one_deeper(s.filter(level_within(depth))) =~= one_deeper(
                s.drop_last().filter(level_within(depth)),
            ).push((s.last().0, s.last().1 + 1)));
        } else {
            assert(one_deeper(s.filter(level_within(depth))) =~= one_deeper(
                s.drop_last().filter(level_within(depth)),
            ));
        }
    }
}

/// Every file of a directory's entries sits at level 1 or deeper; every
/// leveled file sits at level 0 or deeper.
proof fn lemma_levels_nonneg(path: Seq<char>, node: FsNode)
    ensures
        forall|i: int|
            0 <= i < leveled_files(path, node).len() ==> (#[trigger] leveled_files(path, node)[i]).1
                >= 0,
    decreases node,
{
    match node {
        FsNode::RegularFile { .. } => {
            assert(leveled_files(path, node)[0] == (path, 0int));
        },
        FsNode::Directory { entries, .. } => {
            lemma_entry_levels_positive(path, entries@);
            assert forall|i: int| 0 <= i < leveled_files(path, node).len() implies (
            #[trigger] leveled_files(path, node)[i]).1 >= 0 by {
                assert(leveled_files(path, node)[i] == leveled_entries(path, entries@)[i]);
            }
        },
    }
}

/// See [`lemma_levels_nonneg`].
proof fn lemma_entry_levels_positive(path: Seq<char>, entries: Seq<FsNode>)
    ensures
        forall|i: int|
            0 <= i < leveled_entries(path, entries).len() ==> (#[trigger] leveled_entries(
                path,
                entries,
            )[i]).1 >= 1,
    decreases entries,
{
    if entries.len() > 0 {
        lemma_entry_levels_positive(path, entries.drop_last());
        let cp = child_path(path, entries.last());
        lemma_levels_nonneg(cp, entries.last());
        let deep = one_deeper(leveled_files(cp, entries.last()));
        assert forall|i: int| 0 <= i < leveled_entries(path, entries).len() implies (
        #[trigger] leveled_entries(path, entries)[i]).1 >= 1 by {
            let pre = leveled_entries(path, entries.drop_last());
            if i >= pre.len() {
                assert(leveled_entries(path, entries)[i] == deep[i - pre.len()]);
            }
        }
    }
}

/// Law: a depth-bounded walk returns exactly the files that sit within
/// `depth` levels of the root, in walk order — never one from deeper down.
pub proof fn lemma_depth_bound(path: Seq<char>, node: FsNode, depth: int)
    requires
        depth >= 0,
    ensures
        discover_node(path, node, depth) == paths_of(
            leveled_files(path, node).filter(level_within(depth)),
        ),
    decreases node,
{
    reveal(Seq::filter);
    match node {
        FsNode::RegularFile { .. } => {
            let s = seq![(path, 0int)];
            assert(s.drop_last() =~= Seq::<(Seq<char>, int)>::empty());
            assert(s.filter(level_within(depth)) =~= s);
            assert(discover_node(path, node, depth) =~= paths_of(s));
        },
        FsNode::Directory { entries, .. } => {
            if depth == 0 {
                lemma_entry_levels_positive(path, entries@);
                lemma_filter_none(leveled_entries(path, entries@), level_within(0));
                assert(paths_of(Seq::<(Seq<char>, int)>::empty()) =~= Seq::<Seq<char>>::empty());
            } else {
                lemma_depth_bound_entries(path, entries@, depth - 1);
            }
        },
    }
}

/// See [`lemma_depth_bound`]: the entries of a directory walked with budget
/// `depth` are the entry files within `depth + 1` levels of the directory.
proof fn lemma_depth_bound_entries(path: Seq<char>, entries: Seq<FsNode>, depth: int)
    requires
        depth >= 0,
    ensures
        discover_entries(path, entries, depth) == paths_of(
            leveled_entries(path, entries).filter(level_within(depth + 1)),
        ),
    decreases entries,
{
    reveal(Seq::filter);
    if entries.len() == 0 {
        assert(leveled_entries(path, entries).filter(level_within(depth + 1)) =~= Seq::<
            (Seq<char>, int),
        >::empty());
        assert(paths_of(Seq::<(Seq<char>, int)>::empty()) =~= Seq::<Seq<char>>::empty());
    } else {
        let pre = entries.drop_last();
        let e = entries.last();
        let cp = child_path(path, e);
        lemma_depth_bound_entries(path, pre, depth);
        lemma_depth_bound(cp, e, depth);
        let lifted = one_deeper(leveled_files(cp, e));
        Seq::filter_distributes_over_add(
            leveled_entries(path, pre),
            lifted,
            level_within(depth + 1),
        );
        lemma_one_deeper_filter(leveled_files(cp, e), depth);
        lemma_paths_of_add(
            leveled_entries(path, pre).filter(level_within(depth + 1)),
            one_deeper(leveled_files(cp, e).filter(level_within(depth))),
        );
        assert(paths_of(one_deeper(leveled_files(cp, e).filter(level_within(depth)))) =~= paths_of(
            leveled_files(cp, e).filter(level_within(depth)),
        ));
    }
}

} // verus!
