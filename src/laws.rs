//! What holds of the pipeline across its stages.

use vstd::prelude::*;
use crate::paths::{joined, lemma_join_stripped, lemma_strip_joined, lemma_strip_nested, lies_under, stripped};
use crate::pattern::regex_replace_first;
use crate::raider::{
    Phase, RepoRaider, commit_recorded, dir_actions, page_stages, plan, replaced_match, replaced_tree,
    replacement, tree_wf,
};
use crate::steps::ActionView;
use crate::structs::DirectoryView;

verus! {

/// Every page of a well-formed tree records its path with the root taken off;
/// joining that relative path back onto the root gives the path, taking the
/// root off again gives the same relative path, and it lies inside its
/// directory's relative path.
pub proof fn law_relative_paths(root: Seq<char>, dirs: Seq<DirectoryView>, d: int, p: int)
    requires
        tree_wf(root, dirs),
        0 <= d < dirs.len(),
        0 <= p < dirs[d].pages.len(),
    ensures
        dirs[d].pages[p].relative_path == stripped(root, dirs[d].pages[p].path),
        joined(root, dirs[d].pages[p].relative_path) == dirs[d].pages[p].path,
        stripped(root, joined(root, dirs[d].pages[p].relative_path)) == dirs[d].pages[p].relative_path,
        lies_under(dirs[d].relative_path, dirs[d].pages[p].relative_path),
{
    let page = dirs[d].pages[p];
    lemma_join_stripped(root, page.path);
    lemma_strip_joined(root, page.relative_path);
    lemma_strip_nested(root, dirs[d].path, page.path);
}

/// A match carries a replacement exactly when the substituted line differs
/// from the line, and then the replacement is that substituted line.
pub proof fn law_replacement_differs(select: Seq<char>, content: Seq<char>, template: Seq<char>)
    ensures
        replacement(select, content, template) is Some <==> regex_replace_first(select, content, template)
            != content,
        replacement(select, content, template) matches Some(r) ==> r == regex_replace_first(
            select,
            content,
            template,
        ) && r != content,
{
}

/// Where no substitution changes any matched line, the tree after replacing
/// stages nothing and commits nothing.
pub proof fn law_unchanged_lines_commit_nothing(
    dirs: Seq<DirectoryView>,
    select: Seq<char>,
    template: Seq<char>,
)
    requires
        forall|d: int, p: int, k: int|
            0 <= d < dirs.len() && 0 <= p < dirs[d].pages.len() && 0 <= k
                < dirs[d].pages[p].matches.len() ==> regex_replace_first(
                select,
                #[trigger] dirs[d].pages[p].matches[k].content,
                template,
            ) == dirs[d].pages[p].matches[k].content,
    ensures
        forall|i: int|
            0 <= i < plan(Phase::Stage, replaced_tree(dirs, select, template), dirs.len() as int).len()
                ==> !(#[trigger] plan(Phase::Stage, replaced_tree(dirs, select, template), dirs.len() as int)[i] is Stage),
        forall|i: int|
            0 <= i < plan(Phase::Commit, replaced_tree(dirs, select, template), dirs.len() as int).len()
                ==> !(#[trigger] plan(Phase::Commit, replaced_tree(dirs, select, template), dirs.len() as int)[i] is Commit),
{
    let t = replaced_tree(dirs, select, template);
    assert forall|d: int| 0 <= d < t.len() implies !(#[trigger] t[d]).has_changes() by {
        assert forall|p: int| 0 <= p < t[d].pages.len() implies !(#[trigger] t[d].pages[p]).has_changes() by {
            assert forall|k: int| 0 <= k < t[d].pages[p].matches.len() implies (
            #[trigger] t[d].pages[p].matches[k]).replace is None by {
                assert(t[d].pages[p].matches[k] == replaced_match(dirs[d].pages[p].matches[k], select, template));
            }
        }
    }
    lemma_quiet_plans(t, dirs.len() as int);
}

/// A tree without pending changes stages nothing and commits nothing.
proof fn lemma_quiet_plans(dirs: Seq<DirectoryView>, n: int)
    requires
        0 <= n <= dirs.len(),
        forall|d: int| 0 <= d < dirs.len() ==> !(#[trigger] dirs[d]).has_changes(),
    ensures
        forall|i: int| 0 <= i < plan(Phase::Stage, dirs, n).len() ==> !(#[trigger] plan(Phase::Stage, dirs, n)[i] is Stage),
        forall|i: int| 0 <= i < plan(Phase::Commit, dirs, n).len() ==> !(#[trigger] plan(Phase::Commit, dirs, n)[i] is Commit),
    decreases n,
{
    if n > 0 {
        lemma_quiet_plans(dirs, n - 1);
        let d = dirs[n - 1];
        lemma_quiet_pages(d, (n - 1) as nat, d.pages.len() as int);
        let s0 = plan(Phase::Stage, dirs, n - 1);
        let s1 = dir_actions(Phase::Stage, d, (n - 1) as nat);
        assert forall|i: int| 0 <= i < (s0 + s1).len() implies !(#[trigger] (s0 + s1)[i] is Stage) by {
            if i >= s0.len() {
                assert((s0 + s1)[i] == s1[i - s0.len()]);
            }
        }
        let c0 = plan(Phase::Commit, dirs, n - 1);
        let c1 = dir_actions(Phase::Commit, d, (n - 1) as nat);
        assert forall|i: int| 0 <= i < (c0 + c1).len() implies !(#[trigger] (c0 + c1)[i] is Commit) by {
            if i >= c0.len() {
                assert((c0 + c1)[i] == c1[i - c0.len()]);
            }
        }
    }
}

proof fn lemma_quiet_pages(d: DirectoryView, i: nat, n: int)
    requires
        n <= d.pages.len(),
        !d.has_changes(),
    ensures
        page_stages(d, i, n) == Seq::<ActionView>::empty(),
    decreases n,
{
    if n > 0 {
        lemma_quiet_pages(d, i, n - 1);
        assert(!d.pages[n - 1].has_changes());
    }
}

/// A dry run decides exactly what a real run over the same tree decides: the
/// steps of each stage are the same, and they differ only in their mark, which
/// tells the caller to report them instead of performing them. Its simulated
/// commits count as a real run's successful ones.
pub proof fn law_dry_run_decides_alike(
    dry: RepoRaider,
    live: RepoRaider,
    phase: Phase,
    d: int,
    succeeded: bool,
)
    requires
        dry.dry_run,
        !live.dry_run,
        dry.dirs_view() == live.dirs_view(),
        0 <= d < dry.dirs@.len(),
    ensures
        plan(phase, dry.dirs_view(), dry.dirs@.len() as int) == plan(
            phase,
            live.dirs_view(),
            live.dirs@.len() as int,
        ),
        commit_recorded(dry.dirs_view()[d], succeeded, dry.dry_run) == commit_recorded(
            live.dirs_view()[d],
            true,
            live.dry_run,
        ),
{
    assert(dry.dirs@.len() == dry.dirs_view().len());
    assert(live.dirs@.len() == live.dirs_view().len());
}

/// The tree after a commit in directory `i` that failed in a real run.
pub open spec fn after_failed_commit(dirs: Seq<DirectoryView>, i: int) -> Seq<DirectoryView> {
    dirs.update(i, DirectoryView { committed: commit_recorded(dirs[i], false, false), ..dirs[i] })
}

/// A failed commit in directory `i` changes nothing that the other
/// directories do: staging and committing are decided as before, every other
/// directory pushes as before, and directory `i` no longer pushes.
pub proof fn law_failure_isolated(dirs: Seq<DirectoryView>, i: int)
    requires
        0 <= i < dirs.len(),
    ensures
        plan(Phase::Stage, after_failed_commit(dirs, i), dirs.len() as int) == plan(
            Phase::Stage,
            dirs,
            dirs.len() as int,
        ),
        plan(Phase::Commit, after_failed_commit(dirs, i), dirs.len() as int) == plan(
            Phase::Commit,
            dirs,
            dirs.len() as int,
        ),
        forall|j: int|
            0 <= j < dirs.len() && j != i ==> #[trigger] dir_actions(
                Phase::Push,
                after_failed_commit(dirs, i)[j],
                j as nat,
            ) == dir_actions(Phase::Push, dirs[j], j as nat),
        dir_actions(Phase::Push, after_failed_commit(dirs, i)[i], i as nat) == Seq::<ActionView>::empty(),
{
    let after = after_failed_commit(dirs, i);
    lemma_commit_flag_ignored(after, dirs, Phase::Stage, dirs.len() as int);
    lemma_commit_flag_ignored(after, dirs, Phase::Commit, dirs.len() as int);
}

/// The directories of `a` and `b` differ at most in their active branch and in
/// whether they were committed.
pub open spec fn alike_but_status(a: Seq<DirectoryView>, b: Seq<DirectoryView>) -> bool {
    &&& a.len() == b.len()
    &&& forall|d: int|
        0 <= d < a.len() ==> (#[trigger] a[d]).pages == b[d].pages && a[d].repo == b[d].repo
            && a[d].relative_path == b[d].relative_path
}

/// Staging and committing do not look at the active branch or at whether a
/// directory was committed.
proof fn lemma_commit_flag_ignored(a: Seq<DirectoryView>, b: Seq<DirectoryView>, phase: Phase, n: int)
    requires
        phase != Phase::Push,
        0 <= n <= a.len(),
        alike_but_status(a, b),
    ensures
        plan(phase, a, n) == plan(phase, b, n),
    decreases n,
{
    if n > 0 {
        lemma_commit_flag_ignored(a, b, phase, n - 1);
        let x = a[n - 1];
        let y = b[n - 1];
        lemma_page_stages_alike(x, y, (n - 1) as nat, x.pages.len() as int);
    }
}

proof fn lemma_page_stages_alike(x: DirectoryView, y: DirectoryView, i: nat, n: int)
    requires
        x.pages == y.pages,
        x.relative_path == y.relative_path,
        n <= x.pages.len(),
    ensures
        page_stages(x, i, n) == page_stages(y, i, n),
    decreases n,
{
    if n > 0 {
        lemma_page_stages_alike(x, y, i, n - 1);
    }
}

/// A page without a pending change, for instance one whose substitutions all
/// gave back the line, is not staged: every path staged in a directory is
/// that of another page, one with a pending change.
pub proof fn law_no_op_page_not_staged(d: DirectoryView, i: nat, p: int, n: int, k: int)
    requires
        0 <= p < d.pages.len(),
        !d.pages[p].has_changes(),
        0 <= n <= d.pages.len(),
        0 <= k < page_stages(d, i, n).len(),
    ensures
        exists|q: int|
            0 <= q < n && q != p && (#[trigger] d.pages[q]).has_changes() && page_stages(d, i, n)[k]
                == (ActionView::Stage { dir: i, path: stripped(d.relative_path, d.pages[q].relative_path) }),
    decreases n,
{
    let prev = page_stages(d, i, n - 1);
    if k < prev.len() {
        law_no_op_page_not_staged(d, i, p, n - 1, k);
        let q = choose|q: int|
            0 <= q < n - 1 && q != p && (#[trigger] d.pages[q]).has_changes() && prev[k]
                == (ActionView::Stage { dir: i, path: stripped(d.relative_path, d.pages[q].relative_path) });
        assert(page_stages(d, i, n)[k] == prev[k]);
        assert(d.pages[q].has_changes());
    } else {
        assert(d.pages[n - 1].has_changes());
        assert(n - 1 != p);
    }
}

/// The tree after recording that `branch` was checked out in directory `k`.
pub open spec fn after_checkout(dirs: Seq<DirectoryView>, k: int, branch: Seq<char>) -> Seq<DirectoryView> {
    dirs.update(k, DirectoryView { branch: Some(branch), ..dirs[k] })
}

/// Checking out a branch in one directory changes nothing that any directory
/// stages, commits or pushes. A checkout that failed is not recorded at all,
/// so it changes nothing either; and since `stage`, `commit` and
/// `remote_push` hand out all their steps before any is performed, a failed
/// step cannot change the steps of other pages or directories.
pub proof fn law_checkout_isolated(dirs: Seq<DirectoryView>, k: int, branch: Seq<char>)
    requires
        0 <= k < dirs.len(),
    ensures
        plan(Phase::Stage, after_checkout(dirs, k, branch), dirs.len() as int) == plan(
            Phase::Stage,
            dirs,
            dirs.len() as int,
        ),
        plan(Phase::Commit, after_checkout(dirs, k, branch), dirs.len() as int) == plan(
            Phase::Commit,
            dirs,
            dirs.len() as int,
        ),
        plan(Phase::Push, after_checkout(dirs, k, branch), dirs.len() as int) == plan(
            Phase::Push,
            dirs,
            dirs.len() as int,
        ),
{
    let after = after_checkout(dirs, k, branch);
    lemma_commit_flag_ignored(after, dirs, Phase::Stage, dirs.len() as int);
    lemma_commit_flag_ignored(after, dirs, Phase::Commit, dirs.len() as int);
    lemma_push_alike(after, dirs, dirs.len() as int);
}

/// Pushing looks only at whether each directory was committed.
proof fn lemma_push_alike(a: Seq<DirectoryView>, b: Seq<DirectoryView>, n: int)
    requires
        0 <= n <= a.len(),
        a.len() == b.len(),
        forall|d: int| 0 <= d < a.len() ==> (#[trigger] a[d]).committed == b[d].committed,
    ensures
        plan(Phase::Push, a, n) == plan(Phase::Push, b, n),
    decreases n,
{
    if n > 0 {
        lemma_push_alike(a, b, n - 1);
    }
}

} // verus!
