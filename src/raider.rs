//! The pipeline over the whole tree: discovery, matching, replacing, and the
//! decisions behind applying, staging, committing and pushing.
//!
//! Reading and writing files and talking to repositories are left to the
//! caller: each stage here either takes what was read as an argument or hands
//! back the steps to perform, each marked with whether the run is a dry run.

use vstd::prelude::*;
use crate::paths::{lemma_strip_nested, lemma_under_chain, lies_under, stripped, strip_base};
use crate::pattern::{Pattern, regex_finds, regex_replace_first};
use crate::structs::{Directory, DirectoryView, Match, MatchView, Page, PageRef, PageView, opt_view};
use crate::steps::{Action, ActionView, Step, actions, all_marked};
use crate::text::{replace_first, replace_once};

verus! {

/// The orchestrator: the root of the scan and the repositories found below it.
pub struct RepoRaider {
    /// The absolute path the scan starts from.
    pub path: String,
    pub dirs: Vec<Directory>,
    /// Whether writes to files and repositories are to be reported, not made.
    pub dry_run: bool,
}

pub open spec fn dirs_view(v: Seq<Directory>) -> Seq<DirectoryView> {
    v.map_values(|d: Directory| d@)
}

pub open spec fn lines_view(v: Seq<Option<String>>) -> Seq<Option<Seq<char>>> {
    v.map_values(|o: Option<String>| opt_view(o))
}

/// A freshly discovered directory.
pub open spec fn new_dir(root: Seq<char>, path: Seq<char>, repo: bool) -> DirectoryView {
    DirectoryView {
        path,
        repo,
        pages: seq![],
        relative_path: stripped(root, path),
        branch: None,
        committed: false,
    }
}

/// A freshly discovered page.
pub open spec fn new_page(root: Seq<char>, path: Seq<char>) -> PageView {
    PageView { path, matches: seq![], relative_path: stripped(root, path) }
}

/// The pages discovered at `found`, in order.
pub open spec fn discovered_pages(root: Seq<char>, found: Seq<Seq<char>>) -> Seq<PageView> {
    found.map_values(|f: Seq<char>| new_page(root, f))
}

/// The matches of the content pattern `pat` in `lines`, in line order. A line
/// that could not be decoded (`None`) is skipped.
pub open spec fn line_matches(pat: Seq<char>, lines: Seq<Option<Seq<char>>>, at: PageRef) -> Seq<
    MatchView,
>
    decreases lines.len(),
{
    if lines.len() == 0 {
        seq![]
    } else {
        let prev = line_matches(pat, lines.drop_last(), at);
        match lines.last() {
            Some(t) => if regex_finds(pat, t) {
                prev.push(MatchView { line: (lines.len() - 1) as nat, content: t, replace: None, page: at })
            } else {
                prev
            },
            None => prev,
        }
    }
}

/// The numbers of the lines that could not be decoded, in order.
pub open spec fn undecoded_lines(lines: Seq<Option<Seq<char>>>) -> Seq<nat>
    decreases lines.len(),
{
    if lines.len() == 0 {
        seq![]
    } else {
        let prev = undecoded_lines(lines.drop_last());
        if lines.last() is None {
            prev.push((lines.len() - 1) as nat)
        } else {
            prev
        }
    }
}

/// `dir` with `pages` in place of its pages.
pub open spec fn with_pages(dir: DirectoryView, pages: Seq<PageView>) -> DirectoryView {
    DirectoryView { pages, ..dir }
}

/// `page` with `matches` in place of its matches.
pub open spec fn with_matches(page: PageView, matches: Seq<MatchView>) -> PageView {
    PageView { matches, ..page }
}

/// What substituting yields for a line: the new text, or `None` where it is
/// the line itself.
pub open spec fn replacement(select: Seq<char>, content: Seq<char>, template: Seq<char>) -> Option<
    Seq<char>,
> {
    let r = regex_replace_first(select, content, template);
    if r == content {
        None
    } else {
        Some(r)
    }
}

pub open spec fn replaced_match(m: MatchView, select: Seq<char>, template: Seq<char>) -> MatchView {
    MatchView { replace: replacement(select, m.content, template), ..m }
}

pub open spec fn replaced_page(p: PageView, select: Seq<char>, template: Seq<char>) -> PageView {
    with_matches(p, p.matches.map_values(|m: MatchView| replaced_match(m, select, template)))
}

pub open spec fn replaced_dir(d: DirectoryView, select: Seq<char>, template: Seq<char>) -> DirectoryView {
    with_pages(d, d.pages.map_values(|p: PageView| replaced_page(p, select, template)))
}

/// The tree after the replace stage: every match carries its replacement.
pub open spec fn replaced_tree(dirs: Seq<DirectoryView>, select: Seq<char>, template: Seq<char>) -> Seq<
    DirectoryView,
> {
    dirs.map_values(|d: DirectoryView| replaced_dir(d, select, template))
}

/// `contents` after each match with a replacement has had the first
/// occurrence of its line replaced, in the order of the matches.
pub open spec fn rewritten(contents: Seq<char>, ms: Seq<MatchView>) -> Seq<char>
    decreases ms.len(),
{
    if ms.len() == 0 {
        contents
    } else {
        let prev = rewritten(contents, ms.drop_last());
        match ms.last().replace {
            Some(r) => replace_first(prev, ms.last().content, r),
            None => prev,
        }
    }
}

/// The names among `names` that the branch pattern matches, in order.
pub open spec fn selected(pat: Seq<char>, names: Seq<Seq<char>>) -> Seq<Seq<char>>
    decreases names.len(),
{
    if names.len() == 0 {
        seq![]
    } else {
        let prev = selected(pat, names.drop_last());
        if regex_finds(pat, names.last()) {
            prev.push(names.last())
        } else {
            prev
        }
    }
}

/// The checkouts of the branches `names` in directory `dir`.
pub open spec fn checkouts(dir: nat, names: Seq<Seq<char>>) -> Seq<ActionView> {
    names.map_values(|b: Seq<char>| ActionView::Checkout { dir, branch: b })
}

/// The stages that act on each repository in turn.
#[derive(Clone, Copy, Debug, PartialEq, Eq, Structural)]
pub enum Phase {
    Stage,
    Commit,
    Push,
}

/// Staging the first `n` pages of directory `d`, number `i`: the changed ones,
/// by their path relative to the repository's root, which is the page's
/// relative path with the directory's relative path taken off.
pub open spec fn page_stages(d: DirectoryView, i: nat, n: int) -> Seq<ActionView>
    decreases n,
{
    if n <= 0 {
        seq![]
    } else {
        let prev = page_stages(d, i, n - 1);
        let page = d.pages[n - 1];
        if page.has_changes() {
            prev.push(ActionView::Stage { dir: i, path: stripped(d.relative_path, page.relative_path) })
        } else {
            prev
        }
    }
}

/// What `phase` does in directory `d`, number `i`. Staging and committing
/// report a directory without a repository; committing needs a pending
/// change; pushing needs a commit that succeeded.
pub open spec fn dir_actions(phase: Phase, d: DirectoryView, i: nat) -> Seq<ActionView> {
    match phase {
        Phase::Stage => if !d.repo {
            seq![ActionView::NotRepository { dir: i }]
        } else {
            page_stages(d, i, d.pages.len() as int)
        },
        Phase::Commit => if !d.repo {
            seq![ActionView::NotRepository { dir: i }]
        } else if d.has_changes() {
            seq![ActionView::Commit { dir: i }]
        } else {
            seq![]
        },
        Phase::Push => if d.committed {
            seq![ActionView::Push { dir: i }]
        } else {
            seq![]
        },
    }
}

/// What `phase` does in the first `n` directories, in order.
pub open spec fn plan(phase: Phase, dirs: Seq<DirectoryView>, n: int) -> Seq<ActionView>
    decreases n,
{
    if n <= 0 {
        seq![]
    } else {
        plan(phase, dirs, n - 1) + dir_actions(phase, dirs[n - 1], (n - 1) as nat)
    }
}

/// Whether a directory counts as committed after a commit that `succeeded`
/// or not: it needs a repository, and a dry run counts its simulated commit.
pub open spec fn commit_recorded(d: DirectoryView, succeeded: bool, dry_run: bool) -> bool {
    d.repo && (succeeded || dry_run)
}

/// The pages of the first `n` directories, in order.
pub open spec fn all_pages(dirs: Seq<DirectoryView>, n: int) -> Seq<PageView>
    decreases n,
{
    if n <= 0 {
        seq![]
    } else {
        all_pages(dirs, n - 1) + dirs[n - 1].pages
    }
}

/// The matches of the first `n` pages, in order.
pub open spec fn all_matches(pages: Seq<PageView>, n: int) -> Seq<MatchView>
    decreases n,
{
    if n <= 0 {
        seq![]
    } else {
        all_matches(pages, n - 1) + pages[n - 1].matches
    }
}

/// The tree's invariant: every path lies below the root and its relative
/// path is the path with the root taken off; pages lie inside their
/// directory; each match points back at its page and carries a replacement
/// only where it differs from the line.
pub open spec fn tree_wf(root: Seq<char>, dirs: Seq<DirectoryView>) -> bool {
    forall|d: int|
        0 <= d < dirs.len() ==> {
            let dir = #[trigger] dirs[d];
            &&& lies_under(root, dir.path)
            &&& dir.relative_path == stripped(root, dir.path)
            &&& dir.committed ==> dir.repo
            &&& forall|p: int|
                0 <= p < dir.pages.len() ==> {
                    let page = #[trigger] dir.pages[p];
                    &&& lies_under(root, page.path)
                    &&& lies_under(dir.path, page.path)
                    &&& page.relative_path == stripped(root, page.path)
                    &&& forall|k: int|
                        0 <= k < page.matches.len() ==> {
                            let m = #[trigger] page.matches[k];
                            &&& m.page == PageRef { dir: d as usize, page: p as usize }
                            &&& m.replace matches Some(r) ==> r != m.content
                        }
                }
        }
}

/// The matches found in a file point back at their page, in order, and carry
/// no replacement.
pub proof fn lemma_line_matches_wf(pat: Seq<char>, lines: Seq<Option<Seq<char>>>, at: PageRef)
    ensures
        forall|k: int|
            0 <= k < line_matches(pat, lines, at).len() ==> {
                let m = #[trigger] line_matches(pat, lines, at)[k];
                &&& m.page == at
                &&& m.replace is None
            },
    decreases lines.len(),
{
    if lines.len() > 0 {
        lemma_line_matches_wf(pat, lines.drop_last(), at);
    }
}

fn replace_match(m: &mut Match, select: &Pattern, template: &str)
    ensures
        final(m)@ == replaced_match(old(m)@, select@, template@),
{
    let r = select.replace_first(m.content.as_str(), template);
    if r == m.content {
        m.replace = None;
    } else {
        m.replace = Some(r);
    }
}

fn replace_page(page: &mut Page, select: &Pattern, template: &str)
    ensures
        final(page)@ == replaced_page(old(page)@, select@, template@),
{
    let ghost before = page.matches@;
    let mut k: usize = 0;
    while k < page.matches.len()
        invariant
            k <= page.matches@.len(),
            page.matches@.len() == before.len(),
            page.path == old(page).path,
            page.relative_path == old(page).relative_path,
            before == old(page).matches@,
            forall|j: int| 0 <= j < k ==> #[trigger] page.matches@[j]@ == replaced_match(before[j]@, select@, template@),
            forall|j: int| k <= j < before.len() ==> #[trigger] page.matches@[j] == before[j],
        decreases before.len() - k,
    {
        replace_match(&mut page.matches[k], select, template);
        k = k + 1;
    }
    assert(page@.matches =~= old(page)@.matches.map_values(|m: MatchView| replaced_match(m, select@, template@)));
}

fn replace_dir(dir: &mut Directory, select: &Pattern, template: &str)
    ensures
        final(dir)@ == replaced_dir(old(dir)@, select@, template@),
{
    let ghost before = dir.pages@;
    let mut p: usize = 0;
    while p < dir.pages.len()
        invariant
            p <= dir.pages@.len(),
            dir.pages@.len() == before.len(),
            dir.path == old(dir).path,
            dir.relative_path == old(dir).relative_path,
            dir.repo == old(dir).repo,
            dir.branch == old(dir).branch,
            dir.committed == old(dir).committed,
            before == old(dir).pages@,
            forall|j: int| 0 <= j < p ==> #[trigger] dir.pages@[j]@ == replaced_page(before[j]@, select@, template@),
            forall|j: int| p <= j < before.len() ==> #[trigger] dir.pages@[j] == before[j],
        decreases before.len() - p,
    {
        replace_page(&mut dir.pages[p], select, template);
        p = p + 1;
    }
    assert(dir@.pages =~= old(dir)@.pages.map_values(|pg: PageView| replaced_page(pg, select@, template@)));
}

/// Replacing keeps the tree's invariant.
pub proof fn lemma_replaced_tree_wf(root: Seq<char>, dirs: Seq<DirectoryView>, select: Seq<char>, template: Seq<char>)
    requires
        tree_wf(root, dirs),
    ensures
        tree_wf(root, replaced_tree(dirs, select, template)),
{
    let t = replaced_tree(dirs, select, template);
    assert forall|d: int| 0 <= d < t.len() implies {
        let dir = #[trigger] t[d];
        &&& lies_under(root, dir.path)
        &&& dir.relative_path == stripped(root, dir.path)
        &&& dir.committed ==> dir.repo
        &&& forall|p: int|
            0 <= p < dir.pages.len() ==> {
                let page = #[trigger] dir.pages[p];
                &&& lies_under(root, page.path)
                &&& lies_under(dir.path, page.path)
                &&& page.relative_path == stripped(root, page.path)
                &&& forall|k: int|
                    0 <= k < page.matches.len() ==> {
                        let m = #[trigger] page.matches[k];
                        &&& m.page == PageRef { dir: d as usize, page: p as usize }
                        &&& m.replace matches Some(r) ==> r != m.content
                    }
            }
    } by {
        let od = dirs[d];
        assert forall|p: int| 0 <= p < t[d].pages.len() implies {
            let page = #[trigger] t[d].pages[p];
            &&& lies_under(root, page.path)
            &&& lies_under(t[d].path, page.path)
            &&& page.relative_path == stripped(root, page.path)
            &&& forall|k: int|
                0 <= k < page.matches.len() ==> {
                    let m = #[trigger] page.matches[k];
                    &&& m.page == PageRef { dir: d as usize, page: p as usize }
                    &&& m.replace matches Some(r) ==> r != m.content
                }
        } by {
            let op = od.pages[p];
            assert forall|k: int| 0 <= k < t[d].pages[p].matches.len() implies {
                let m = #[trigger] t[d].pages[p].matches[k];
                &&& m.page == PageRef { dir: d as usize, page: p as usize }
                &&& m.replace matches Some(r) ==> r != m.content
            } by {
                assert(t[d].pages[p].matches[k] == replaced_match(op.matches[k], select, template));
            }
        }
    }
}

/// The checkouts to perform in one directory.
pub struct CheckoutPlan {
    pub steps: Vec<Step>,
    /// More than one branch matched: checking them out in turn leaves the last active.
    pub ambiguous: bool,
}

impl RepoRaider {
    pub open spec fn dirs_view(&self) -> Seq<DirectoryView> {
        dirs_view(self.dirs@)
    }

    pub open spec fn wf(&self) -> bool {
        tree_wf(self.path@, self.dirs_view())
    }

    /// A raider over the tree at `path`, which the caller has made absolute.
    pub fn new(path: String, dry_run: bool) -> (r: Self)
        ensures
            r.wf(),
            r.path == path,
            r.dirs@.len() == 0,
            r.dry_run == dry_run,
    {
        RepoRaider { path, dirs: Vec::new(), dry_run }
    }

    fn discover(&self, found: &Vec<String>, opened: &Vec<bool>) -> (r: Vec<Directory>)
        requires
            found@.len() == opened@.len(),
            forall|i: int| 0 <= i < found@.len() ==> lies_under(self.path@, #[trigger] found@[i]@),
        ensures
            r@.len() == found@.len(),
            forall|i: int|
                0 <= i < found@.len() ==> #[trigger] r@[i]@ == new_dir(
                    self.path@,
                    found@[i]@,
                    opened@[i],
                ),
    {
        let mut dirs: Vec<Directory> = Vec::new();
        let mut i: usize = 0;
        while i < found.len()
            invariant
                i <= found@.len(),
                found@.len() == opened@.len(),
                forall|j: int| 0 <= j < found@.len() ==> lies_under(self.path@, #[trigger] found@[j]@),
                dirs@.len() == i,
                forall|j: int|
                    0 <= j < i ==> #[trigger] dirs@[j]@ == new_dir(self.path@, found@[j]@, opened@[j]),
            decreases found@.len() - i,
        {
            let p = &found[i];
            assert(lies_under(self.path@, found@[i as int]@));
            let relative_path = strip_base(self.path.as_str(), p.as_str()).unwrap();
            let dir = Directory {
                path: p.clone(),
                repo: opened[i],
                pages: Vec::new(),
                relative_path,
                branch: None,
                committed: false,
            };
            assert(dir@.pages =~= seq![]);
            dirs.push(dir);
            i = i + 1;
        }
        dirs
    }

    /// Replaces the directories with those found at `found`, which lie below
    /// the root; none of them is taken for a repository.
    pub fn find_dirs(&mut self, found: &Vec<String>)
        requires
            forall|i: int| 0 <= i < found@.len() ==> lies_under(old(self).path@, #[trigger] found@[i]@),
        ensures
            final(self).wf(),
            final(self).path == old(self).path,
            final(self).dry_run == old(self).dry_run,
            final(self).dirs@.len() == found@.len(),
            forall|i: int|
                0 <= i < found@.len() ==> #[trigger] final(self).dirs_view()[i] == new_dir(
                    old(self).path@,
                    found@[i]@,
                    false,
                ),
    {
        let opened: Vec<bool> = vec![false; found.len()];
        self.dirs = self.discover(found, &opened);
        assert(tree_wf(self.path@, self.dirs_view())) by {
            assert forall|d: int| 0 <= d < self.dirs_view().len() implies #[trigger] self.dirs_view()[d]
                == new_dir(self.path@, found@[d]@, false) by {
                assert(self.dirs_view()[d] == self.dirs@[d]@);
            }
        }
    }

    /// Replaces the directories with the repositories found at `found`, which
    /// lie below the root; `opened[i]` tells whether the repository at
    /// `found[i]` could be opened.
    pub fn find_repos(&mut self, found: &Vec<String>, opened: &Vec<bool>)
        requires
            found@.len() == opened@.len(),
            forall|i: int| 0 <= i < found@.len() ==> lies_under(old(self).path@, #[trigger] found@[i]@),
        ensures
            final(self).wf(),
            final(self).path == old(self).path,
            final(self).dry_run == old(self).dry_run,
            final(self).dirs@.len() == found@.len(),
            forall|i: int|
                0 <= i < found@.len() ==> #[trigger] final(self).dirs_view()[i] == new_dir(
                    old(self).path@,
                    found@[i]@,
                    opened@[i],
                ),
    {
        self.dirs = self.discover(found, opened);
        assert(tree_wf(self.path@, self.dirs_view())) by {
            assert forall|d: int| 0 <= d < self.dirs_view().len() implies #[trigger] self.dirs_view()[d]
                == new_dir(self.path@, found@[d]@, opened@[d]) by {
                assert(self.dirs_view()[d] == self.dirs@[d]@);
            }
        }
    }
    /// Appends to directory `dir` the pages found at `found`, which lie inside it.
    pub fn match_files(&mut self, dir: usize, found: &Vec<String>)
        requires
            old(self).wf(),
            dir < old(self).dirs@.len(),
            forall|i: int|
                0 <= i < found@.len() ==> lies_under(
                    old(self).dirs_view()[dir as int].path,
                    #[trigger] found@[i]@,
                ),
        ensures
            final(self).wf(),
            final(self).path == old(self).path,
            final(self).dry_run == old(self).dry_run,
            final(self).dirs_view() == old(self).dirs_view().update(
                dir as int,
                with_pages(
                    old(self).dirs_view()[dir as int],
                    old(self).dirs_view()[dir as int].pages + discovered_pages(
                        old(self).path@,
                        found@.map_values(|f: String| f@),
                    ),
                ),
            ),
    {
        let ghost old_dirs = self.dirs_view();
        let ghost dpath = old_dirs[dir as int].path;
        assert(lies_under(self.path@, dpath)) by {
            assert(old_dirs[dir as int] == self.dirs@[dir as int]@);
        }
        assert(dpath == self.dirs@[dir as int].path@);
        let mut pages: Vec<Page> = Vec::new();
        let mut i: usize = 0;
        while i < found.len()
            invariant
                i <= found@.len(),
                dir < self.dirs@.len(),
                self.dirs_view() == old_dirs,
                lies_under(self.path@, dpath),
                forall|j: int| 0 <= j < found@.len() ==> lies_under(dpath, #[trigger] found@[j]@),
                pages@.len() == i,
                forall|j: int|
                    0 <= j < i ==> #[trigger] pages@[j]@ == new_page(self.path@, found@[j]@),
            decreases found@.len() - i,
        {
            let f = &found[i];
            proof {
                lemma_under_chain(self.path@, dpath, f@);
            }
            let relative_path = strip_base(self.path.as_str(), f.as_str()).unwrap();
            let page = Page { path: f.clone(), matches: Vec::new(), relative_path };
            assert(page@.matches =~= seq![]);
            pages.push(page);
            i = i + 1;
        }
        let ghost added = pages@.map_values(|p: Page| p@);
        assert(added =~= discovered_pages(self.path@, found@.map_values(|f: String| f@)));
        self.dirs[dir].pages.append(&mut pages);
        proof {
            let nd = with_pages(old_dirs[dir as int], old_dirs[dir as int].pages + added);
            assert(self.dirs_view()[dir as int].pages =~= nd.pages);
            assert(self.dirs_view() =~= old_dirs.update(dir as int, nd));
            assert forall|p: int| 0 <= p < nd.pages.len() implies {
                let page = #[trigger] nd.pages[p];
                &&& lies_under(self.path@, page.path)
                &&& lies_under(dpath, page.path)
                &&& page.relative_path == stripped(self.path@, page.path)
                &&& forall|k: int|
                    0 <= k < page.matches.len() ==> {
                        let m = #[trigger] page.matches[k];
                        &&& m.page == PageRef { dir: dir, page: p as usize }
                        &&& m.replace matches Some(r) ==> r != m.content
                    }
            } by {
                if p >= old_dirs[dir as int].pages.len() {
                    let j = p - old_dirs[dir as int].pages.len();
                    assert(nd.pages[p] == added[j]);
                    lemma_under_chain(self.path@, dpath, found@[j]@);
                }
            }
            assert(tree_wf(self.path@, self.dirs_view())) by {
                assert forall|d: int| 0 <= d < self.dirs_view().len() && d != dir implies #[trigger]
                    self.dirs_view()[d] == old_dirs[d] by {}
            }
        }
    }

    /// Appends to the matches of page `page` of directory `dir` the lines of
    /// its file that `pattern` matches; `None` stands for a line that could
    /// not be decoded. Returns the numbers of those lines, which are skipped.
    pub fn match_lines(&mut self, dir: usize, page: usize, pattern: &Pattern, lines: &Vec<Option<String>>) -> (skipped: Vec<usize>)
        requires
            old(self).wf(),
            dir < old(self).dirs@.len(),
            page < old(self).dirs_view()[dir as int].pages.len(),
        ensures
            final(self).wf(),
            final(self).path == old(self).path,
            final(self).dry_run == old(self).dry_run,
            final(self).dirs_view() == old(self).dirs_view().update(
                dir as int,
                with_pages(
                    old(self).dirs_view()[dir as int],
                    old(self).dirs_view()[dir as int].pages.update(
                        page as int,
                        with_matches(
                            old(self).dirs_view()[dir as int].pages[page as int],
                            old(self).dirs_view()[dir as int].pages[page as int].matches + line_matches(
                                pattern@,
                                lines_view(lines@),
                                PageRef { dir, page },
                            ),
                        ),
                    ),
                ),
            ),
            skipped@.map_values(|n: usize| n as nat) == undecoded_lines(lines_view(lines@)),
    {
        let ghost old_dirs = self.dirs_view();
        let ghost lv = lines_view(lines@);
        let at = PageRef { dir, page };
        let mut matches: Vec<Match> = Vec::new();
        let mut skipped: Vec<usize> = Vec::new();
        let mut i: usize = 0;
        while i < lines.len()
            invariant
                i <= lines@.len(),
                lv == lines_view(lines@),
                matches@.map_values(|m: Match| m@) == line_matches(pattern@, lv.subrange(0, i as int), at),
                skipped@.map_values(|n: usize| n as nat) == undecoded_lines(lv.subrange(0, i as int)),
            decreases lines@.len() - i,
        {
            let ghost ms = matches@;
            let ghost sk = skipped@;
            assert(lv.subrange(0, i + 1).drop_last() =~= lv.subrange(0, i as int));
            assert(lv.subrange(0, i + 1).last() == opt_view(lines@[i as int]));
            match &lines[i] {
                Some(t) => {
                    if pattern.is_match(t.as_str()) {
                        matches.push(Match { line: i, content: t.clone(), replace: None, page: at });
                        assert(matches@.map_values(|m: Match| m@) =~= ms.map_values(|m: Match| m@).push(
                            matches@[ms.len() as int]@,
                        ));
                    }
                },
                None => {
                    skipped.push(i);
                    assert(skipped@.map_values(|n: usize| n as nat) =~= sk.map_values(|n: usize| n as nat).push(i as nat));
                },
            }
            i = i + 1;
        }
        assert(lv.subrange(0, i as int) =~= lv);
        let ghost added = matches@.map_values(|m: Match| m@);
        self.dirs[dir].pages[page].matches.append(&mut matches);
        proof {
            let op = old_dirs[dir as int].pages[page as int];
            let np = with_matches(op, op.matches + added);
            let nd = with_pages(old_dirs[dir as int], old_dirs[dir as int].pages.update(page as int, np));
            assert(self.dirs_view()[dir as int].pages[page as int].matches =~= np.matches);
            assert(self.dirs_view()[dir as int].pages =~= nd.pages);
            assert(self.dirs_view() =~= old_dirs.update(dir as int, nd));
            lemma_line_matches_wf(pattern@, lv, at);
            assert forall|k: int| 0 <= k < np.matches.len() implies {
                let m = #[trigger] np.matches[k];
                &&& m.page == at
                &&& m.replace matches Some(r) ==> r != m.content
            } by {
                if k >= op.matches.len() {
                    assert(np.matches[k] == added[k - op.matches.len()]);
                } else {
                    assert(np.matches[k] == op.matches[k]);
                }
            }
            assert(tree_wf(self.path@, self.dirs_view())) by {
                assert forall|d: int| 0 <= d < self.dirs_view().len() && d != dir implies #[trigger]
                    self.dirs_view()[d] == old_dirs[d] by {}
                assert forall|p: int| 0 <= p < nd.pages.len() && p != page implies #[trigger]
                    nd.pages[p] == old_dirs[dir as int].pages[p] by {}
            }
        }
        skipped
    }
    /// Computes, for every match of every page, the line with the first match
    /// of `select` substituted by `template`; it is kept only where it differs
    /// from the line.
    pub fn replace(&mut self, select: &Pattern, template: &str)
        requires
            old(self).wf(),
        ensures
            final(self).wf(),
            final(self).path == old(self).path,
            final(self).dry_run == old(self).dry_run,
            final(self).dirs_view() == replaced_tree(old(self).dirs_view(), select@, template@),
    {
        let ghost before = self.dirs@;
        let mut d: usize = 0;
        while d < self.dirs.len()
            invariant
                d <= self.dirs@.len(),
                self.dirs@.len() == before.len(),
                before == old(self).dirs@,
                self.path == old(self).path,
                self.dry_run == old(self).dry_run,
                forall|j: int| 0 <= j < d ==> #[trigger] self.dirs@[j]@ == replaced_dir(before[j]@, select@, template@),
                forall|j: int| d <= j < before.len() ==> #[trigger] self.dirs@[j] == before[j],
            decreases before.len() - d,
        {
            replace_dir(&mut self.dirs[d], select, template);
            d = d + 1;
        }
        assert(self.dirs_view() =~= replaced_tree(old(self).dirs_view(), select@, template@));
        proof {
            lemma_replaced_tree_wf(self.path@, old(self).dirs_view(), select@, template@);
        }
    }
    /// The contents of the file of page `page` of directory `dir` after
    /// applying its replacements, given the current `contents`; `None` where
    /// the page has no pending change.
    pub fn apply(&self, dir: usize, page: usize, contents: &str) -> (r: Option<Step>)
        requires
            dir < self.dirs@.len(),
            page < self.dirs_view()[dir as int].pages.len(),
        ensures
            r is None <==> !self.dirs_view()[dir as int].pages[page as int].has_changes(),
            r matches Some(s) ==> {
                &&& s.action@ == ActionView::Write {
                    dir: dir as nat,
                    page: page as nat,
                    contents: rewritten(contents@, self.dirs_view()[dir as int].pages[page as int].matches),
                }
                &&& s.dry_run == self.dry_run
            },
    {
        let pg = &self.dirs[dir].pages[page];
        assert(self.dirs_view()[dir as int].pages[page as int] == pg@) by {
            assert(self.dirs_view()[dir as int] == self.dirs@[dir as int]@);
        }
        if !pg.has_changes() {
            return None;
        }
        let ghost ms = pg@.matches;
        let mut text = contents.to_owned();
        let mut k: usize = 0;
        while k < pg.matches.len()
            invariant
                k <= pg.matches@.len(),
                ms == pg@.matches,
                text@ == rewritten(contents@, ms.subrange(0, k as int)),
            decreases pg.matches@.len() - k,
        {
            let m = &pg.matches[k];
            assert(ms.subrange(0, k + 1).drop_last() =~= ms.subrange(0, k as int));
            assert(ms.subrange(0, k + 1).last() == m@);
            match &m.replace {
                Some(rep) => {
                    text = replace_once(text.as_str(), m.content.as_str(), rep.as_str());
                },
                None => {},
            }
            k = k + 1;
        }
        assert(ms.subrange(0, k as int) =~= ms);
        Some(Step { action: Action::Write { dir, page, contents: text }, dry_run: self.dry_run })
    }

    /// The checkouts in directory `dir` of the local branches `branches` whose
    /// name `pattern` matches, in order. A directory without a repository is
    /// reported instead.
    pub fn checkout_branch(&self, dir: usize, pattern: &Pattern, branches: &Vec<String>) -> (r: CheckoutPlan)
        requires
            dir < self.dirs@.len(),
        ensures
            all_marked(r.steps@, self.dry_run),
            !self.dirs_view()[dir as int].repo ==> {
                &&& actions(r.steps@) == seq![ActionView::NotRepository { dir: dir as nat }]
                &&& !r.ambiguous
            },
            self.dirs_view()[dir as int].repo ==> {
                let names = selected(pattern@, branches@.map_values(|b: String| b@));
                &&& actions(r.steps@) == checkouts(dir as nat, names)
                &&& r.ambiguous == (names.len() > 1)
            },
    {
        let mut steps: Vec<Step> = Vec::new();
        assert(self.dirs_view()[dir as int] == self.dirs@[dir as int]@);
        if !self.dirs[dir].repo {
            steps.push(Step { action: Action::NotRepository { dir }, dry_run: self.dry_run });
            assert(actions(steps@) =~= seq![ActionView::NotRepository { dir: dir as nat }]);
            return CheckoutPlan { steps, ambiguous: false };
        }
        let ghost names = branches@.map_values(|b: String| b@);
        let mut i: usize = 0;
        while i < branches.len()
            invariant
                i <= branches@.len(),
                names == branches@.map_values(|b: String| b@),
                actions(steps@) == checkouts(dir as nat, selected(pattern@, names.subrange(0, i as int))),
                steps@.len() == selected(pattern@, names.subrange(0, i as int)).len(),
                all_marked(steps@, self.dry_run),
            decreases branches@.len() - i,
        {
            let b = &branches[i];
            let ghost before = steps@;
            assert(names.subrange(0, i + 1).drop_last() =~= names.subrange(0, i as int));
            assert(names.subrange(0, i + 1).last() == b@);
            if pattern.is_match(b.as_str()) {
                steps.push(Step { action: Action::Checkout { dir, branch: b.clone() }, dry_run: self.dry_run });
                assert(actions(steps@) =~= actions(before).push(ActionView::Checkout { dir: dir as nat, branch: b@ }));
                assert(checkouts(dir as nat, selected(pattern@, names.subrange(0, i + 1))) =~= checkouts(
                    dir as nat,
                    selected(pattern@, names.subrange(0, i as int)),
                ).push(ActionView::Checkout { dir: dir as nat, branch: b@ }));
            }
            i = i + 1;
        }
        assert(names.subrange(0, i as int) =~= names);
        let ambiguous = steps.len() > 1;
        CheckoutPlan { steps, ambiguous }
    }

    /// Records that `branch` was checked out in directory `dir`.
    pub fn record_checkout(&mut self, dir: usize, branch: String)
        requires
            old(self).wf(),
            dir < old(self).dirs@.len(),
        ensures
            final(self).wf(),
            final(self).path == old(self).path,
            final(self).dry_run == old(self).dry_run,
            final(self).dirs_view() == old(self).dirs_view().update(
                dir as int,
                DirectoryView { branch: Some(branch@), ..old(self).dirs_view()[dir as int] },
            ),
    {
        let ghost old_dirs = self.dirs_view();
        self.dirs[dir].branch = Some(branch);
        assert(self.dirs_view() =~= old_dirs.update(
            dir as int,
            DirectoryView { branch: Some(branch@), ..old_dirs[dir as int] },
        ));
        assert(tree_wf(self.path@, self.dirs_view())) by {
            assert forall|d: int| 0 <= d < self.dirs_view().len() && d != dir implies #[trigger]
                self.dirs_view()[d] == old_dirs[d] by {}
        }
    }

    /// Records whether the commit in directory `dir` succeeded. In a dry run
    /// the simulated commit counts as a success, so that the pushes a real run
    /// would make are reported; a directory without a repository has none.
    pub fn record_commit(&mut self, dir: usize, succeeded: bool)
        requires
            old(self).wf(),
            dir < old(self).dirs@.len(),
        ensures
            final(self).wf(),
            final(self).path == old(self).path,
            final(self).dry_run == old(self).dry_run,
            final(self).dirs_view() == old(self).dirs_view().update(
                dir as int,
                DirectoryView {
                    committed: commit_recorded(old(self).dirs_view()[dir as int], succeeded, old(self).dry_run),
                    ..old(self).dirs_view()[dir as int]
                },
            ),
    {
        let ghost old_dirs = self.dirs_view();
        let c = self.dirs[dir].repo && (succeeded || self.dry_run);
        self.dirs[dir].committed = c;
        assert(self.dirs_view() =~= old_dirs.update(
            dir as int,
            DirectoryView { committed: c, ..old_dirs[dir as int] },
        ));
        assert(tree_wf(self.path@, self.dirs_view())) by {
            assert forall|d: int| 0 <= d < self.dirs_view().len() && d != dir implies #[trigger]
                self.dirs_view()[d] == old_dirs[d] by {}
        }
    }

    fn dir_steps(&self, phase: Phase, i: usize) -> (r: Vec<Step>)
        requires
            self.wf(),
            i < self.dirs@.len(),
        ensures
            actions(r@) == dir_actions(phase, self.dirs_view()[i as int], i as nat),
            all_marked(r@, self.dry_run),
    {
        let dir = &self.dirs[i];
        assert(self.dirs_view()[i as int] == dir@);
        let mut r: Vec<Step> = Vec::new();
        let dry_run = self.dry_run;
        match phase {
            Phase::Stage => {
                if !dir.repo {
                    r.push(Step { action: Action::NotRepository { dir: i }, dry_run });
                    assert(actions(r@) =~= seq![ActionView::NotRepository { dir: i as nat }]);
                } else {
                    let mut p: usize = 0;
                    assert(actions(r@) =~= seq![]);
                    while p < dir.pages.len()
                        invariant
                            self.wf(),
                            i < self.dirs@.len(),
                            dir == self.dirs@[i as int],
                            p <= dir.pages@.len(),
                            actions(r@) == page_stages(dir@, i as nat, p as int),
                            all_marked(r@, dry_run),
                        decreases dir.pages@.len() - p,
                    {
                        let page = &dir.pages[p];
                        assert(dir@.pages[p as int] == page@);
                        if page.has_changes() {
                            proof {
                                assert(self.dirs_view()[i as int] == dir@);
                                lemma_strip_nested(self.path@, dir@.path, page@.path);
                            }
                            let path = strip_base(dir.relative_path.as_str(), page.relative_path.as_str()).unwrap();
                            let ghost before = r@;
                            r.push(Step { action: Action::Stage { dir: i, path }, dry_run });
                            assert(actions(r@) =~= actions(before).push(r@.last().action@));
                        }
                        p = p + 1;
                    }
                }
            },
            Phase::Commit => {
                if !dir.repo {
                    r.push(Step { action: Action::NotRepository { dir: i }, dry_run });
                    assert(actions(r@) =~= seq![ActionView::NotRepository { dir: i as nat }]);
                } else if dir.has_changes() {
                    r.push(Step { action: Action::Commit { dir: i }, dry_run });
                    assert(actions(r@) =~= seq![ActionView::Commit { dir: i as nat }]);
                } else {
                    assert(actions(r@) =~= seq![]);
                }
            },
            Phase::Push => {
                if dir.committed {
                    r.push(Step { action: Action::Push { dir: i }, dry_run });
                    assert(actions(r@) =~= seq![ActionView::Push { dir: i as nat }]);
                } else {
                    assert(actions(r@) =~= seq![]);
                }
            },
        }
        r
    }

    fn plan_steps(&self, phase: Phase) -> (r: Vec<Step>)
        requires
            self.wf(),
        ensures
            actions(r@) == plan(phase, self.dirs_view(), self.dirs@.len() as int),
            all_marked(r@, self.dry_run),
    {
        let mut r: Vec<Step> = Vec::new();
        let mut i: usize = 0;
        assert(actions(r@) =~= seq![]);
        while i < self.dirs.len()
            invariant
                self.wf(),
                i <= self.dirs@.len(),
                actions(r@) == plan(phase, self.dirs_view(), i as int),
                all_marked(r@, self.dry_run),
            decreases self.dirs@.len() - i,
        {
            let mut more = self.dir_steps(phase, i);
            let ghost before = r@;
            let ghost added = more@;
            r.append(&mut more);
            assert(actions(r@) =~= actions(before) + actions(added));
            i = i + 1;
        }
        r
    }

    /// The staging of every changed page, directory by directory.
    pub fn stage(&self) -> (r: Vec<Step>)
        requires
            self.wf(),
        ensures
            actions(r@) == plan(Phase::Stage, self.dirs_view(), self.dirs@.len() as int),
            all_marked(r@, self.dry_run),
    {
        self.plan_steps(Phase::Stage)
    }

    /// The commit of every repository with a pending change.
    pub fn commit(&self) -> (r: Vec<Step>)
        requires
            self.wf(),
        ensures
            actions(r@) == plan(Phase::Commit, self.dirs_view(), self.dirs@.len() as int),
            all_marked(r@, self.dry_run),
    {
        self.plan_steps(Phase::Commit)
    }

    /// The push of every repository whose commit succeeded.
    pub fn remote_push(&self) -> (r: Vec<Step>)
        requires
            self.wf(),
        ensures
            actions(r@) == plan(Phase::Push, self.dirs_view(), self.dirs@.len() as int),
            all_marked(r@, self.dry_run),
    {
        self.plan_steps(Phase::Push)
    }
    /// The paths of the directories, in order.
    pub fn get_dirs(&self) -> (r: Vec<String>)
        ensures
            r@.map_values(|s: String| s@) == self.dirs_view().map_values(|d: DirectoryView| d.path),
    {
        let mut r: Vec<String> = Vec::new();
        let mut i: usize = 0;
        while i < self.dirs.len()
            invariant
                i <= self.dirs@.len(),
                r@.len() == i,
                forall|j: int| 0 <= j < i ==> #[trigger] r@[j]@ == self.dirs@[j].path@,
            decreases self.dirs@.len() - i,
        {
            r.push(self.dirs[i].path.clone());
            i = i + 1;
        }
        assert(r@.map_values(|s: String| s@) =~= self.dirs_view().map_values(|d: DirectoryView| d.path));
        r
    }

    /// Copies of the pages of all directories, in order.
    pub fn get_pages(&self) -> (r: Vec<Page>)
        ensures
            r@.map_values(|p: Page| p@) == all_pages(self.dirs_view(), self.dirs@.len() as int),
    {
        let mut r: Vec<Page> = Vec::new();
        let mut i: usize = 0;
        while i < self.dirs.len()
            invariant
                i <= self.dirs@.len(),
                r@.map_values(|p: Page| p@) == all_pages(self.dirs_view(), i as int),
            decreases self.dirs@.len() - i,
        {
            let dir = &self.dirs[i];
            assert(self.dirs_view()[i as int] == dir@);
            let ghost base = r@.map_values(|p: Page| p@);
            let mut p: usize = 0;
            while p < dir.pages.len()
                invariant
                    p <= dir.pages@.len(),
                    r@.map_values(|p: Page| p@) == base + dir@.pages.subrange(0, p as int),
                decreases dir.pages@.len() - p,
            {
                let ghost before = r@;
                r.push(dir.pages[p].duplicate());
                assert(r@.map_values(|p: Page| p@) =~= before.map_values(|p: Page| p@).push(dir@.pages[p as int]));
                assert(dir@.pages.subrange(0, p + 1) =~= dir@.pages.subrange(0, p as int).push(dir@.pages[p as int]));
                p = p + 1;
            }
            assert(dir@.pages.subrange(0, p as int) =~= dir@.pages);
            i = i + 1;
        }
        r
    }

    /// Copies of the matches of all pages, in order.
    pub fn get_matches(&self) -> (r: Vec<Match>)
        ensures
            r@.map_values(|m: Match| m@) == all_matches(
                all_pages(self.dirs_view(), self.dirs@.len() as int),
                all_pages(self.dirs_view(), self.dirs@.len() as int).len() as int,
            ),
    {
        let pages = self.get_pages();
        let ghost pv = pages@.map_values(|p: Page| p@);
        let mut r: Vec<Match> = Vec::new();
        let mut i: usize = 0;
        while i < pages.len()
            invariant
                i <= pages@.len(),
                pv == pages@.map_values(|p: Page| p@),
                r@.map_values(|m: Match| m@) == all_matches(pv, i as int),
            decreases pages@.len() - i,
        {
            let page = &pages[i];
            assert(pv[i as int] == page@);
            let ghost base = r@.map_values(|m: Match| m@);
            let mut k: usize = 0;
            while k < page.matches.len()
                invariant
                    k <= page.matches@.len(),
                    r@.map_values(|m: Match| m@) == base + page@.matches.subrange(0, k as int),
                decreases page.matches@.len() - k,
            {
                let ghost before = r@;
                r.push(page.matches[k].duplicate());
                assert(r@.map_values(|m: Match| m@) =~= before.map_values(|m: Match| m@).push(page@.matches[k as int]));
                assert(page@.matches.subrange(0, k + 1) =~= page@.matches.subrange(0, k as int).push(page@.matches[k as int]));
                k = k + 1;
            }
            assert(page@.matches.subrange(0, k as int) =~= page@.matches);
            i = i + 1;
        }
        r
    }
}

} // verus!
