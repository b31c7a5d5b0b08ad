//! The tree the pipeline works on: repositories, the files found in them and
//! the lines matched in those files.

use vstd::prelude::*;

verus! {

/// Where a page stands in the tree: the index of its directory, and its index
/// among that directory's pages.
#[derive(Clone, Copy, Debug, PartialEq, Eq, Structural)]
pub struct PageRef {
    pub dir: usize,
    pub page: usize,
}

/// One line of a page that matched the content pattern.
#[derive(Clone, Debug)]
pub struct Match {
    /// Zero-based line number.
    pub line: usize,
    /// The line as read, without its line ending.
    pub content: String,
    /// The rewritten line, present only where it differs from `content`.
    pub replace: Option<String>,
    /// The page the line belongs to, for reporting.
    pub page: PageRef,
}

/// One candidate file inside a repository.
#[derive(Clone, Debug)]
pub struct Page {
    pub path: String,
    pub matches: Vec<Match>,
    /// `path` relative to the root of the scan.
    pub relative_path: String,
}

/// One repository found under the root of the scan.
#[derive(Clone, Debug)]
pub struct Directory {
    pub path: String,
    /// Whether a repository could be opened here.
    pub repo: bool,
    pub pages: Vec<Page>,
    /// `path` relative to the root of the scan.
    pub relative_path: String,
    /// The branch checked out last, if any.
    pub branch: Option<String>,
    /// Whether the last commit made here succeeded (or was simulated).
    pub committed: bool,
}

pub open spec fn opt_view(o: Option<String>) -> Option<Seq<char>> {
    match o {
        Some(s) => Some(s@),
        None => None,
    }
}

pub struct MatchView {
    pub line: nat,
    pub content: Seq<char>,
    pub replace: Option<Seq<char>>,
    pub page: PageRef,
}

pub struct PageView {
    pub path: Seq<char>,
    pub matches: Seq<MatchView>,
    pub relative_path: Seq<char>,
}

pub struct DirectoryView {
    pub path: Seq<char>,
    pub repo: bool,
    pub pages: Seq<PageView>,
    pub relative_path: Seq<char>,
    pub branch: Option<Seq<char>>,
    pub committed: bool,
}

impl View for Match {
    type V = MatchView;

    open spec fn view(&self) -> MatchView {
        MatchView {
            line: self.line as nat,
            content: self.content@,
            replace: opt_view(self.replace),
            page: self.page,
        }
    }
}

impl View for Page {
    type V = PageView;

    open spec fn view(&self) -> PageView {
        PageView {
            path: self.path@,
            matches: self.matches@.map_values(|m: Match| m@),
            relative_path: self.relative_path@,
        }
    }
}

impl View for Directory {
    type V = DirectoryView;

    open spec fn view(&self) -> DirectoryView {
        DirectoryView {
            path: self.path@,
            repo: self.repo,
            pages: self.pages@.map_values(|p: Page| p@),
            relative_path: self.relative_path@,
            branch: opt_view(self.branch),
            committed: self.committed,
        }
    }
}

impl PageView {
    /// Some match of the page carries a replacement.
    pub open spec fn has_changes(self) -> bool {
        exists|k: int| 0 <= k < self.matches.len() && self.matches[k].replace is Some
    }
}

impl DirectoryView {
    /// Some page of the directory has a pending change.
    pub open spec fn has_changes(self) -> bool {
        exists|p: int| 0 <= p < self.pages.len() && self.pages[p].has_changes()
    }

    /// Some page of the directory holds a match.
    pub open spec fn has_matches(self) -> bool {
        exists|p: int| 0 <= p < self.pages.len() && self.pages[p].matches.len() > 0
    }
}

fn copy_opt(o: &Option<String>) -> (r: Option<String>)
    ensures
        opt_view(r) == opt_view(*o),
{
    match o {
        Some(s) => Some(s.clone()),
        None => None,
    }
}

impl Match {
    /// A copy with the same view.
    pub fn duplicate(&self) -> (r: Match)
        ensures
            r@ == self@,
    {
        Match {
            line: self.line,
            content: self.content.clone(),
            replace: copy_opt(&self.replace),
            page: self.page,
        }
    }
}

impl Page {
    /// A copy with the same view.
    pub fn duplicate(&self) -> (r: Page)
        ensures
            r@ == self@,
    {
        let mut matches: Vec<Match> = Vec::new();
        let mut k: usize = 0;
        while k < self.matches.len()
            invariant
                k <= self.matches.len(),
                matches.len() == k,
                forall|j: int| 0 <= j < k ==> matches@[j]@ == self.matches@[j]@,
            decreases self.matches.len() - k,
        {
            matches.push(self.matches[k].duplicate());
            k = k + 1;
        }
        assert(matches@.map_values(|m: Match| m@) =~= self.matches@.map_values(|m: Match| m@));
        Page { path: self.path.clone(), matches, relative_path: self.relative_path.clone() }
    }

    /// Whether some match of the page carries a replacement.
    pub fn has_changes(&self) -> (r: bool)
        ensures
            r == self@.has_changes(),
    {
        let mut k: usize = 0;
        while k < self.matches.len()
            invariant
                k <= self.matches.len(),
                forall|j: int| 0 <= j < k ==> self.matches@[j].replace is None,
            decreases self.matches.len() - k,
        {
            if self.matches[k].replace.is_some() {
                assert(self@.matches[k as int].replace is Some);
                return true;
            }
            k = k + 1;
        }
        assert forall|j: int| 0 <= j < self@.matches.len() implies self@.matches[j].replace is None by {
            assert(self@.matches[j] == self.matches@[j]@);
        }
        false
    }
}

impl Directory {
    /// Whether some page of the directory has a pending change.
    pub fn has_changes(&self) -> (r: bool)
        ensures
            r == self@.has_changes(),
    {
        let mut p: usize = 0;
        while p < self.pages.len()
            invariant
                p <= self.pages.len(),
                forall|j: int| 0 <= j < p ==> !self.pages@[j]@.has_changes(),
            decreases self.pages.len() - p,
        {
            if self.pages[p].has_changes() {
                assert(self@.pages[p as int] == self.pages@[p as int]@);
                return true;
            }
            p = p + 1;
        }
        assert forall|j: int| 0 <= j < self@.pages.len() implies !self@.pages[j].has_changes() by {
            assert(self@.pages[j] == self.pages@[j]@);
        }
        false
    }

    /// Whether some page of the directory holds a match.
    pub fn has_matches(&self) -> (r: bool)
        ensures
            r == self@.has_matches(),
    {
        let mut p: usize = 0;
        while p < self.pages.len()
            invariant
                p <= self.pages.len(),
                forall|j: int| 0 <= j < p ==> self.pages@[j].matches.len() == 0,
            decreases self.pages.len() - p,
        {
            if self.pages[p].matches.len() > 0 {
                assert(self@.pages[p as int] == self.pages@[p as int]@);
                return true;
            }
            p = p + 1;
        }
        assert forall|j: int| 0 <= j < self@.pages.len() implies self@.pages[j].matches.len() == 0 by {
            assert(self@.pages[j] == self.pages@[j]@);
        }
        false
    }
}

} // verus!
