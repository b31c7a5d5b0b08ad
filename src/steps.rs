//! The work that the pipeline hands to its caller: writes to files and
//! operations on repositories, each marked with whether it is only to be
//! reported.

use vstd::prelude::*;

verus! {

/// One operation on a file or a repository, by the index of its directory.
#[derive(Debug)]
pub enum Action {
    /// Check out the local branch `branch`.
    Checkout { dir: usize, branch: String },
    /// Write `contents` over the file of page `page`.
    Write { dir: usize, page: usize, contents: String },
    /// Stage `path`, relative to the repository's root.
    Stage { dir: usize, path: String },
    /// Commit what is staged.
    Commit { dir: usize },
    /// Push the current branch to the remote.
    Push { dir: usize },
    /// Nothing can be done: no repository could be opened here.
    NotRepository { dir: usize },
}

/// An action, and whether the run is a dry run, in which case it is reported
/// and not performed.
#[derive(Debug)]
pub struct Step {
    pub action: Action,
    pub dry_run: bool,
}

pub enum ActionView {
    Checkout { dir: nat, branch: Seq<char> },
    Write { dir: nat, page: nat, contents: Seq<char> },
    Stage { dir: nat, path: Seq<char> },
    Commit { dir: nat },
    Push { dir: nat },
    NotRepository { dir: nat },
}

impl View for Action {
    type V = ActionView;

    open spec fn view(&self) -> ActionView {
        match self {
            Action::Checkout { dir, branch } => ActionView::Checkout { dir: *dir as nat, branch: branch@ },
            Action::Write { dir, page, contents } => ActionView::Write {
                dir: *dir as nat,
                page: *page as nat,
                contents: contents@,
            },
            Action::Stage { dir, path } => ActionView::Stage { dir: *dir as nat, path: path@ },
            Action::Commit { dir } => ActionView::Commit { dir: *dir as nat },
            Action::Push { dir } => ActionView::Push { dir: *dir as nat },
            Action::NotRepository { dir } => ActionView::NotRepository { dir: *dir as nat },
        }
    }
}

impl ActionView {
    /// The directory the action is about.
    pub open spec fn dir(self) -> nat {
        match self {
            ActionView::Checkout { dir, .. } => dir,
            ActionView::Write { dir, .. } => dir,
            ActionView::Stage { dir, .. } => dir,
            ActionView::Commit { dir } => dir,
            ActionView::Push { dir } => dir,
            ActionView::NotRepository { dir } => dir,
        }
    }
}

/// The actions of a list of steps, in order.
pub open spec fn actions(steps: Seq<Step>) -> Seq<ActionView> {
    steps.map_values(|s: Step| s.action@)
}

/// Every step of the list carries the given dry-run mark.
pub open spec fn all_marked(steps: Seq<Step>, dry_run: bool) -> bool {
    forall|i: int| 0 <= i < steps.len() ==> (#[trigger] steps[i]).dry_run == dry_run
}

} // verus!
