//! Walking a directory tree, one listing at a time.
//!
//! A `Scan` decides what to do with each directory listing; the caller reads the
//! listings from the file system. Hits are reported depth first, in the order in
//! which the listings give their entries, as a recursive walk would.

use vstd::prelude::*;
use crate::paths::{join, joined, lies_under, lemma_under_transitive};
use crate::pattern::{Pattern, regex_finds};
use crate::structs::opt_view;

verus! {

/// One entry of a directory listing, as the file system reported it.
pub struct Entry {
    /// The entry's base name.
    pub name: String,
    pub is_dir: bool,
    pub is_file: bool,
    /// The entry holds a child named by the scan's marker, and that child can be listed.
    pub marked: bool,
}

pub struct EntryView {
    pub name: Seq<char>,
    pub is_dir: bool,
    pub is_file: bool,
    pub marked: bool,
}

impl View for Entry {
    type V = EntryView;

    open spec fn view(&self) -> EntryView {
        EntryView { name: self.name@, is_dir: self.is_dir, is_file: self.is_file, marked: self.marked }
    }
}

/// What a scan looks for.
pub enum Target<'a> {
    /// Directories that hold a child of this name; the walk does not go below them.
    Marker(String),
    /// Files whose base name the pattern matches.
    Files(&'a Pattern),
}

pub enum TargetView {
    Marker(Seq<char>),
    Files(Seq<char>),
}

impl<'a> View for Target<'a> {
    type V = TargetView;

    open spec fn view(&self) -> TargetView {
        match self {
            Target::Marker(m) => TargetView::Marker(m@),
            Target::Files(p) => TargetView::Files(p@),
        }
    }
}

/// Work left on the stack of a scan.
pub enum Item {
    /// A hit, reported when it is popped.
    Found(String),
    /// A directory still to be listed.
    Descend(String),
}

pub enum ItemView {
    Found(Seq<char>),
    Descend(Seq<char>),
}

impl View for Item {
    type V = ItemView;

    open spec fn view(&self) -> ItemView {
        match self {
            Item::Found(p) => ItemView::Found(p@),
            Item::Descend(p) => ItemView::Descend(p@),
        }
    }
}

/// What becomes of the entry `e` of the listing of `dir`.
pub open spec fn item_of(target: TargetView, dir: Seq<char>, e: EntryView) -> Option<ItemView> {
    let p = joined(dir, e.name);
    let hit = match target {
        TargetView::Marker(_) => e.is_dir && e.marked,
        TargetView::Files(pat) => e.is_file && regex_finds(pat, e.name),
    };
    if hit {
        Some(ItemView::Found(p))
    } else if e.is_dir {
        Some(ItemView::Descend(p))
    } else {
        None
    }
}

pub open spec fn opt_seq(o: Option<ItemView>) -> Seq<ItemView> {
    match o {
        Some(x) => seq![x],
        None => seq![],
    }
}

/// The items that the listing `es` of `dir` puts on the stack, bottom first:
/// the last entry is pushed first, so that the first entry is popped first.
pub open spec fn pushes(target: TargetView, dir: Seq<char>, es: Seq<EntryView>) -> Seq<ItemView>
    decreases es.len(),
{
    if es.len() == 0 {
        seq![]
    } else {
        pushes(target, dir, es.drop_first()) + opt_seq(item_of(target, dir, es[0]))
    }
}

/// Pops hits off the stack into `found` until a directory to list comes up:
/// the stack and hits afterwards, and that directory.
pub open spec fn settle(pending: Seq<ItemView>, found: Seq<Seq<char>>) -> (
    Seq<ItemView>,
    Seq<Seq<char>>,
    Option<Seq<char>>,
)
    decreases pending.len(),
{
    if pending.len() == 0 {
        (pending, found, None)
    } else {
        match pending.last() {
            ItemView::Found(p) => settle(pending.drop_last(), found.push(p)),
            ItemView::Descend(d) => (pending.drop_last(), found, Some(d)),
        }
    }
}

/// A walk in progress below `root`.
pub struct Scan<'a> {
    root: String,
    target: Target<'a>,
    pending: Vec<Item>,
    current: Option<String>,
    found: Vec<String>,
}

pub open spec fn strings_view(v: Seq<String>) -> Seq<Seq<char>> {
    v.map_values(|s: String| s@)
}

pub open spec fn items_view(v: Seq<Item>) -> Seq<ItemView> {
    v.map_values(|it: Item| it@)
}

/// Every path the walk reaches lies below its root.
pub open spec fn items_below(root: Seq<char>, items: Seq<ItemView>) -> bool {
    forall|i: int|
        0 <= i < items.len() ==> match #[trigger] items[i] {
            ItemView::Found(p) => lies_under(root, p),
            ItemView::Descend(d) => d == root || lies_under(root, d),
        }
}

impl<'a> Scan<'a> {
    pub closed spec fn root(&self) -> Seq<char> {
        self.root@
    }

    pub closed spec fn target(&self) -> TargetView {
        self.target@
    }

    /// The stack of work left, top last.
    pub closed spec fn pending(&self) -> Seq<ItemView> {
        items_view(self.pending@)
    }

    /// The directory handed out by `next_dir` and not listed yet.
    pub closed spec fn current(&self) -> Option<Seq<char>> {
        opt_view(self.current)
    }

    /// The hits so far, in the order of the walk.
    pub closed spec fn hits(&self) -> Seq<Seq<char>> {
        strings_view(self.found@)
    }

    pub closed spec fn wf(&self) -> bool {
        &&& items_below(self.root@, self.pending())
        &&& (self.current() matches Some(d) ==> d == self.root@ || lies_under(self.root@, d))
        &&& forall|i: int| 0 <= i < self.hits().len() ==> lies_under(self.root@, #[trigger] self.hits()[i])
    }

    fn start(root: &str, target: Target<'a>) -> (r: Scan<'a>)
        ensures
            r.wf(),
            r.root() == root@,
            r.target() == target@,
            r.pending() == seq![ItemView::Descend(root@)],
            r.current() is None,
            r.hits().len() == 0,
    {
        let mut pending: Vec<Item> = Vec::new();
        pending.push(Item::Descend(root.to_owned()));
        let r = Scan { root: root.to_owned(), target, pending, current: None, found: Vec::new() };
        assert(r.pending() =~= seq![ItemView::Descend(root@)]);
        r
    }

    /// The next directory to list, or `None` when the walk is over. Hits that
    /// come up on the way are added to `found`.
    pub fn next_dir(&mut self) -> (r: Option<String>)
        requires
            old(self).wf(),
        ensures
            final(self).wf(),
            final(self).root() == old(self).root(),
            final(self).target() == old(self).target(),
            (final(self).pending(), final(self).hits(), opt_view(r)) == settle(
                old(self).pending(),
                old(self).hits(),
            ),
            final(self).current() == opt_view(r),
    {
        while self.pending.len() > 0
            invariant
                self.wf(),
                self.root() == old(self).root(),
                self.target() == old(self).target(),
                settle(self.pending(), self.hits()) == settle(old(self).pending(), old(self).hits()),
            decreases self.pending.len(),
        {
            let ghost before = self.pending();
            let ghost hits_before = self.hits();
            let item = self.pending.pop().unwrap();
            assert(self.pending() =~= before.drop_last());
            assert(before.last() == item@);
            assert(items_below(self.root@, self.pending())) by {
                assert forall|i: int| 0 <= i < self.pending().len() implies self.pending()[i]
                    == before[i] by {}
            }
            match item {
                Item::Found(p) => {
                    assert(lies_under(self.root@, p@)) by {
                        assert(before[before.len() - 1] == item@);
                    }
                    self.found.push(p);
                    assert(self.hits() =~= hits_before.push(p@));
                },
                Item::Descend(d) => {
                    assert(d@ == self.root@ || lies_under(self.root@, d@)) by {
                        assert(before[before.len() - 1] == item@);
                    }
                    self.current = Some(d.clone());
                    return Some(d);
                },
            }
        }
        self.current = None;
        None
    }

    /// Records the listing of the directory handed out by `next_dir`. A
    /// directory that could not be listed is recorded with no entries.
    pub fn visit(&mut self, entries: &Vec<Entry>)
        requires
            old(self).wf(),
            old(self).current() is Some,
        ensures
            final(self).wf(),
            final(self).root() == old(self).root(),
            final(self).target() == old(self).target(),
            final(self).pending() == old(self).pending() + pushes(
                old(self).target(),
                old(self).current()->0,
                entries@.map_values(|e: Entry| e@),
            ),
            final(self).current() is None,
            final(self).hits() == old(self).hits(),
    {
        let dir = self.current.take().unwrap();
        let ghost es = entries@.map_values(|e: Entry| e@);
        let ghost base = self.pending();
        let n: usize = entries.len();
        let mut i: usize = n;
        assert(es.subrange(n as int, n as int) =~= seq![]);
        while i > 0
            invariant
                i <= n,
                n == entries.len(),
                es == entries@.map_values(|e: Entry| e@),
                dir@ == old(self).current()->0,
                dir@ == self.root@ || lies_under(self.root@, dir@),
                self.current is None,
                self.root == old(self).root,
                self.target() == old(self).target(),
                self.found == old(self).found,
                self.pending() == base + pushes(self.target(), dir@, es.subrange(i as int, n as int)),
                items_below(self.root@, self.pending()),
            decreases i,
        {
            i = i - 1;
            let e = &entries[i];
            let ghost before = self.pending();
            let path = join(dir.as_str(), e.name.as_str());
            proof {
                lemma_under_transitive(self.root@, dir@, e.name@);
            }
            let hit = match &self.target {
                Target::Marker(_) => e.is_dir && e.marked,
                Target::Files(p) => e.is_file && p.is_match(e.name.as_str()),
            };
            if hit {
                self.pending.push(Item::Found(path));
            } else if e.is_dir {
                self.pending.push(Item::Descend(path));
            }
            assert(es.subrange(i as int, n as int).drop_first() =~= es.subrange(i + 1, n as int));
            assert(es.subrange(i as int, n as int)[0] == e@);
            assert(self.pending() =~= before + opt_seq(item_of(self.target(), dir@, e@)));
        }
        assert(es.subrange(0, n as int) =~= es);
        assert(self.hits() == old(self).hits());
    }

    /// Whether the walk is over.
    pub fn is_done(&self) -> (r: bool)
        ensures
            r == (self.pending().len() == 0 && self.current() is None),
    {
        self.pending.len() == 0 && self.current.is_none()
    }

    /// The hits so far, in the order of the walk.
    pub fn found(&self) -> (r: &Vec<String>)
        requires
            self.wf(),
        ensures
            strings_view(r@) == self.hits(),
            forall|i: int| 0 <= i < r@.len() ==> lies_under(self.root(), #[trigger] r@[i]@),
    {
        proof {
            assert forall|i: int| 0 <= i < self.found@.len() implies lies_under(
                self.root(),
                #[trigger] self.found@[i]@,
            ) by {
                assert(self.hits()[i] == self.found@[i]@);
            }
        }
        &self.found
    }

    /// The marker name, for a scan that looks for directories.
    pub fn marker(&self) -> (r: Option<&str>)
        ensures
            r is None <==> self.target() is Files,
            r matches Some(m) ==> self.target() == TargetView::Marker(m@),
    {
        match &self.target {
            Target::Marker(m) => Some(m.as_str()),
            Target::Files(_) => None,
        }
    }
}

/// Starts a walk below `dir` for the directories holding a child named `name`.
pub fn find_dirs<'a>(dir: &str, name: &str) -> (r: Scan<'a>)
    ensures
        r.wf(),
        r.root() == dir@,
        r.target() == TargetView::Marker(name@),
        r.pending() == seq![ItemView::Descend(dir@)],
        r.current() is None,
        r.hits().len() == 0,
{
    Scan::start(dir, Target::Marker(name.to_owned()))
}

/// Starts a walk below `dir` for the files whose base name `pattern` matches.
pub fn find_files<'a>(dir: &str, pattern: &'a Pattern) -> (r: Scan<'a>)
    ensures
        r.wf(),
        r.root() == dir@,
        r.target() == TargetView::Files(pattern@),
        r.pending() == seq![ItemView::Descend(dir@)],
        r.current() is None,
        r.hits().len() == 0,
{
    Scan::start(dir, Target::Files(pattern))
}

} // verus!
