//! Paths as text: joining a name onto a directory and taking a base directory
//! off the front of a path.

use vstd::prelude::*;
use vstd::string::*;

verus! {

/// `p` as the front of the paths below it: with a trailing separator, unless it
/// is empty or already ends in one.
pub open spec fn dir_prefix(p: Seq<char>) -> Seq<char> {
    if p.len() == 0 || p.last() == '/' {
        p
    } else {
        p.push('/')
    }
}

/// The path of the entry `name` inside the directory `dir`.
pub open spec fn joined(dir: Seq<char>, name: Seq<char>) -> Seq<char> {
    dir_prefix(dir) + name
}

/// `p` lies inside the directory `base`.
pub open spec fn lies_under(base: Seq<char>, p: Seq<char>) -> bool {
    dir_prefix(base).is_prefix_of(p)
}

/// `p` with the directory `base` taken off its front.
pub open spec fn stripped(base: Seq<char>, p: Seq<char>) -> Seq<char> {
    p.subrange(dir_prefix(base).len() as int, p.len() as int)
}

/// Joining and then stripping the same directory gives the name back.
pub proof fn lemma_strip_joined(dir: Seq<char>, name: Seq<char>)
    ensures
        lies_under(dir, joined(dir, name)),
        stripped(dir, joined(dir, name)) == name,
{
    let j = joined(dir, name);
    assert(j.subrange(0, dir_prefix(dir).len() as int) =~= dir_prefix(dir));
    assert(j.subrange(dir_prefix(dir).len() as int, j.len() as int) =~= name);
}

/// Joining the stripped path back onto the directory gives the path.
pub proof fn lemma_join_stripped(base: Seq<char>, p: Seq<char>)
    requires
        lies_under(base, p),
    ensures
        joined(base, stripped(base, p)) == p,
{
    assert(joined(base, stripped(base, p)) =~= p);
}

/// A path inside `dir` lies inside every directory that `dir` lies inside, and
/// so does every path joined onto `dir`.
pub proof fn lemma_under_transitive(base: Seq<char>, dir: Seq<char>, name: Seq<char>)
    requires
        dir == base || lies_under(base, dir),
    ensures
        lies_under(base, joined(dir, name)),
{
    let j = joined(dir, name);
    let bp = dir_prefix(base);
    assert(dir.is_prefix_of(dir_prefix(dir))) by {
        assert(dir_prefix(dir).subrange(0, dir.len() as int) =~= dir);
    }
    assert(dir_prefix(dir).is_prefix_of(j)) by {
        assert(j.subrange(0, dir_prefix(dir).len() as int) =~= dir_prefix(dir));
    }
    if dir == base {
        assert(j.subrange(0, bp.len() as int) =~= bp);
    } else {
        assert forall|k: int| 0 <= k < bp.len() implies bp[k] == j[k] by {
            assert(bp[k] == dir.subrange(0, bp.len() as int)[k]);
            assert(dir[k] == dir_prefix(dir)[k]);
        }
        assert(j.subrange(0, bp.len() as int) =~= bp);
    }
}

/// A path inside `dir` lies inside every directory that `dir` lies inside.
pub proof fn lemma_under_chain(base: Seq<char>, dir: Seq<char>, p: Seq<char>)
    requires
        lies_under(base, dir),
        lies_under(dir, p),
    ensures
        lies_under(base, p),
{
    let bp = dir_prefix(base);
    assert forall|k: int| 0 <= k < bp.len() implies bp[k] == p[k] by {
        assert(bp[k] == dir.subrange(0, bp.len() as int)[k]);
        assert(dir[k] == dir_prefix(dir)[k]);
        assert(dir_prefix(dir)[k] == p.subrange(0, dir_prefix(dir).len() as int)[k]);
    }
    assert(p.subrange(0, bp.len() as int) =~= bp);
}

/// Relative to a common base, a path inside `dir` lies inside `dir`'s relative
/// path, and stripping one relative path from the other strips `dir` from it.
pub proof fn lemma_strip_nested(base: Seq<char>, dir: Seq<char>, p: Seq<char>)
    requires
        lies_under(base, dir),
        lies_under(dir, p),
    ensures
        lies_under(stripped(base, dir), stripped(base, p)),
        stripped(stripped(base, dir), stripped(base, p)) == stripped(dir, p),
{
    lemma_under_chain(base, dir, p);
    let r = dir_prefix(base);
    let a = stripped(base, dir);
    let b = stripped(base, p);
    let c = stripped(dir, p);
    assert(dir =~= r + a);
    assert(p =~= r + b);
    assert(p =~= dir_prefix(dir) + c);
    if a.len() == 0 {
        assert(dir =~= r);
        assert(dir_prefix(dir) =~= r);
        assert(dir_prefix(a) =~= a);
        assert(b =~= c);
    } else {
        assert(dir.last() == a.last());
        assert(dir_prefix(dir) =~= r + dir_prefix(a));
        assert(b =~= dir_prefix(a) + c);
    }
    assert(b.subrange(0, dir_prefix(a).len() as int) =~= dir_prefix(a));
    assert(b.subrange(dir_prefix(a).len() as int, b.len() as int) =~= c);
}

/// The directory `p` as a prefix of the paths inside it.
fn prefix_of_dir(p: &str) -> (r: String)
    ensures
        r@ == dir_prefix(p@),
{
    let n: usize = p.unicode_len();
    let mut r = String::from_str(p);
    if n > 0 && p.get_char(n - 1) != '/' {
        let sep = "/";
        proof {
            reveal_strlit("/");
        }
        r.append(sep);
    }
    r
}

/// The path of the entry `name` inside the directory `dir`.
pub fn join(dir: &str, name: &str) -> (r: String)
    ensures
        r@ == joined(dir@, name@),
{
    let mut r = prefix_of_dir(dir);
    r.append(name);
    r
}

/// `p` relative to the directory `base`, or `None` where `p` does not lie inside it.
pub fn strip_base(base: &str, p: &str) -> (r: Option<String>)
    ensures
        r is Some <==> lies_under(base@, p@),
        r matches Some(s) ==> s@ == stripped(base@, p@),
{
    let prefix = prefix_of_dir(base);
    let pre = prefix.as_str();
    let m: usize = pre.unicode_len();
    let n: usize = p.unicode_len();
    if m > n {
        return None;
    }
    let mut i: usize = 0;
    while i < m
        invariant
            m == pre@.len(),
            n == p@.len(),
            m <= n,
            pre@ == dir_prefix(base@),
            i <= m,
            forall|j: int| 0 <= j < i ==> pre@[j] == p@[j],
        decreases m - i,
    {
        if pre.get_char(i) != p.get_char(i) {
            assert(pre@ != p@.subrange(0, m as int));
            return None;
        }
        i = i + 1;
    }
    assert(pre@ =~= p@.subrange(0, m as int));
    Some(p.substring_char(m, n).to_owned())
}

} // verus!
