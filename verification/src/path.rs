//! Lexical rules for `/`-separated paths: which relative paths are safe to
//! resolve, how a relative path is joined to a base, and which directory
//! holds a resolved path.

use vstd::prelude::*;

verus! {

/// Whether a `..` segment starts at index `i` of `p`.
pub open spec fn parent_ref_at(p: Seq<char>, i: int) -> bool {
    &&& 0 <= i
    &&& i + 2 <= p.len()
    &&& p[i] == '.'
    &&& p[i + 1] == '.'
    &&& (i == 0 || p[i - 1] == '/')
    &&& (i + 2 == p.len() || p[i + 2] == '/')
}

/// Whether some segment of `p` is `..`.
pub open spec fn has_parent_ref(p: Seq<char>) -> bool {
    exists|i: int| parent_ref_at(p, i)
}

/// A relative path that cannot leave the directory it is resolved against:
/// it is not empty, does not start at the filesystem root, and holds no `..`
/// segment.
pub open spec fn is_safe_relative(p: Seq<char>) -> bool {
    &&& p.len() > 0
    &&& p[0] != '/'
    &&& !has_parent_ref(p)
}

/// `rel` resolved against `base`: the two with exactly one separator between
/// them, unless `base` is empty or already ends in one.
pub open spec fn join(base: Seq<char>, rel: Seq<char>) -> Seq<char> {
    if base.len() == 0 || base.last() == '/' {
        base + rel
    } else {
        base + seq!['/'] + rel
    }
}

/// The index of the last separator in `p`, or `-1` where it has none.
pub open spec fn last_separator(p: Seq<char>) -> int
    decreases p.len(),
{
    if p.len() == 0 {
        -1
    } else if p.last() == '/' {
        p.len() - 1
    } else {
        last_separator(p.drop_last())
    }
}

/// The directory that holds `rel` once it is resolved against `base`: `base`
/// joined with what stands before the last separator of `rel`, and `base`
/// itself where `rel` has a single segment.
pub open spec fn parent_dir(base: Seq<char>, rel: Seq<char>) -> Seq<char> {
    let k = last_separator(rel);
    if k <= 0 {
        base
    } else {
        join(base, rel.take(k))
    }
}

/// `path` is what some safe relative path resolves to against `root`.
pub open spec fn resolves_within(root: Seq<char>, path: Seq<char>) -> bool {
    exists|rel: Seq<char>| is_safe_relative(rel) && path == join(root, rel)
}

/// `last_separator` finds a separator after which none follows.
pub proof fn lemma_last_separator(p: Seq<char>)
    ensures
        -1 <= last_separator(p) < p.len(),
        last_separator(p) >= 0 ==> p[last_separator(p)] == '/',
        forall|j: int| last_separator(p) < j < p.len() ==> p[j] != '/',
    decreases p.len(),
{
    if p.len() > 0 && p.last() != '/' {
        let front = p.drop_last();
        lemma_last_separator(front);
        assert forall|j: int| last_separator(p) < j < p.len() implies p[j] != '/' by {
            if j < front.len() {
                assert(front[j] == p[j]);
            }
        }
    }
}

/// A separator after which none follows is the one `last_separator` finds.
pub proof fn lemma_last_separator_unique(p: Seq<char>, k: int)
    requires
        -1 <= k < p.len(),
        k >= 0 ==> p[k] == '/',
        forall|j: int| k < j < p.len() ==> p[j] != '/',
    ensures
        last_separator(p) == k,
{
    lemma_last_separator(p);
}

/// Joining is associative: resolving `second` against the resolved `first`
/// is resolving their join against the base.
pub proof fn lemma_join_assoc(base: Seq<char>, first: Seq<char>, second: Seq<char>)
    requires
        first.len() > 0,
    ensures
        join(join(base, first), second) == join(base, join(first, second)),
{
    assert(join(base, first).last() == first.last());
    assert(join(join(base, first), second) =~= join(base, join(first, second)));
}

/// The join of two safe relative paths is a safe relative path.
pub proof fn lemma_join_safe(first: Seq<char>, second: Seq<char>)
    requires
        is_safe_relative(first),
        is_safe_relative(second),
    ensures
        is_safe_relative(join(first, second)),
{
    let joined = join(first, second);
    let offset = joined.len() - second.len();
    assert forall|i: int| !parent_ref_at(joined, i) by {
        if parent_ref_at(joined, i) {
            if i + 2 <= first.len() {
                assert(parent_ref_at(first, i));
            } else if i >= offset {
                assert(parent_ref_at(second, i - offset));
            }
        }
    }
}

/// What stands before a separator of a safe relative path is one too.
pub proof fn lemma_prefix_safe(rel: Seq<char>, k: int)
    requires
        is_safe_relative(rel),
        0 < k < rel.len(),
        rel[k] == '/',
    ensures
        is_safe_relative(rel.take(k)),
{
    assert forall|i: int| !parent_ref_at(rel.take(k), i) by {
        if parent_ref_at(rel.take(k), i) {
            assert(parent_ref_at(rel, i));
        }
    }
}

/// The characters of `s`, in order.
pub fn chars_of(s: &str) -> (v: Vec<char>)
    ensures
        v@ == s@,
{
    let mut v: Vec<char> = Vec::new();
    for c in it: s.chars()
        invariant
            it.seq() == s@,
            v@ == s@.take(it.index()),
    {
        v.push(c);
    }
    v
}

/// Whether `path` is a safe relative path.
pub fn is_safe_relative_path(path: &str) -> (ok: bool)
    ensures
        ok == is_safe_relative(path@),
{
    let cs = chars_of(path);
    let n: usize = cs.len();
    if n == 0 || cs[0] == '/' {
        return false;
    }
    let mut i: usize = 0;
    while i < n
        invariant
            cs@ == path@,
            n == cs.len(),
            i <= n,
            forall|j: int| 0 <= j < i ==> !parent_ref_at(path@, j),
        decreases n - i,
    {
        let starts = n - i >= 2 && cs[i] == '.' && cs[i + 1] == '.';
        let opens = i == 0 || cs[i - 1] == '/';
        if starts && opens && (n - i == 2 || cs[i + 2] == '/') {
            assert(parent_ref_at(path@, i as int));
            return false;
        }
        i += 1;
    }
    true
}

/// `rel` resolved against `base`.
pub fn join_path(base: &str, rel: &str) -> (full: String)
    ensures
        full@ == join(base@, rel@),
{
    let n: usize = base.unicode_len();
    let mut full = String::from_str(base);
    if n > 0 && base.get_char(n - 1) != '/' {
        proof {
            reveal_strlit("/");
        }
        assert("/"@ =~= seq!['/']);
        full.append("/");
    }
    full.append(rel);
    full
}

/// The directory that holds `rel` once it is resolved against `base`.
pub fn parent_path(base: &str, rel: &str) -> (dir: String)
    ensures
        dir@ == parent_dir(base@, rel@),
{
    let cs = chars_of(rel);
    let mut k: usize = cs.len();
    while k > 0 && cs[k - 1] != '/'
        invariant
            cs@ == rel@,
            k <= cs.len(),
            forall|j: int| k <= j < cs.len() ==> cs@[j] != '/',
        decreases k,
    {
        k -= 1;
    }
    proof {
        lemma_last_separator_unique(rel@, k as int - 1);
    }
    if k <= 1 {
        String::from_str(base)
    } else {
        join_path(base, rel.substring_char(0, k - 1))
    }
}

} // verus!
