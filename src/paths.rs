//! Paths relative to a managed root, as `/`-separated strings.
use vstd::prelude::*;

use crate::names::name_eq;

verus! {

/// The directories at the top of the game's own tree. Extraction keeps only
/// entries under one of them, and cleanup never removes one of them.
pub open spec fn is_protected(segment: Seq<char>) -> bool {
    segment == "r6"@ || segment == "archive"@ || segment == "bin"@ || segment == "red4ext"@
        || segment == "engine"@
}

/// `rel` placed under `base`, with one separator between them.
pub open spec fn join_spec(base: Seq<char>, rel: Seq<char>) -> Seq<char> {
    if base.len() == 0 {
        rel
    } else if base.last() == '/' {
        base + rel
    } else {
        base + seq!['/'] + rel
    }
}

/// What follows the last separator of `p` (all of `p` if it has none).
pub open spec fn last_segment(p: Seq<char>) -> Seq<char>
    decreases p.len(),
{
    if p.len() == 0 {
        p
    } else if p.last() == '/' {
        Seq::empty()
    } else {
        last_segment(p.drop_last()).push(p.last())
    }
}

/// What precedes the first separator of `p` (all of `p` if it has none).
pub open spec fn first_segment(p: Seq<char>) -> Seq<char>
    decreases p.len(),
{
    if p.len() == 0 {
        p
    } else if p[0] == '/' {
        Seq::empty()
    } else {
        seq![p[0]].add(first_segment(p.drop_first()))
    }
}

/// The directories above `p` that may be removed once they are empty, nearest
/// first: each parent in turn, stopping before the top (the empty parent) and
/// before a protected directory.
pub open spec fn cleanup_dirs_spec(p: Seq<char>) -> Seq<Seq<char>>
    decreases p.len(),
{
    if p.len() == 0 {
        Seq::empty()
    } else if p.last() != '/' {
        cleanup_dirs_spec(p.drop_last())
    } else {
        let d = p.drop_last();
        if d.len() == 0 || is_protected(last_segment(d)) {
            Seq::empty()
        } else {
            seq![d] + cleanup_dirs_spec(d)
        }
    }
}

/// Whether `segment` names a protected directory.
pub fn is_protected_root_segment(segment: &str) -> (r: bool)
    ensures
        r == is_protected(segment@),
{
    name_eq(segment, "r6") || name_eq(segment, "archive") || name_eq(segment, "bin") || name_eq(
        segment,
        "red4ext",
    ) || name_eq(segment, "engine")
}

/// Places `rel` under `base`.
pub fn join(base: &str, rel: &str) -> (r: String)
    ensures
        r@ == join_spec(base@, rel@),
{
    let n = base.unicode_len();
    let mut r = String::from_str(base);
    if n > 0 && base.get_char(n - 1) != '/' {
        r.append("/");
        proof {
            reveal_strlit("/");
        }
    }
    r.append(rel);
    r
}

/// The prefix `p[0..end]` as a string.
fn prefix(p: &str, end: usize) -> (r: String)
    requires
        end <= p@.len(),
    ensures
        r@ == p@.subrange(0, end as int),
{
    String::from_str(p.substring_char(0, end))
}

proof fn lemma_last_segment_from(p: Seq<char>, j: int)
    requires
        0 <= j <= p.len(),
        j == 0 || p[j - 1] == '/',
        forall|k: int| j <= k < p.len() ==> p[k] != '/',
    ensures
        last_segment(p) == p.subrange(j, p.len() as int),
    decreases p.len(),
{
    if p.len() > j {
        lemma_last_segment_from(p.drop_last(), j);
        assert(p.subrange(j, p.len() as int) =~= p.drop_last().subrange(j, p.len() - 1).push(
            p.last(),
        ));
    } else if j > 0 {
        assert(p.last() == '/');
        assert(p.subrange(j, p.len() as int) =~= Seq::<char>::empty());
    } else {
        assert(p.subrange(j, p.len() as int) =~= p);
    }
}

/// Whether the last segment of `p[0..end]` is protected.
fn ends_in_protected(p: &str, end: usize) -> (r: bool)
    requires
        end <= p@.len(),
    ensures
        r == is_protected(last_segment(p@.subrange(0, end as int))),
{
    let ghost d = p@.subrange(0, end as int);
    let mut j: usize = end;
    while j > 0 && p.get_char(j - 1) != '/'
        invariant
            j <= end <= p@.len(),
            forall|k: int| j <= k < end ==> p@[k] != '/',
        decreases j,
    {
        j = j - 1;
    }
    proof {
        lemma_last_segment_from(d, j as int);
        assert(d.subrange(j as int, end as int) =~= p@.subrange(j as int, end as int));
    }
    let seg = p.substring_char(j, end);
    is_protected_root_segment(seg)
}

/// The directories that cleanup may remove after the file at `path` has moved
/// away, nearest first (see [`cleanup_dirs_spec`]). The caller removes them in
/// this order and stops at the first that cannot be removed.
pub fn cleanup_dirs(path: &str) -> (r: Vec<String>)
    ensures
        r.deep_view() == cleanup_dirs_spec(path@),
{
    let mut r: Vec<String> = Vec::new();
    let mut n: usize = path.unicode_len();
    assert(path@.subrange(0, n as int) =~= path@);
    while n > 0
        invariant
            n <= path@.len(),
            r.deep_view() + cleanup_dirs_spec(path@.subrange(0, n as int)) == cleanup_dirs_spec(
                path@,
            ),
        decreases n,
    {
        let ghost cur = path@.subrange(0, n as int);
        assert(cur.drop_last() =~= path@.subrange(0, n - 1));
        if path.get_char(n - 1) == '/' {
            if n - 1 == 0 || ends_in_protected(path, n - 1) {
                assert(cleanup_dirs_spec(cur) =~= Seq::<Seq<char>>::empty());
                assert(r.deep_view() + Seq::<Seq<char>>::empty() =~= r.deep_view());
                return r;
            }
            let d = prefix(path, n - 1);
            let ghost old_r = r.deep_view();
            r.push(d);
            assert(r.deep_view() =~= old_r.push(d@));
            assert(old_r + (seq![d@] + cleanup_dirs_spec(d@)) =~= r.deep_view() + cleanup_dirs_spec(
                d@,
            ));
        }
        n = n - 1;
    }
    assert(cleanup_dirs_spec(path@.subrange(0, 0)) =~= Seq::<Seq<char>>::empty());
    assert(r.deep_view() + Seq::<Seq<char>>::empty() =~= r.deep_view());
    r
}

/// Whether an archive entry at `path` lies under a protected top-level
/// directory, which is what extraction keeps.
pub fn root_dir_common_filter(path: &str) -> (r: bool)
    ensures
        r == is_protected(first_segment(path@)),
{
    let n = path.unicode_len();
    let mut j: usize = 0;
    while j < n && path.get_char(j) != '/'
        invariant
            n == path@.len(),
            j <= n,
            forall|k: int| 0 <= k < j ==> path@[k] != '/',
        decreases n - j,
    {
        j = j + 1;
    }
    proof {
        lemma_first_segment_to(path@, j as int);
    }
    let seg = path.substring_char(0, j);
    is_protected_root_segment(seg)
}

proof fn lemma_first_segment_to(p: Seq<char>, j: int)
    requires
        0 <= j <= p.len(),
        j == p.len() || p[j] == '/',
        forall|k: int| 0 <= k < j ==> p[k] != '/',
    ensures
        first_segment(p) == p.subrange(0, j),
    decreases p.len(),
{
    if j > 0 {
        lemma_first_segment_to(p.drop_first(), j - 1);
        assert(p.subrange(0, j) =~= seq![p[0]].add(p.drop_first().subrange(0, j - 1)));
    } else {
        assert(p.subrange(0, j) =~= Seq::<char>::empty());
    }
}

} // verus!
