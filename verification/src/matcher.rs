//! The release matcher: selects, from parallel newest-first lists of
//! extracted versions and download links, the release that satisfies a
//! version constraint.

use vstd::prelude::*;
use crate::specifier::VersionConstraint;
use crate::version::VersionTuple;

verus! {

/// The selected release: its canonical version string and download link,
/// owned copies with no back-reference to the listing.
#[derive(Clone, PartialEq, Eq, Debug)]
pub struct ResolvedRelease {
    pub version: String,
    pub link: String,
}

/// Whether a version satisfies a constraint.
pub open spec fn constraint_matches(c: VersionConstraint, t: VersionTuple) -> bool {
    match c {
        VersionConstraint::Exact(e) => t == e,
        VersionConstraint::PatchWildcard(ma, mi) => t.major == ma && t.minor == mi,
        VersionConstraint::MinorWildcard(ma) => t.major == ma,
        VersionConstraint::Newest => true,
    }
}

/// The patch field as a rank: an absent patch ranks below any present one.
pub open spec fn patch_rank(t: VersionTuple) -> int {
    match t.patch {
        Some(p) => p as int,
        None => -1,
    }
}

/// The pair by which matching releases are compared, lexicographically.
/// `Exact` and `Newest` rank every match alike, so list order decides;
/// the wildcards prefer the numerically greatest unfixed fields.
pub open spec fn constraint_rank(c: VersionConstraint, t: VersionTuple) -> (int, int) {
    match c {
        VersionConstraint::Exact(_) => (0, 0),
        VersionConstraint::PatchWildcard(_, _) => (patch_rank(t), 0),
        VersionConstraint::MinorWildcard(_) => (t.minor as int, patch_rank(t)),
        VersionConstraint::Newest => (0, 0),
    }
}

/// Lexicographic order on rank pairs.
pub open spec fn rank_le(a: (int, int), b: (int, int)) -> bool {
    a.0 < b.0 || (a.0 == b.0 && a.1 <= b.1)
}

/// `i` is the index the matcher selects among the first `n` versions: it
/// matches the constraint, no match in range ranks above it, and no earlier
/// match ranks equal to it.
pub open spec fn is_selected_upto(
    c: VersionConstraint,
    vs: Seq<VersionTuple>,
    i: int,
    n: int,
) -> bool {
    &&& 0 <= i < n <= vs.len()
    &&& constraint_matches(c, vs[i])
    &&& forall|j: int| 0 <= j < n && constraint_matches(c, #[trigger] vs[j])
        ==> rank_le(constraint_rank(c, vs[j]), constraint_rank(c, vs[i]))
    &&& forall|j: int| 0 <= j < i && constraint_matches(c, #[trigger] vs[j])
        ==> constraint_rank(c, vs[j]) != constraint_rank(c, vs[i])
}

/// `i` is the index the matcher selects from the whole list.
pub open spec fn is_selected(c: VersionConstraint, vs: Seq<VersionTuple>, i: int) -> bool {
    is_selected_upto(c, vs, i, vs.len() as int)
}

/// The matcher's choice is unique: two selected indices are the same index.
/// In particular, re-resolving the same inputs yields the same release.
pub proof fn lemma_selected_unique(
    c: VersionConstraint,
    vs: Seq<VersionTuple>,
    i: int,
    j: int,
)
    requires
        is_selected(c, vs, i),
        is_selected(c, vs, j),
    ensures
        i == j,
{
    if i < j {
        assert(rank_le(constraint_rank(c, vs[i]), constraint_rank(c, vs[j])));
        assert(rank_le(constraint_rank(c, vs[j]), constraint_rank(c, vs[i])));
    } else if j < i {
        assert(rank_le(constraint_rank(c, vs[i]), constraint_rank(c, vs[j])));
        assert(rank_le(constraint_rank(c, vs[j]), constraint_rank(c, vs[i])));
    }
}

/// Under `Newest` the selected release is the one at position 0, whatever
/// the versions hold: every entry matches and all rank alike, so only list
/// order decides.
pub proof fn lemma_newest_selects_first(vs: Seq<VersionTuple>, i: int)
    requires
        is_selected(VersionConstraint::Newest, vs, i),
    ensures
        i == 0,
{
    if i != 0 {
        assert(constraint_matches(VersionConstraint::Newest, vs[0]));
    }
}

/// Under `Exact` the matcher is an exhaustive first-match scan: the selected
/// entry equals the requested tuple and no earlier entry does.
pub proof fn lemma_exact_first_match(t: VersionTuple, vs: Seq<VersionTuple>, i: int)
    requires
        is_selected(VersionConstraint::Exact(t), vs, i),
    ensures
        vs[i] == t,
        forall|j: int| 0 <= j < i ==> vs[j] != t,
{
    assert forall|j: int| 0 <= j < i implies vs[j] != t by {
        if vs[j] == t {
            assert(constraint_matches(VersionConstraint::Exact(t), vs[j]));
        }
    }
}

/// Whether a version satisfies a constraint.
fn matches_exec(c: &VersionConstraint, t: &VersionTuple) -> (r: bool)
    ensures
        r == constraint_matches(*c, *t),
{
    match c {
        VersionConstraint::Exact(e) => *t == *e,
        VersionConstraint::PatchWildcard(ma, mi) => t.major == *ma && t.minor == *mi,
        VersionConstraint::MinorWildcard(ma) => t.major == *ma,
        VersionConstraint::Newest => true,
    }
}

/// The comparison rank of a matching version, as machine integers.
fn rank_exec(c: &VersionConstraint, t: &VersionTuple) -> (r: (i64, i64))
    ensures
        r.0 as int == constraint_rank(*c, *t).0,
        r.1 as int == constraint_rank(*c, *t).1,
{
    let pr: i64 = match t.patch {
        Some(p) => p as i64,
        None => -1,
    };
    match c {
        VersionConstraint::Exact(_) => (0, 0),
        VersionConstraint::PatchWildcard(_, _) => (pr, 0),
        VersionConstraint::MinorWildcard(_) => (t.minor as i64, pr),
        VersionConstraint::Newest => (0, 0),
    }
}

/// Selects the release satisfying `constraint` from parallel newest-first
/// lists of versions and links.
///
/// `Newest` takes position 0 unconditionally; `Exact` takes the first
/// structurally equal entry; the wildcards take the entry with the greatest
/// unfixed fields, earliest entry on ties. No satisfying entry is not an
/// error: the result is simply `None`.
pub fn resolve(
    constraint: VersionConstraint,
    versions: &Vec<VersionTuple>,
    links: &Vec<String>,
) -> (r: Option<ResolvedRelease>)
    requires
        versions@.len() == links@.len(),
    ensures
        match r {
            Some(rr) => exists|i: int| #[trigger] is_selected(constraint, versions@, i)
                && rr.version@ == versions@[i].canonical() && rr.link@ == links@[i]@,
            None => forall|i: int| 0 <= i < versions@.len()
                ==> !constraint_matches(constraint, #[trigger] versions@[i]),
        },
        constraint is Newest && versions@.len() > 0 ==> match r {
            Some(rr) => rr.version@ == versions@[0].canonical() && rr.link@ == links@[0]@,
            None => false,
        },
{
    let n = versions.len();
    let mut best: Option<usize> = None;
    let mut idx: usize = 0;
    while idx < n
        invariant
            idx <= n,
            n == versions@.len(),
            match best {
                Some(b) => is_selected_upto(constraint, versions@, b as int, idx as int),
                None => forall|j: int| 0 <= j < idx
                    ==> !constraint_matches(constraint, #[trigger] versions@[j]),
            },
        decreases n - idx,
    {
        let t = versions[idx];
        if matches_exec(&constraint, &t) {
            let take_new = match best {
                None => true,
                Some(b) => {
                    let rb = rank_exec(&constraint, &versions[b]);
                    let rt = rank_exec(&constraint, &t);
                    rt.0 > rb.0 || (rt.0 == rb.0 && rt.1 > rb.1)
                }
            };
            if take_new {
                best = Some(idx);
            }
        }
        idx = idx + 1;
    }
    match best {
        Some(b) => {
            assert(is_selected(constraint, versions@, b as int));
            proof {
                if constraint is Newest {
                    lemma_newest_selects_first(versions@, b as int);
                }
            }
            let rr = ResolvedRelease { version: versions[b].stringify(), link: links[b].clone() };
            assert(rr.version@ == versions@[b as int].canonical()
                && rr.link@ == links@[b as int]@);
            Some(rr)
        }
        None => {
            assert(constraint is Newest && versions@.len() > 0
                ==> constraint_matches(constraint, versions@[0]));
            None
        }
    }
}

} // verus!
