//! The label version extractor: locates the dot-separated numeric runs in
//! each release label, and — when labels carry more than one run — picks the
//! column of runs that varies most from release to release, since auxiliary
//! numbers such as compatibility tags tend to repeat or go missing.

use vstd::prelude::*;
use crate::text::{is_digit_char, num_of, str_to_chars, parse_u32_range};
use crate::version::VersionTuple;

verus! {

/// The error of the extractor.
#[derive(Clone, PartialEq, Eq, Debug)]
pub enum ExtractionError {
    /// A label yields no version-like numeric run that fits in `u32`s;
    /// carries the label.
    UnparseableLabel(String),
    /// The selected column is missing from some label; an internal
    /// invariant violation of the heuristic, surfaced rather than masked.
    InconsistentColumns,
}

/// The numeric groups of one located version run, unbounded.
pub ghost struct RawCandidate {
    pub major: nat,
    pub minor: nat,
    pub patch: Option<nat>,
    pub build: Option<nat>,
}

/// The end (exclusive) of the digit run starting at `i`; `i` itself when no
/// digit stands there.
pub open spec fn run_end(s: Seq<char>, i: int) -> int
    decreases s.len() - i when i <= s.len()
{
    if i < 0 || i >= s.len() || !is_digit_char(s[i]) {
        i
    } else {
        run_end(s, i + 1)
    }
}

/// Bounds and contents of a digit run.
pub proof fn lemma_run_end(s: Seq<char>, i: int)
    requires
        0 <= i <= s.len(),
    ensures
        i <= run_end(s, i) <= s.len(),
        forall|k: int| i <= k < run_end(s, i) ==> is_digit_char(#[trigger] s[k]),
        run_end(s, i) < s.len() ==> !is_digit_char(s[run_end(s, i)]),
    decreases s.len() - i,
{
    if i < s.len() && is_digit_char(s[i]) {
        lemma_run_end(s, i + 1);
    }
}

/// A version run starts at `j`: a digit run, a dot, and at least one more
/// digit.
pub open spec fn starts_match(s: Seq<char>, j: int) -> bool {
    &&& 0 <= j < s.len()
    &&& is_digit_char(s[j])
    &&& run_end(s, j) + 1 < s.len()
    &&& s[run_end(s, j)] == '.'
    &&& is_digit_char(s[run_end(s, j) + 1])
}

/// The end (exclusive) of the version run starting at `j`: major and minor,
/// then a dot-joined patch and build where they directly follow.
pub open spec fn cand_end(s: Seq<char>, j: int) -> int {
    let e2 = run_end(s, run_end(s, j) + 1);
    if e2 + 1 < s.len() && s[e2] == '.' && is_digit_char(s[e2 + 1]) {
        let e3 = run_end(s, e2 + 1);
        if e3 + 1 < s.len() && s[e3] == '.' && is_digit_char(s[e3 + 1]) {
            run_end(s, e3 + 1)
        } else {
            e3
        }
    } else {
        e2
    }
}

/// The numeric groups of the version run starting at `j`.
pub open spec fn cand_at(s: Seq<char>, j: int) -> RawCandidate {
    let e1 = run_end(s, j);
    let e2 = run_end(s, e1 + 1);
    let major = num_of(s.subrange(j, e1));
    let minor = num_of(s.subrange(e1 + 1, e2));
    if e2 + 1 < s.len() && s[e2] == '.' && is_digit_char(s[e2 + 1]) {
        let e3 = run_end(s, e2 + 1);
        let patch = num_of(s.subrange(e2 + 1, e3));
        if e3 + 1 < s.len() && s[e3] == '.' && is_digit_char(s[e3 + 1]) {
            let e4 = run_end(s, e3 + 1);
            RawCandidate {
                major,
                minor,
                patch: Some(patch),
                build: Some(num_of(s.subrange(e3 + 1, e4))),
            }
        } else {
            RawCandidate { major, minor, patch: Some(patch), build: None }
        }
    } else {
        RawCandidate { major, minor, patch: None, build: None }
    }
}

/// A version run spans at least `major`, the dot, and one minor digit.
pub proof fn lemma_cand_end(s: Seq<char>, j: int)
    requires
        starts_match(s, j),
    ensures
        j + 2 < cand_end(s, j) <= s.len(),
{
    lemma_run_end(s, j);
    let e1 = run_end(s, j);
    lemma_run_end(s, e1 + 1);
    let e2 = run_end(s, e1 + 1);
    assert(e2 > e1 + 1);
    if e2 + 1 < s.len() && s[e2] == '.' && is_digit_char(s[e2 + 1]) {
        lemma_run_end(s, e2 + 1);
        let e3 = run_end(s, e2 + 1);
        if e3 + 1 < s.len() && s[e3] == '.' && is_digit_char(s[e3 + 1]) {
            lemma_run_end(s, e3 + 1);
        }
    }
}

/// The least position at or after `i` where a version run starts, or the
/// length of `s` when none does.
pub open spec fn next_match_start(s: Seq<char>, i: int) -> int
    decreases s.len() - i when i <= s.len()
{
    if i < 0 {
        next_match_start(s, 0)
    } else if i >= s.len() {
        s.len() as int
    } else if starts_match(s, i) {
        i
    } else {
        next_match_start(s, i + 1)
    }
}

/// Bounds and characterization of the next version-run start.
pub proof fn lemma_next_match_start(s: Seq<char>, i: int)
    requires
        0 <= i <= s.len(),
    ensures
        i <= next_match_start(s, i) <= s.len(),
        next_match_start(s, i) < s.len() ==> starts_match(s, next_match_start(s, i)),
        forall|k: int| i <= k < next_match_start(s, i) ==> !starts_match(s, k),
    decreases s.len() - i,
{
    if i < s.len() && !starts_match(s, i) {
        lemma_next_match_start(s, i + 1);
    }
}

/// All version runs of `s` at or after position `i`, leftmost first,
/// non-overlapping.
pub open spec fn scan_from(s: Seq<char>, i: int) -> Seq<RawCandidate>
    decreases s.len() - i when 0 <= i <= s.len() via scan_from_dec
{
    let j = next_match_start(s, i);
    if j >= s.len() {
        Seq::<RawCandidate>::empty()
    } else {
        seq![cand_at(s, j)] + scan_from(s, cand_end(s, j))
    }
}

#[via_fn]
proof fn scan_from_dec(s: Seq<char>, i: int) {
    if 0 <= i <= s.len() {
        lemma_next_match_start(s, i);
        let j = next_match_start(s, i);
        if j < s.len() {
            lemma_cand_end(s, j);
        }
    }
}

/// All version runs of a label.
pub open spec fn label_cands(s: Seq<char>) -> Seq<RawCandidate> {
    scan_from(s, 0)
}

/// The groups of an extracted tuple, unbounded.
pub open spec fn tuple_raw(t: VersionTuple) -> RawCandidate {
    RawCandidate {
        major: t.major as nat,
        minor: t.minor as nat,
        patch: match t.patch {
            Some(p) => Some(p as nat),
            None => None,
        },
        build: match t.build {
            Some(b) => Some(b as nat),
            None => None,
        },
    }
}

/// Every group of the run fits in a `u32`.
pub open spec fn raw_fits(rc: RawCandidate) -> bool {
    &&& rc.major <= u32::MAX
    &&& rc.minor <= u32::MAX
    &&& match rc.patch {
        Some(p) => p <= u32::MAX,
        None => true,
    }
    &&& match rc.build {
        Some(b) => b <= u32::MAX,
        None => true,
    }
}

/// The tuple of a fitting run.
pub open spec fn raw_tuple(rc: RawCandidate) -> VersionTuple {
    VersionTuple {
        major: rc.major as u32,
        minor: rc.minor as u32,
        patch: match rc.patch {
            Some(p) => Some(p as u32),
            None => None,
        },
        build: match rc.build {
            Some(b) => Some(b as u32),
            None => None,
        },
    }
}

/// A label the extractor accepts: at least one version run, all of whose
/// groups fit.
pub open spec fn label_ok(s: Seq<char>) -> bool {
    label_cands(s).len() > 0
        && forall|k: int| 0 <= k < label_cands(s).len()
            ==> raw_fits(#[trigger] label_cands(s)[k])
}

/// Every position inside a digit run ends it at the same place.
pub proof fn lemma_run_end_same(s: Seq<char>, i: int)
    requires
        0 <= i <= s.len(),
    ensures
        forall|k: int| i <= k <= run_end(s, i) ==> #[trigger] run_end(s, k) == run_end(s, i),
    decreases s.len() - i,
{
    lemma_run_end(s, i);
    if i < s.len() && is_digit_char(s[i]) {
        lemma_run_end_same(s, i + 1);
    }
}

/// Skipping positions where no version run starts does not change the next
/// start.
pub proof fn lemma_next_match_skip(s: Seq<char>, i: int, e: int)
    requires
        0 <= i <= e <= s.len(),
        forall|k: int| i <= k < e ==> !starts_match(s, k),
    ensures
        next_match_start(s, i) == next_match_start(s, e),
    decreases e - i,
{
    if i < e {
        lemma_next_match_skip(s, i + 1, e);
    }
}

/// A decimal digit, as the scanner reads one.
fn is_digit_exec(c: char) -> (r: bool)
    ensures
        r == is_digit_char(c),
{
    '0' <= c && c <= '9'
}

/// The end of the digit run starting at `i`.
fn run_end_exec(v: &Vec<char>, i: usize) -> (e: usize)
    requires
        i <= v@.len(),
    ensures
        e as int == run_end(v@, i as int),
        i <= e <= v@.len(),
{
    let n = v.len();
    let mut e = i;
    while e < n && ('0' <= v[e] && v[e] <= '9')
        invariant
            i <= e <= n,
            n == v@.len(),
            run_end(v@, i as int) == run_end(v@, e as int),
        decreases n - e,
    {
        e = e + 1;
    }
    proof {
        lemma_run_end(v@, e as int);
    }
    e
}

/// Locates every version run of one label, reading each into a tuple.
/// `None` when a located group overflows `u32`.
fn find_candidates(v: &Vec<char>) -> (r: Option<Vec<VersionTuple>>)
    ensures
        match r {
            Some(cands) => cands@.map_values(|t: VersionTuple| tuple_raw(t)) == label_cands(v@),
            None => exists|k: int| 0 <= k < label_cands(v@).len()
                && !raw_fits(#[trigger] label_cands(v@)[k]),
        },
{
    let ghost s = v@;
    let n = v.len();
    let mut out: Vec<VersionTuple> = Vec::new();
    let mut i: usize = 0;
    while i < n
        invariant
            i <= n,
            n == s.len(),
            s == v@,
            label_cands(s) == out@.map_values(|t: VersionTuple| tuple_raw(t))
                + scan_from(s, i as int),
        decreases n - i,
    {
        if !is_digit_exec(v[i]) {
            proof {
                assert(!starts_match(s, i as int));
                lemma_next_match_skip(s, i as int, i + 1);
            }
            i = i + 1;
            continue;
        }
        let e1 = run_end_exec(v, i);
        proof {
            lemma_run_end(s, i as int);
            lemma_run_end_same(s, i as int);
        }
        let minor_here = e1 < n && e1 + 1 < n && v[e1] == '.' && ('0' <= v[e1 + 1] && v[e1 + 1] <= '9');
        if !minor_here {
            proof {
                assert forall|k: int| i <= k < e1 implies !starts_match(s, k) by {
                    assert(run_end(s, k) == e1);
                }
                lemma_next_match_skip(s, i as int, e1 as int);
            }
            i = e1;
            continue;
        }
        // A version run starts at `i`.
        assert(starts_match(s, i as int));
        proof {
            lemma_cand_end(s, i as int);
        }
        assert(next_match_start(s, i as int) == i);
        assert(scan_from(s, i as int)
            == seq![cand_at(s, i as int)] + scan_from(s, cand_end(s, i as int)));
        let ghost rc = cand_at(s, i as int);
        let ghost witness_k = out@.len() as int;
        assert(label_cands(s)[witness_k] == rc);
        let e2 = run_end_exec(v, e1 + 1);
        proof {
            lemma_run_end(s, e1 + 1);
        }
        let major = match parse_u32_range(v, i, e1) {
            Some(m) => m,
            None => {
                assert(!raw_fits(rc));
                return None;
            }
        };
        let minor = match parse_u32_range(v, e1 + 1, e2) {
            Some(m) => m,
            None => {
                assert(!raw_fits(rc));
                return None;
            }
        };
        let patch_here = e2 < n && e2 + 1 < n && v[e2] == '.' && ('0' <= v[e2 + 1] && v[e2 + 1] <= '9');
        let mut end = e2;
        let mut patch: Option<u32> = None;
        let mut build: Option<u32> = None;
        if patch_here {
            let e3 = run_end_exec(v, e2 + 1);
            proof {
                lemma_run_end(s, e2 + 1);
            }
            match parse_u32_range(v, e2 + 1, e3) {
                Some(p) => {
                    patch = Some(p);
                }
                None => {
                    assert(!raw_fits(rc));
                    return None;
                }
            }
            end = e3;
            let build_here = e3 < n && e3 + 1 < n && v[e3] == '.'
                && ('0' <= v[e3 + 1] && v[e3 + 1] <= '9');
            if build_here {
                let e4 = run_end_exec(v, e3 + 1);
                proof {
                    lemma_run_end(s, e3 + 1);
                }
                match parse_u32_range(v, e3 + 1, e4) {
                    Some(b) => {
                        build = Some(b);
                    }
                    None => {
                        assert(!raw_fits(rc));
                        return None;
                    }
                }
                end = e4;
            }
        }
        assert(end as int == cand_end(s, i as int));
        let t = VersionTuple { major, minor, patch, build };
        assert(tuple_raw(t) == rc);
        out.push(t);
        proof {
            lemma_cand_end(s, i as int);
            assert(out@.map_values(|t: VersionTuple| tuple_raw(t))
                =~= out@.drop_last().map_values(|t: VersionTuple| tuple_raw(t)).push(rc));
        }
        i = end;
        assert(label_cands(s) =~= out@.map_values(|t: VersionTuple| tuple_raw(t))
            + scan_from(s, i as int));
    }
    assert(scan_from(s, n as int) == Seq::<RawCandidate>::empty());
    assert(label_cands(s) =~= out@.map_values(|t: VersionTuple| tuple_raw(t)));
    Some(out)
}

/// The greatest number of version runs any label yields.
pub open spec fn max_cols(cs: Seq<Seq<RawCandidate>>) -> nat
    decreases cs.len(),
{
    if cs.len() == 0 {
        0
    } else {
        let m = max_cols(cs.drop_last());
        if cs.last().len() > m {
            cs.last().len()
        } else {
            m
        }
    }
}

/// Label `j`'s contribution to column `i`'s non-variation score: one when
/// the column is absent for the label, or when its value repeats the
/// immediately preceding label's value in that column.
pub open spec fn col_contrib(cs: Seq<Seq<RawCandidate>>, i: int, j: int) -> nat {
    if cs[j].len() <= i {
        1
    } else if j > 0 && i < cs[j - 1].len() && cs[j][i] == cs[j - 1][i] {
        1
    } else {
        0
    }
}

/// Column `i`'s non-variation score over the first `n` labels.
pub open spec fn col_score_upto(cs: Seq<Seq<RawCandidate>>, i: int, n: int) -> nat
    decreases n,
{
    if n <= 0 {
        0
    } else {
        col_score_upto(cs, i, n - 1) + col_contrib(cs, i, n - 1)
    }
}

/// Column `i`'s non-variation score: absences plus repetitions, walking the
/// labels in order. True version numbers change from release to release, so
/// the real column is the one scoring least.
pub open spec fn col_score(cs: Seq<Seq<RawCandidate>>, i: int) -> nat {
    col_score_upto(cs, i, cs.len() as int)
}

/// The column with the least score among the first `n`, lowest index on
/// ties.
pub open spec fn best_col_upto(cs: Seq<Seq<RawCandidate>>, n: int) -> int
    decreases n,
{
    if n <= 1 {
        0
    } else {
        let b = best_col_upto(cs, n - 1);
        if col_score(cs, n - 1) < col_score(cs, b) {
            n - 1
        } else {
            b
        }
    }
}

/// The column the heuristic selects.
pub open spec fn best_col(cs: Seq<Seq<RawCandidate>>) -> int {
    best_col_upto(cs, max_cols(cs) as int)
}

/// The index of the first label at or after `i` that the extractor rejects,
/// or the number of labels when there is none.
pub open spec fn first_bad_from(ls: Seq<Seq<char>>, i: int) -> int
    decreases ls.len() - i when 0 <= i <= ls.len()
{
    if i >= ls.len() {
        ls.len() as int
    } else if !label_ok(ls[i]) {
        i
    } else {
        first_bad_from(ls, i + 1)
    }
}

/// What extraction yields, at the specification level.
pub ghost enum ExtractOutcome {
    /// One version per label, in label order.
    Versions(Seq<VersionTuple>),
    /// The first label without a usable version run.
    Unparseable(Seq<char>),
    /// The selected column is missing from some label.
    Inconsistent,
}

/// What extracting a list of labels yields: the version run of the selected
/// column of each label, or the failure the input forces.
pub open spec fn spec_extract(ls: Seq<Seq<char>>) -> ExtractOutcome {
    if exists|j: int| 0 <= j < ls.len() && !label_ok(#[trigger] ls[j]) {
        ExtractOutcome::Unparseable(ls[first_bad_from(ls, 0)])
    } else {
        let cs = ls.map_values(|l: Seq<char>| label_cands(l));
        let col = best_col(cs);
        if exists|j: int| 0 <= j < cs.len() && (#[trigger] cs[j]).len() <= col {
            ExtractOutcome::Inconsistent
        } else {
            ExtractOutcome::Versions(Seq::new(ls.len(), |j: int| raw_tuple(cs[j][col])))
        }
    }
}

/// Extraction is deterministic: what it yields is a function of the labels
/// alone, so re-running it on the same input yields the identical outcome.
pub proof fn lemma_extract_deterministic(ls: Seq<Seq<char>>, a: ExtractOutcome, b: ExtractOutcome)
    requires
        a == spec_extract(ls),
        b == spec_extract(ls),
    ensures
        a == b,
{
}

/// The greatest candidate count of lists that all hold exactly one.
proof fn lemma_max_cols_all_one(cs: Seq<Seq<RawCandidate>>)
    requires
        forall|j: int| 0 <= j < cs.len() ==> (#[trigger] cs[j]).len() == 1,
    ensures
        max_cols(cs) == if cs.len() == 0 { 0nat } else { 1nat },
    decreases cs.len(),
{
    if cs.len() > 0 {
        lemma_max_cols_all_one(cs.drop_last());
    }
}

/// The trivial case of extraction: when every label yields exactly one
/// version run, extraction returns those runs unchanged, in order, however
/// many labels there are.
pub proof fn lemma_extract_trivial(ls: Seq<Seq<char>>)
    requires
        forall|j: int| 0 <= j < ls.len() ==> (#[trigger] label_cands(ls[j])).len() == 1,
        forall|j: int| 0 <= j < ls.len() ==> label_ok(#[trigger] ls[j]),
    ensures
        spec_extract(ls) == ExtractOutcome::Versions(
            Seq::new(ls.len(), |j: int| raw_tuple(label_cands(ls[j])[0])),
        ),
{
    let cs = ls.map_values(|l: Seq<char>| label_cands(l));
    assert(forall|j: int| 0 <= j < cs.len() ==> (#[trigger] cs[j]).len() == 1);
    lemma_max_cols_all_one(cs);
    if ls.len() == 0 {
        assert(best_col(cs) == 0);
    } else {
        assert(max_cols(cs) == 1);
        assert(best_col(cs) == best_col_upto(cs, 1));
    }
    assert(Seq::new(ls.len(), |j: int| raw_tuple(cs[j][best_col(cs)]))
        =~= Seq::new(ls.len(), |j: int| raw_tuple(label_cands(ls[j])[0])));
}

/// Two tuples with the same groups are the same tuple.
proof fn lemma_tuple_raw_eq(a: VersionTuple, b: VersionTuple)
    ensures
        (tuple_raw(a) == tuple_raw(b)) <==> (a == b),
{
    if tuple_raw(a) == tuple_raw(b) {
        match (a.patch, b.patch) {
            (Some(x), Some(y)) => assert(x == y),
            (None, None) => {}
            _ => assert(false),
        }
        match (a.build, b.build) {
            (Some(x), Some(y)) => assert(x == y),
            (None, None) => {}
            _ => assert(false),
        }
    }
}

/// Reading a tuple's groups back as a tuple is the identity.
proof fn lemma_raw_tuple_roundtrip(t: VersionTuple)
    ensures
        raw_tuple(tuple_raw(t)) == t,
{
    match t.patch {
        Some(_) => {}
        None => {}
    }
    match t.build {
        Some(_) => {}
        None => {}
    }
}

/// The first rejected label is the first rejected label.
proof fn lemma_first_bad_from(ls: Seq<Seq<char>>, i: int, j: int)
    requires
        0 <= i <= j < ls.len(),
        !label_ok(ls[j]),
        forall|k: int| i <= k < j ==> label_ok(#[trigger] ls[k]),
    ensures
        first_bad_from(ls, i) == j,
    decreases j - i,
{
    if i < j {
        lemma_first_bad_from(ls, i + 1, j);
    }
}

/// The candidate groups of each label's extracted list.
spec fn lists_raw(cls: Seq<Vec<VersionTuple>>) -> Seq<Seq<RawCandidate>> {
    cls.map_values(|cl: Vec<VersionTuple>| cl@.map_values(|t: VersionTuple| tuple_raw(t)))
}

/// Column `i`'s non-variation score over the extracted candidate lists.
fn col_score_exec(cls: &Vec<Vec<VersionTuple>>, i: usize) -> (sc: usize)
    ensures
        sc as nat == col_score(lists_raw(cls@), i as int),
{
    let ghost cs = lists_raw(cls@);
    let ln = cls.len();
    let mut sc: usize = 0;
    let mut j: usize = 0;
    while j < ln
        invariant
            j <= ln,
            ln == cls@.len(),
            cs == lists_raw(cls@),
            sc as nat == col_score_upto(cs, i as int, j as int),
            sc <= j,
        decreases ln - j,
    {
        assert(cs[j as int] == cls@[j as int]@.map_values(|t: VersionTuple| tuple_raw(t)));
        let step: usize = if i >= cls[j].len() {
            1
        } else if j > 0 && i < cls[j - 1].len() && cls[j][i] == cls[j - 1][i] {
            proof {
                lemma_tuple_raw_eq(cls@[j as int]@[i as int], cls@[j as int - 1]@[i as int]);
            }
            1
        } else {
            proof {
                if j > 0 && (i as int) < cs[j as int - 1].len() {
                    lemma_tuple_raw_eq(cls@[j as int]@[i as int], cls@[j as int - 1]@[i as int]);
                }
            }
            0
        };
        assert(step as nat == col_contrib(cs, i as int, j as int));
        sc = sc + step;
        j = j + 1;
    }
    sc
}

/// Extracts one canonical version per release label, in label order.
///
/// A label yielding no usable version run fails the whole extraction with
/// `UnparseableLabel`; when labels yield several runs, the column of runs
/// that varies most across the labels is selected, and a label missing that
/// column surfaces `InconsistentColumns`.
pub fn extract(labels: &Vec<String>) -> (r: Result<Vec<VersionTuple>, ExtractionError>)
    ensures
        ({
            let out = spec_extract(labels@.map_values(|l: String| l@));
            match r {
                Ok(vs) => out == ExtractOutcome::Versions(vs@) && vs@.len() == labels@.len(),
                Err(e) => match e {
                    ExtractionError::UnparseableLabel(l) => out == ExtractOutcome::Unparseable(l@),
                    ExtractionError::InconsistentColumns => out == ExtractOutcome::Inconsistent,
                },
            }
        }),
{
    let ghost ls = labels@.map_values(|l: String| l@);
    let ln = labels.len();
    let mut cls: Vec<Vec<VersionTuple>> = Vec::new();
    let mut j: usize = 0;
    while j < ln
        invariant
            j <= ln,
            ln == labels@.len(),
            ls == labels@.map_values(|l: String| l@),
            cls@.len() == j,
            forall|k: int| 0 <= k < j ==> label_ok(#[trigger] ls[k]),
            forall|k: int| 0 <= k < j
                ==> (#[trigger] cls@[k])@.map_values(|t: VersionTuple| tuple_raw(t))
                    == label_cands(ls[k]),
            forall|k: int| 0 <= k < j ==> (#[trigger] cls@[k])@.len() > 0,
        decreases ln - j,
    {
        let chars = str_to_chars(labels[j].as_str());
        match find_candidates(&chars) {
            Some(cands) => {
                if cands.len() == 0 {
                    assert(!label_ok(ls[j as int]));
                    proof {
                        lemma_first_bad_from(ls, 0, j as int);
                    }
                    return Err(ExtractionError::UnparseableLabel(labels[j].clone()));
                }
                cls.push(cands);
            }
            None => {
                assert(!label_ok(ls[j as int]));
                proof {
                    lemma_first_bad_from(ls, 0, j as int);
                }
                return Err(ExtractionError::UnparseableLabel(labels[j].clone()));
            }
        }
        j = j + 1;
    }
    let ghost cs = ls.map_values(|l: Seq<char>| label_cands(l));
    proof {
        assert(lists_raw(cls@) =~= cs);
    }
    if ln == 0 {
        let empty: Vec<VersionTuple> = Vec::new();
        assert(spec_extract(ls) == ExtractOutcome::Versions(empty@)) by {
            assert(Seq::new(0, |k: int| raw_tuple(cs[k][best_col(cs)])) =~= empty@);
        }
        return Ok(empty);
    }
    // The greatest candidate count across the labels.
    let mut m: usize = 0;
    j = 0;
    while j < ln
        invariant
            j <= ln,
            ln == cls@.len(),
            cs == lists_raw(cls@),
            m as nat == max_cols(cs.take(j as int)),
            forall|k: int| 0 <= k < j ==> (#[trigger] cs[k]).len() <= m,
        decreases ln - j,
    {
        assert(cs[j as int] == cls@[j as int]@.map_values(|t: VersionTuple| tuple_raw(t)));
        let lj = cls[j].len();
        if lj > m {
            m = lj;
        }
        j = j + 1;
        assert(cs.take(j as int).drop_last() =~= cs.take(j as int - 1));
    }
    assert(cs.take(ln as int) =~= cs);
    assert(m as nat == max_cols(cs));
    assert(cs[0].len() > 0 && m >= 1);
    // The column scoring least, lowest index on ties.
    let mut best: usize = 0;
    let mut best_score: usize = col_score_exec(&cls, 0);
    let mut i: usize = 1;
    while i < m
        invariant
            1 <= i <= m,
            cs == lists_raw(cls@),
            best as int == best_col_upto(cs, i as int),
            best < i,
            best_score as nat == col_score(cs, best as int),
        decreases m - i,
    {
        let sc = col_score_exec(&cls, i);
        if sc < best_score {
            best = i;
            best_score = sc;
        }
        i = i + 1;
    }
    assert(best as int == best_col(cs));
    let ghost col = best as int;
    // Hand out the selected column, guarding against a label short of it.
    let mut out: Vec<VersionTuple> = Vec::new();
    j = 0;
    while j < ln
        invariant
            j <= ln,
            ln == cls@.len(),
            ln == labels@.len(),
            ls == labels@.map_values(|l: String| l@),
            cs == ls.map_values(|l: Seq<char>| label_cands(l)),
            cs == lists_raw(cls@),
            forall|k: int| 0 <= k < ln ==> label_ok(#[trigger] ls[k]),
            best as int == best_col(cs),
            col == best as int,
            out@.len() == j,
            forall|k: int| 0 <= k < j ==> (#[trigger] cs[k]).len() > col,
            forall|k: int| 0 <= k < j ==> #[trigger] out@[k] == raw_tuple(cs[k][col]),
        decreases ln - j,
    {
        assert(cs[j as int] == cls@[j as int]@.map_values(|t: VersionTuple| tuple_raw(t)));
        if cls[j].len() <= best {
            proof {
                let scs = ls.map_values(|l: Seq<char>| label_cands(l));
                assert(scs =~= cs);
                assert(0 <= j < scs.len() && scs[j as int].len() <= best_col(scs));
            }
            return Err(ExtractionError::InconsistentColumns);
        }
        let t = cls[j][best];
        proof {
            lemma_raw_tuple_roundtrip(t);
        }
        out.push(t);
        j = j + 1;
    }
    assert(out@ =~= Seq::new(ls.len(), |k: int| raw_tuple(cs[k][col])));
    Ok(out)
}

} // verus!
