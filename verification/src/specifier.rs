//! The package specifier grammar: a plugin name, optionally followed by `@`
//! and a version expression (`6.1.9`, `6.1.*`, `6.*`, `*`).

use vstd::prelude::*;
use crate::text::{
    char_positions, dec_str, fits_u32, is_digit_char, is_digits, num_of, str_to_chars,
    lemma_char_positions_absent, lemma_char_positions_concat, lemma_dec_str_digits,
    lemma_num_of_dec_str, parse_u32_range,
};
use crate::version::VersionTuple;

verus! {

/// The version half of a specifier: an exact version, a wildcard that fixes
/// a prefix of the fields, or no restriction at all.
#[derive(Clone, Copy, PartialEq, Eq, Structural, Debug)]
pub enum VersionConstraint {
    /// Must match this version precisely.
    Exact(VersionTuple),
    /// Newest patch under a fixed major and minor, `M.m.*`.
    PatchWildcard(u32, u32),
    /// Newest minor and patch under a fixed major, `M.*`.
    MinorWildcard(u32),
    /// Newest release overall, `*` or a bare name.
    Newest,
}

/// A parsed specifier: the package name and the requested constraint.
#[derive(Clone, PartialEq, Eq, Debug)]
pub struct PackageSpecifier {
    pub name: String,
    pub constraint: VersionConstraint,
}

impl PackageSpecifier {
    /// The invariant of a specifier: the name is one or more word
    /// characters, so it is never empty and never holds the separator.
    pub open spec fn wf(&self) -> bool {
        valid_name(self.name@)
    }
}

/// The error of the specifier parser.
#[derive(Clone, PartialEq, Eq, Debug)]
pub enum SpecifierError {
    /// The specifier does not match any recognized grammar form; carries the
    /// offending input.
    Malformed(String),
}

/// A word character, as a package name may use them: a letter, a digit, or
/// an underscore.
pub open spec fn is_word_char(c: char) -> bool {
    ('a' <= c && c <= 'z') || ('A' <= c && c <= 'Z') || ('0' <= c && c <= '9') || c == '_'
}

/// A valid package name: one or more word characters.
pub open spec fn valid_name(s: Seq<char>) -> bool {
    s.len() > 0 && forall|i: int| 0 <= i < s.len() ==> is_word_char(#[trigger] s[i])
}

/// Classifies the version half of a specifier, splitting it at its dots:
/// `*` is `Newest`, `M.*` is `MinorWildcard`, `M.m.*` is `PatchWildcard`,
/// and two to four dot-joined numbers are `Exact`. Anything else, including
/// a number that overflows `u32`, is rejected.
pub open spec fn spec_constraint(v: Seq<char>) -> Option<VersionConstraint> {
    let dots = char_positions(v, '.');
    if dots.len() == 0 {
        if v == seq!['*'] {
            Some(VersionConstraint::Newest)
        } else {
            None
        }
    } else if dots.len() == 1 {
        let a = v.take(dots[0]);
        let b = v.subrange(dots[0] + 1, v.len() as int);
        if is_digits(a) && fits_u32(a) {
            if b == seq!['*'] {
                Some(VersionConstraint::MinorWildcard(num_of(a) as u32))
            } else if is_digits(b) && fits_u32(b) {
                Some(VersionConstraint::Exact(VersionTuple {
                    major: num_of(a) as u32,
                    minor: num_of(b) as u32,
                    patch: None,
                    build: None,
                }))
            } else {
                None
            }
        } else {
            None
        }
    } else if dots.len() == 2 {
        let a = v.take(dots[0]);
        let b = v.subrange(dots[0] + 1, dots[1]);
        let c = v.subrange(dots[1] + 1, v.len() as int);
        if is_digits(a) && fits_u32(a) && is_digits(b) && fits_u32(b) {
            if c == seq!['*'] {
                Some(VersionConstraint::PatchWildcard(num_of(a) as u32, num_of(b) as u32))
            } else if is_digits(c) && fits_u32(c) {
                Some(VersionConstraint::Exact(VersionTuple {
                    major: num_of(a) as u32,
                    minor: num_of(b) as u32,
                    patch: Some(num_of(c) as u32),
                    build: None,
                }))
            } else {
                None
            }
        } else {
            None
        }
    } else if dots.len() == 3 {
        let a = v.take(dots[0]);
        let b = v.subrange(dots[0] + 1, dots[1]);
        let c = v.subrange(dots[1] + 1, dots[2]);
        let d = v.subrange(dots[2] + 1, v.len() as int);
        if is_digits(a) && fits_u32(a) && is_digits(b) && fits_u32(b)
            && is_digits(c) && fits_u32(c) && is_digits(d) && fits_u32(d) {
            Some(VersionConstraint::Exact(VersionTuple {
                major: num_of(a) as u32,
                minor: num_of(b) as u32,
                patch: Some(num_of(c) as u32),
                build: Some(num_of(d) as u32),
            }))
        } else {
            None
        }
    } else {
        None
    }
}

/// What parsing a raw specifier yields: the name and constraint on success,
/// nothing when the input matches no grammar form. The input is split at its
/// single `@`, if any; more than one `@` is rejected.
pub open spec fn spec_parse(s: Seq<char>) -> Option<(Seq<char>, VersionConstraint)> {
    let ats = char_positions(s, '@');
    if ats.len() == 0 {
        if valid_name(s) {
            Some((s, VersionConstraint::Newest))
        } else {
            None
        }
    } else if ats.len() == 1 {
        let name = s.take(ats[0]);
        let ver = s.subrange(ats[0] + 1, s.len() as int);
        if valid_name(name) {
            match spec_constraint(ver) {
                Some(c) => Some((name, c)),
                None => None,
            }
        } else {
            None
        }
    } else {
        None
    }
}

/// Each recorded position holds the character; the positions are strictly
/// increasing; and every occurrence is recorded.
pub proof fn lemma_char_positions_props(s: Seq<char>, c: char)
    ensures
        forall|k: int| 0 <= k < char_positions(s, c).len()
            ==> 0 <= #[trigger] char_positions(s, c)[k] < s.len()
                && s[char_positions(s, c)[k]] == c,
        forall|k: int| 0 <= k < char_positions(s, c).len() - 1
            ==> #[trigger] char_positions(s, c)[k] < char_positions(s, c)[k + 1],
        forall|i: int| 0 <= i < s.len() && s[i] == c
            ==> char_positions(s, c).contains(i),
    decreases s.len(),
{
    if s.len() > 0 {
        lemma_char_positions_props(s.drop_last(), c);
        let prev = char_positions(s.drop_last(), c);
        let cur = char_positions(s, c);
        if s.last() == c {
            assert(cur =~= prev.push(s.len() - 1));
        } else {
            assert(cur =~= prev);
        }
        assert forall|k: int| 0 <= k < cur.len()
            implies 0 <= #[trigger] cur[k] < s.len() && s[cur[k]] == c by {
            if k < prev.len() {
                assert(cur[k] == prev[k]);
                assert(s.drop_last()[prev[k]] == c);
            } else {
                assert(cur[k] == s.len() - 1);
            }
        }
        assert forall|k: int| 0 <= k < cur.len() - 1
            implies #[trigger] cur[k] < cur[k + 1] by {
            if k + 1 < prev.len() {
                assert(cur[k] == prev[k] && cur[k + 1] == prev[k + 1]);
            } else {
                assert(cur[k] == prev[k] && cur[k + 1] == s.len() - 1);
                assert(prev[k] < s.drop_last().len());
            }
        }
        assert forall|i: int| 0 <= i < s.len() && s[i] == c
            implies cur.contains(i) by {
            if i < s.len() - 1 {
                assert(s.drop_last()[i] == c);
                let k = choose|k: int| 0 <= k < prev.len() && prev[k] == i;
                assert(cur[k] == i);
            } else {
                assert(cur.last() == i);
            }
        }
    }
}

/// Collects, in increasing order, the positions of `c` in `v[from..to]`,
/// relative to `from`.
fn char_positions_in(v: &Vec<char>, from: usize, to: usize, c: char) -> (r: Vec<usize>)
    requires
        from <= to <= v@.len(),
    ensures
        r@.map_values(|u: usize| u as int)
            == char_positions(v@.subrange(from as int, to as int), c),
        forall|k: int| 0 <= k < r@.len() ==> #[trigger] r@[k] < to - from,
{
    let ghost sub = v@.subrange(from as int, to as int);
    let mut r: Vec<usize> = Vec::new();
    let mut i: usize = from;
    while i < to
        invariant
            from <= i <= to <= v@.len(),
            sub == v@.subrange(from as int, to as int),
            r@.map_values(|u: usize| u as int) == char_positions(sub.take(i - from), c),
            forall|k: int| 0 <= k < r@.len() ==> #[trigger] r@[k] < i - from,
        decreases to - i,
    {
        assert(sub.take(i - from + 1).drop_last() =~= sub.take(i - from));
        if v[i] == c {
            r.push(i - from);
        }
        i = i + 1;
        assert(r@.map_values(|u: usize| u as int) =~= char_positions(sub.take(i - from), c));
    }
    assert(sub.take(to - from) =~= sub);
    r
}

/// Checks that `v[from..to]` is a valid package name.
fn is_valid_name_range(v: &Vec<char>, from: usize, to: usize) -> (r: bool)
    requires
        from <= to <= v@.len(),
    ensures
        r == valid_name(v@.subrange(from as int, to as int)),
{
    let ghost sub = v@.subrange(from as int, to as int);
    if from == to {
        return false;
    }
    let mut i: usize = from;
    while i < to
        invariant
            from <= i <= to <= v@.len(),
            sub == v@.subrange(from as int, to as int),
            forall|j: int| 0 <= j < i - from ==> is_word_char(#[trigger] sub[j]),
        decreases to - i,
    {
        let c = v[i];
        if !(('a' <= c && c <= 'z') || ('A' <= c && c <= 'Z') || ('0' <= c && c <= '9')
            || c == '_') {
            assert(!is_word_char(sub[i - from]));
            return false;
        }
        i = i + 1;
    }
    true
}

/// Appending a dot-digits block adds one dot position, at the block's
/// start, and no `@` position.
proof fn lemma_positions_append_block(x: Seq<char>, d: Seq<char>)
    requires
        is_digits(d),
    ensures
        char_positions(x + (seq!['.'] + d), '.')
            == char_positions(x, '.').push(x.len() as int),
        char_positions(x + (seq!['.'] + d), '@') == char_positions(x, '@'),
{
    let block = seq!['.'] + d;
    assert(block.len() == 1 + d.len());
    assert(block[0] == '.');
    assert forall|i: int| 0 < i < block.len() implies #[trigger] block[i] != '.' by {
        assert(block[i] == d[i - 1]);
        assert(is_digit_char(d[i - 1]));
    }
    assert forall|i: int| 0 <= i < block.len() implies #[trigger] block[i] != '@' by {
        if i > 0 {
            assert(block[i] == d[i - 1]);
            assert(is_digit_char(d[i - 1]));
        }
    }
    lemma_char_positions_concat(x, block, '.');
    lemma_char_positions_concat(x, block, '@');
    lemma_block_positions(block);
    lemma_char_positions_absent(block, '@');
    assert(char_positions(x, '.') + char_positions(block, '.').map_values(|p: int| p + x.len())
        =~= char_positions(x, '.').push(x.len() as int));
    assert(char_positions(x, '@') + char_positions(block, '@').map_values(|p: int| p + x.len())
        =~= char_positions(x, '@'));
}

/// A block whose first character is its only dot has `[0]` for its dot
/// positions.
proof fn lemma_block_positions(block: Seq<char>)
    requires
        block.len() > 0,
        block[0] == '.',
        forall|i: int| 0 < i < block.len() ==> #[trigger] block[i] != '.',
    ensures
        char_positions(block, '.') == seq![0int],
    decreases block.len(),
{
    if block.len() == 1 {
        assert(block.drop_last() =~= Seq::<char>::empty());
        assert(char_positions(Seq::<char>::empty(), '.') == Seq::<int>::empty());
        assert(block.last() == '.');
        assert(char_positions(block, '.') =~= seq![0int]);
    } else {
        assert(block.drop_last()[0] == '.');
        assert forall|i: int| 0 < i < block.drop_last().len()
            implies #[trigger] block.drop_last()[i] != '.' by {
            assert(block.drop_last()[i] == block[i]);
        }
        lemma_block_positions(block.drop_last());
        assert(block.last() == block[block.len() - 1]);
        assert(block[block.len() - 1] != '.');
        assert(char_positions(block, '.') =~= seq![0int]);
    }
}

/// A digit string is not the wildcard `*`.
proof fn lemma_digits_not_star(d: Seq<char>)
    requires
        is_digits(d),
    ensures
        d != seq!['*'],
{
    if d == seq!['*'] {
        assert(is_digit_char(d[0]));
        assert(d[0] == '*');
    }
}

/// The canonical form of a well-formed tuple holds no `@` and classifies
/// back to the `Exact` constraint on exactly that tuple.
proof fn lemma_canonical_constraint(t: VersionTuple)
    requires
        t.wf(),
    ensures
        spec_constraint(t.canonical()) == Some(VersionConstraint::Exact(t)),
        char_positions(t.canonical(), '@') == Seq::<int>::empty(),
{
    let d1 = dec_str(t.major as nat);
    let d2 = dec_str(t.minor as nat);
    lemma_dec_str_digits(t.major as nat);
    lemma_dec_str_digits(t.minor as nat);
    lemma_num_of_dec_str(t.major as nat);
    lemma_num_of_dec_str(t.minor as nat);
    lemma_digits_not_star(d2);
    lemma_char_positions_absent(d1, '.');
    lemma_char_positions_absent(d1, '@');
    let ver = t.canonical();
    match t.patch {
        None => {
            assert(ver =~= d1 + (seq!['.'] + d2));
            lemma_positions_append_block(d1, d2);
            assert(char_positions(ver, '.') =~= seq![d1.len() as int]);
            assert(char_positions(ver, '@') =~= Seq::<int>::empty());
            assert(ver.take(d1.len() as int) =~= d1);
            assert(ver.subrange(d1.len() as int + 1, ver.len() as int) =~= d2);
            assert(spec_constraint(ver) == Some(VersionConstraint::Exact(t)));
        }
        Some(p) => {
            let d3 = dec_str(p as nat);
            lemma_dec_str_digits(p as nat);
            lemma_num_of_dec_str(p as nat);
            lemma_digits_not_star(d3);
            let head = d1 + (seq!['.'] + d2);
            lemma_positions_append_block(d1, d2);
            assert(char_positions(head, '.') =~= seq![d1.len() as int]);
            match t.build {
                None => {
                    assert(ver =~= head + (seq!['.'] + d3));
                    lemma_positions_append_block(head, d3);
                    assert(char_positions(ver, '.')
                        =~= seq![d1.len() as int, head.len() as int]);
                    assert(char_positions(ver, '@') =~= Seq::<int>::empty());
                    assert(ver.take(d1.len() as int) =~= d1);
                    assert(ver.subrange(d1.len() as int + 1, head.len() as int) =~= d2);
                    assert(ver.subrange(head.len() as int + 1, ver.len() as int) =~= d3);
                    assert(spec_constraint(ver) == Some(VersionConstraint::Exact(t)));
                }
                Some(b) => {
                    let d4 = dec_str(b as nat);
                    lemma_dec_str_digits(b as nat);
                    lemma_num_of_dec_str(b as nat);
                    let head2 = head + (seq!['.'] + d3);
                    lemma_positions_append_block(head, d3);
                    assert(ver =~= head2 + (seq!['.'] + d4));
                    lemma_positions_append_block(head2, d4);
                    assert(char_positions(ver, '.')
                        =~= seq![d1.len() as int, head.len() as int, head2.len() as int]);
                    assert(char_positions(ver, '@') =~= Seq::<int>::empty());
                    assert(ver.take(d1.len() as int) =~= d1);
                    assert(ver.subrange(d1.len() as int + 1, head.len() as int) =~= d2);
                    assert(ver.subrange(head.len() as int + 1, head2.len() as int) =~= d3);
                    assert(ver.subrange(head2.len() as int + 1, ver.len() as int) =~= d4);
                    assert(spec_constraint(ver) == Some(VersionConstraint::Exact(t)));
                }
            }
        }
    }
}

/// The parser round-trip law: a well-formed version tuple, rendered in its
/// canonical form after a valid name and `@`, parses back to a specifier
/// with exactly that name and the `Exact` constraint on exactly that tuple.
pub proof fn lemma_parse_roundtrip(name: Seq<char>, t: VersionTuple)
    requires
        valid_name(name),
        t.wf(),
    ensures
        spec_parse(name + seq!['@'] + t.canonical())
            == Some((name, VersionConstraint::Exact(t))),
{
    lemma_canonical_constraint(t);
    let ver = t.canonical();
    let s = name + seq!['@'] + ver;
    assert(s =~= (name + seq!['@']) + ver);
    lemma_char_positions_concat(name, seq!['@'], '@');
    lemma_char_positions_concat(name + seq!['@'], ver, '@');
    assert forall|i: int| 0 <= i < name.len() implies #[trigger] name[i] != '@' by {
        assert(is_word_char(name[i]));
    }
    lemma_char_positions_absent(name, '@');
    let at = seq!['@'];
    assert(at.len() == 1 && at.last() == '@');
    assert(at.drop_last() =~= Seq::<char>::empty());
    assert(char_positions(Seq::<char>::empty(), '@') == Seq::<int>::empty());
    assert(char_positions(at, '@') =~= seq![0int]);
    assert(char_positions(s, '@') =~= seq![name.len() as int]);
    assert(s.take(name.len() as int) =~= name);
    assert(s.subrange(name.len() as int + 1, s.len() as int) =~= ver);
}

/// Checks whether `v[from..to]` is exactly the wildcard `*`.
fn is_star_range(v: &Vec<char>, from: usize, to: usize) -> (r: bool)
    requires
        from <= to <= v@.len(),
    ensures
        r == (v@.subrange(from as int, to as int) == seq!['*']),
{
    let ghost sub = v@.subrange(from as int, to as int);
    if to - from == 1 {
        let r = v[from] == '*';
        proof {
            if r {
                assert(sub =~= seq!['*']);
            } else {
                assert(sub[0] != '*');
            }
        }
        r
    } else {
        assert(sub.len() != 1);
        false
    }
}

/// Classifies the version expression `v[from..to]`, following
/// [`spec_constraint`] exactly.
fn constraint_in(v: &Vec<char>, from: usize, to: usize) -> (r: Option<VersionConstraint>)
    requires
        from <= to <= v@.len(),
    ensures
        r == spec_constraint(v@.subrange(from as int, to as int)),
{
    let ghost sub = v@.subrange(from as int, to as int);
    proof {
        lemma_char_positions_props(sub, '.');
    }
    let dots = char_positions_in(v, from, to, '.');
    let ghost sdots = char_positions(sub, '.');
    if dots.len() == 0 {
        if is_star_range(v, from, to) {
            Some(VersionConstraint::Newest)
        } else {
            None
        }
    } else if dots.len() == 1 {
        let d0 = from + dots[0];
        assert(d0 - from == sdots[0]);
        assert(v@.subrange(from as int, d0 as int) =~= sub.take(sdots[0]));
        assert(v@.subrange(d0 + 1, to as int) =~= sub.subrange(sdots[0] + 1, sub.len() as int));
        match parse_u32_range(v, from, d0) {
            Some(major) => {
                if is_star_range(v, d0 + 1, to) {
                    Some(VersionConstraint::MinorWildcard(major))
                } else {
                    match parse_u32_range(v, d0 + 1, to) {
                        Some(minor) => Some(VersionConstraint::Exact(VersionTuple {
                            major,
                            minor,
                            patch: None,
                            build: None,
                        })),
                        None => None,
                    }
                }
            }
            None => None,
        }
    } else if dots.len() == 2 {
        let d0 = from + dots[0];
        let d1 = from + dots[1];
        assert(d0 - from == sdots[0] && d1 - from == sdots[1]);
        assert(d0 < d1) by {
            assert(sdots[0] < sdots[1]);
        }
        assert(v@.subrange(from as int, d0 as int) =~= sub.take(sdots[0]));
        assert(v@.subrange(d0 + 1, d1 as int) =~= sub.subrange(sdots[0] + 1, sdots[1]));
        assert(v@.subrange(d1 + 1, to as int) =~= sub.subrange(sdots[1] + 1, sub.len() as int));
        let major = match parse_u32_range(v, from, d0) {
            Some(n) => n,
            None => {
                return None;
            }
        };
        let minor = match parse_u32_range(v, d0 + 1, d1) {
            Some(n) => n,
            None => {
                return None;
            }
        };
        if is_star_range(v, d1 + 1, to) {
            Some(VersionConstraint::PatchWildcard(major, minor))
        } else {
            match parse_u32_range(v, d1 + 1, to) {
                Some(patch) => Some(VersionConstraint::Exact(VersionTuple {
                    major,
                    minor,
                    patch: Some(patch),
                    build: None,
                })),
                None => None,
            }
        }
    } else if dots.len() == 3 {
        let d0 = from + dots[0];
        let d1 = from + dots[1];
        let d2 = from + dots[2];
        assert(d0 - from == sdots[0] && d1 - from == sdots[1] && d2 - from == sdots[2]);
        assert(d0 < d1 && d1 < d2) by {
            assert(sdots[0] < sdots[1] && sdots[1] < sdots[2]);
        }
        assert(v@.subrange(from as int, d0 as int) =~= sub.take(sdots[0]));
        assert(v@.subrange(d0 + 1, d1 as int) =~= sub.subrange(sdots[0] + 1, sdots[1]));
        assert(v@.subrange(d1 + 1, d2 as int) =~= sub.subrange(sdots[1] + 1, sdots[2]));
        assert(v@.subrange(d2 + 1, to as int) =~= sub.subrange(sdots[2] + 1, sub.len() as int));
        let major = match parse_u32_range(v, from, d0) {
            Some(n) => n,
            None => {
                return None;
            }
        };
        let minor = match parse_u32_range(v, d0 + 1, d1) {
            Some(n) => n,
            None => {
                return None;
            }
        };
        let patch = match parse_u32_range(v, d1 + 1, d2) {
            Some(n) => n,
            None => {
                return None;
            }
        };
        match parse_u32_range(v, d2 + 1, to) {
            Some(build) => Some(VersionConstraint::Exact(VersionTuple {
                major,
                minor,
                patch: Some(patch),
                build: Some(build),
            })),
            None => None,
        }
    } else {
        None
    }
}

/// Parses a raw package specifier into its name and version constraint.
///
/// The input is split at its only `@`; with no `@` the whole input is the
/// name and the constraint is `Newest`. A second `@`, an invalid name, or an
/// unrecognized version expression yields `Malformed` carrying the input.
pub fn parse(raw: &str) -> (r: Result<PackageSpecifier, SpecifierError>)
    ensures
        match r {
            Ok(sp) => spec_parse(raw@) == Some((sp.name@, sp.constraint)) && sp.wf(),
            Err(e) => spec_parse(raw@) is None && match e {
                SpecifierError::Malformed(m) => m@ == raw@,
            },
        },
{
    let chars = str_to_chars(raw);
    proof {
        lemma_char_positions_props(raw@, '@');
    }
    assert(chars@.subrange(0, chars@.len() as int) =~= raw@);
    let n = chars.len();
    let ats = char_positions_in(&chars, 0, n, '@');
    let ghost sats = char_positions(raw@, '@');
    if ats.len() == 0 {
        if is_valid_name_range(&chars, 0, n) {
            Ok(PackageSpecifier { name: raw.to_owned(), constraint: VersionConstraint::Newest })
        } else {
            Err(SpecifierError::Malformed(raw.to_owned()))
        }
    } else if ats.len() == 1 {
        let at = ats[0];
        assert(at == sats[0]);
        assert(chars@.subrange(0, at as int) =~= raw@.take(sats[0]));
        assert(chars@.subrange(at + 1, n as int)
            =~= raw@.subrange(sats[0] + 1, raw@.len() as int));
        if !is_valid_name_range(&chars, 0, at) {
            return Err(SpecifierError::Malformed(raw.to_owned()));
        }
        match constraint_in(&chars, at + 1, n) {
            Some(c) => {
                let name = raw.substring_char(0, at).to_owned();
                Ok(PackageSpecifier { name, constraint: c })
            }
            None => Err(SpecifierError::Malformed(raw.to_owned())),
        }
    } else {
        Err(SpecifierError::Malformed(raw.to_owned()))
    }
}

} // verus!

