//! Character-level helpers shared by the specifier parser and the label
//! extractor: decimal digit runs, their numeric values, and decimal
//! rendering of numbers.

use vstd::prelude::*;

verus! {

/// A decimal digit character.
pub open spec fn is_digit_char(c: char) -> bool {
    '0' <= c && c <= '9'
}

/// Numeric value of a digit character.
pub open spec fn digit_val(c: char) -> nat {
    (c as u32 - '0' as u32) as nat
}

/// A non-empty run of decimal digits.
pub open spec fn is_digits(s: Seq<char>) -> bool {
    s.len() > 0 && forall|i: int| 0 <= i < s.len() ==> is_digit_char(#[trigger] s[i])
}

/// Value of a digit string read as a decimal number.
pub open spec fn num_of(s: Seq<char>) -> nat
    decreases s.len(),
{
    if s.len() == 0 {
        0
    } else {
        num_of(s.drop_last()) * 10 + digit_val(s.last())
    }
}

/// Whether a digit string denotes a number that fits in a `u32`.
pub open spec fn fits_u32(s: Seq<char>) -> bool {
    num_of(s) <= u32::MAX
}

/// Extending a digit string with more digits can only grow its value.
pub proof fn lemma_num_of_take_le(s: Seq<char>, k: int)
    requires
        0 <= k <= s.len(),
        is_digits(s),
    ensures
        num_of(s.take(k)) <= num_of(s),
    decreases s.len() - k,
{
    if k < s.len() {
        lemma_num_of_take_le(s, k + 1);
        assert(s.take(k + 1).drop_last() =~= s.take(k));
        assert(num_of(s.take(k + 1)) == num_of(s.take(k)) * 10 + digit_val(s[k]));
    } else {
        assert(s.take(k) =~= s);
    }
}

/// The decimal rendering of a digit value.
pub open spec fn digit_char(d: nat) -> char {
    if d == 0 { '0' }
    else if d == 1 { '1' }
    else if d == 2 { '2' }
    else if d == 3 { '3' }
    else if d == 4 { '4' }
    else if d == 5 { '5' }
    else if d == 6 { '6' }
    else if d == 7 { '7' }
    else if d == 8 { '8' }
    else { '9' }
}

/// The decimal rendering of a number, without leading zeros.
pub open spec fn dec_str(n: nat) -> Seq<char>
    decreases n,
{
    if n < 10 {
        seq![digit_char(n)]
    } else {
        dec_str(n / 10).push(digit_char(n % 10))
    }
}

/// A decimal rendering consists of digit characters only.
pub proof fn lemma_dec_str_digits(n: nat)
    ensures
        is_digits(dec_str(n)),
    decreases n,
{
    if n >= 10 {
        lemma_dec_str_digits(n / 10);
    }
}

/// Rendering a digit and reading it back is the identity.
pub proof fn lemma_digit_char_val(d: nat)
    requires
        d < 10,
    ensures
        is_digit_char(digit_char(d)),
        digit_val(digit_char(d)) == d,
{
}

/// Reading a decimal rendering back gives the rendered number.
pub proof fn lemma_num_of_dec_str(n: nat)
    ensures
        num_of(dec_str(n)) == n,
    decreases n,
{
    if n < 10 {
        lemma_digit_char_val(n);
        assert(dec_str(n).drop_last() =~= Seq::<char>::empty());
        assert(num_of(Seq::<char>::empty()) == 0);
    } else {
        lemma_digit_char_val(n % 10);
        lemma_num_of_dec_str(n / 10);
        assert(dec_str(n).drop_last() =~= dec_str(n / 10));
    }
}

/// Parses the digit run `v[from..to]` as a `u32`. Returns `None` when the
/// range is empty, holds a non-digit, or denotes a value above `u32::MAX`.
pub fn parse_u32_range(v: &Vec<char>, from: usize, to: usize) -> (r: Option<u32>)
    requires
        from <= to <= v@.len(),
    ensures
        match r {
            Some(n) => {
                &&& is_digits(v@.subrange(from as int, to as int))
                &&& fits_u32(v@.subrange(from as int, to as int))
                &&& n as nat == num_of(v@.subrange(from as int, to as int))
            },
            None => !(is_digits(v@.subrange(from as int, to as int))
                && fits_u32(v@.subrange(from as int, to as int))),
        },
{
    let ghost sub = v@.subrange(from as int, to as int);
    if from == to {
        return None;
    }
    let mut acc: u32 = 0;
    let mut i: usize = from;
    while i < to
        invariant
            from <= i <= to <= v@.len(),
            sub == v@.subrange(from as int, to as int),
            is_digits(sub.take(i - from)) || i == from,
            acc as nat == num_of(sub.take(i - from)),
        decreases to - i,
    {
        let c = v[i];
        assert(c == sub[i - from]);
        if !('0' <= c && c <= '9') {
            assert(!is_digits(sub));
            return None;
        }
        let d: u32 = c as u32 - 48;
        assert(d as nat == digit_val(c));
        let wide: u64 = acc as u64 * 10 + d as u64;
        assert(sub.take(i - from + 1).drop_last() =~= sub.take(i - from));
        assert(num_of(sub.take(i - from + 1)) == acc as nat * 10 + d as nat);
        if wide > u32::MAX as u64 {
            proof {
                if is_digits(sub) {
                    lemma_num_of_take_le(sub, i - from + 1);
                }
            }
            return None;
        }
        acc = wide as u32;
        i = i + 1;
    }
    assert(sub.take(to - from) =~= sub);
    Some(acc)
}

/// Renders a number in decimal.
pub fn u32_to_string(n: u32) -> (s: String)
    ensures
        s@ == dec_str(n as nat),
    decreases n,
{
    let d = n % 10;
    let ds: &str = if d == 0 { "0" }
    else if d == 1 { "1" }
    else if d == 2 { "2" }
    else if d == 3 { "3" }
    else if d == 4 { "4" }
    else if d == 5 { "5" }
    else if d == 6 { "6" }
    else if d == 7 { "7" }
    else if d == 8 { "8" }
    else { "9" };
    proof {
        reveal_strlit("0");
        reveal_strlit("1");
        reveal_strlit("2");
        reveal_strlit("3");
        reveal_strlit("4");
        reveal_strlit("5");
        reveal_strlit("6");
        reveal_strlit("7");
        reveal_strlit("8");
        reveal_strlit("9");
    }
    if n < 10 {
        assert(ds@ =~= dec_str(n as nat));
        ds.to_owned()
    } else {
        let mut s = u32_to_string(n / 10);
        s.append(ds);
        assert(s@ =~= dec_str(n as nat));
        s
    }
}

/// Compares two strings character by character.
pub fn str_eq(a: &str, b: &str) -> (r: bool)
    ensures
        r == (a@ == b@),
{
    let na = a.unicode_len();
    let nb = b.unicode_len();
    if na != nb {
        return false;
    }
    let mut i: usize = 0;
    while i < na
        invariant
            i <= na,
            na == a@.len(),
            na == b@.len(),
            forall|j: int| 0 <= j < i ==> a@[j] == b@[j],
        decreases na - i,
    {
        if a.get_char(i) != b.get_char(i) {
            return false;
        }
        i = i + 1;
    }
    assert(a@ =~= b@);
    true
}

/// The positions, in increasing order, at which `c` occurs in `s`.
pub open spec fn char_positions(s: Seq<char>, c: char) -> Seq<int>
    decreases s.len(),
{
    if s.len() == 0 {
        Seq::<int>::empty()
    } else {
        char_positions(s.drop_last(), c)
            + if s.last() == c { seq![s.len() - 1] } else { Seq::<int>::empty() }
    }
}

/// A string without occurrences of `c` has no occurrence positions.
pub proof fn lemma_char_positions_absent(s: Seq<char>, c: char)
    requires
        forall|i: int| 0 <= i < s.len() ==> #[trigger] s[i] != c,
    ensures
        char_positions(s, c) == Seq::<int>::empty(),
    decreases s.len(),
{
    if s.len() > 0 {
        lemma_char_positions_absent(s.drop_last(), c);
        assert(char_positions(s, c) =~= Seq::<int>::empty());
    }
}

/// Occurrence positions of a concatenation: those of the first part, then
/// those of the second part shifted past the first.
pub proof fn lemma_char_positions_concat(a: Seq<char>, b: Seq<char>, c: char)
    ensures
        char_positions(a + b, c)
            == char_positions(a, c) + char_positions(b, c).map_values(|p: int| p + a.len()),
    decreases b.len(),
{
    if b.len() == 0 {
        assert(a + b =~= a);
        assert(char_positions(a + b, c)
            =~= char_positions(a, c) + char_positions(b, c).map_values(|p: int| p + a.len()));
    } else {
        lemma_char_positions_concat(a, b.drop_last(), c);
        assert((a + b).drop_last() =~= a + b.drop_last());
        assert((a + b).last() == b.last());
        assert(char_positions(a + b, c)
            =~= char_positions(a, c) + char_positions(b, c).map_values(|p: int| p + a.len()));
    }
}

/// Collects the characters of a string into a vector, so that the parsing
/// loops can index characters in constant time.
pub fn str_to_chars(s: &str) -> (v: Vec<char>)
    ensures
        v@ == s@,
{
    let n = s.unicode_len();
    let mut v: Vec<char> = Vec::new();
    let mut i: usize = 0;
    while i < n
        invariant
            i <= n,
            n == s@.len(),
            v@ == s@.take(i as int),
        decreases n - i,
    {
        v.push(s.get_char(i));
        i = i + 1;
        assert(v@ =~= s@.take(i as int));
    }
    assert(v@ =~= s@);
    v
}

} // verus!
