//! Verified text utilities: placeholder substitution, decimal formatting,
//! whitespace trimming, and delimiter search.
//!
//! These are the string-level building blocks of the query-plan compiler.

use vstd::prelude::*;
use vstd::string::*;

verus! {

/// The result of replacing every non-overlapping occurrence of `from` in `s`
/// with `to`, scanning left to right. When `from` is empty, `s` is returned
/// unchanged.
pub open spec fn replace_spec(s: Seq<char>, from: Seq<char>, to: Seq<char>) -> Seq<char>
    decreases s.len(),
{
    if from.len() == 0 || s.len() < from.len() {
        s
    } else if s.take(from.len() as int) == from {
        to + replace_spec(s.skip(from.len() as int), from, to)
    } else {
        seq![s[0]] + replace_spec(s.skip(1), from, to)
    }
}

/// Does `pat` occur in `s` starting at position `i`?
fn match_at(s: &str, n: usize, i: usize, pat: &str, m: usize) -> (b: bool)
    requires
        n == s@.len(),
        m == pat@.len(),
        i + m <= n,
    ensures
        b == (s@.skip(i as int).take(m as int) == pat@),
{
    let mut j: usize = 0;
    while j < m
        invariant
            n == s@.len(),
            m == pat@.len(),
            i + m <= n,
            j <= m,
            forall|k: int| 0 <= k < j ==> s@[i + k] == pat@[k],
        decreases m - j,
    {
        if s.get_char(i + j) != pat.get_char(j) {
            assert(s@.skip(i as int).take(m as int)[j as int] != pat@[j as int]);
            return false;
        }
        j += 1;
    }
    assert(s@.skip(i as int).take(m as int) =~= pat@);
    true
}

/// Replaces every non-overlapping occurrence of `from` in `s` with `to`,
/// scanning left to right.
pub fn replace(s: &str, from: &str, to: &str) -> (r: String)
    requires
        from@.len() > 0,
    ensures
        r@ == replace_spec(s@, from@, to@),
{
    let n = s.unicode_len();
    let m = from.unicode_len();
    let mut r = String::new();
    let mut i: usize = 0;
    proof {
        assert(s@.skip(0) =~= s@);
        assert(r@ + replace_spec(s@, from@, to@) =~= replace_spec(s@, from@, to@));
    }
    while i < n
        invariant
            n == s@.len(),
            m == from@.len(),
            m > 0,
            i <= n,
            r@ + replace_spec(s@.skip(i as int), from@, to@) == replace_spec(s@, from@, to@),
        decreases n - i,
    {
        if m <= n - i && match_at(s, n, i, from, m) {
            proof {
                assert(s@.skip(i as int).skip(m as int) =~= s@.skip(i + m));
            }
            r.append(to);
            i += m;
        } else {
            proof {
                let rest = s@.skip(i as int);
                assert(rest[0] == s@[i as int]);
                assert(rest.skip(1) =~= s@.skip(i + 1));
                if rest.len() < m {
                    assert(replace_spec(rest, from@, to@) == rest);
                    assert(replace_spec(rest.skip(1), from@, to@) == rest.skip(1));
                    assert(rest =~= seq![s@[i as int]] + rest.skip(1));
                } else {
                    assert(rest.take(m as int) == s@.skip(i as int).take(m as int));
                }
                assert(replace_spec(rest, from@, to@) == seq![s@[i as int]] + replace_spec(
                    s@.skip(i + 1),
                    from@,
                    to@,
                ));
            }
            let c = s.substring_char(i, i + 1);
            proof {
                assert(c@ =~= seq![s@[i as int]]);
            }
            r.append(c);
            i += 1;
        }
    }
    proof {
        assert(s@.skip(n as int) =~= Seq::<char>::empty());
        assert(replace_spec(s@.skip(n as int), from@, to@) == s@.skip(n as int));
        assert(r@ =~= replace_spec(s@, from@, to@));
    }
    r
}

/// Does `x` occur in `s` as a contiguous run?
pub open spec fn occurs(s: Seq<char>, x: Seq<char>) -> bool {
    exists|p: int| 0 <= p <= s.len() - x.len() && s.skip(p).take(x.len() as int) == x
}

/// How many leading characters of `s` the replacement scan copies unchanged
/// before its first match of `from` (all of `s` when nothing matches).
pub open spec fn copy_len(s: Seq<char>, from: Seq<char>) -> int
    decreases s.len(),
{
    if from.len() == 0 || s.len() < from.len() {
        s.len() as int
    } else if s.take(from.len() as int) == from {
        0
    } else {
        1 + copy_len(s.skip(1), from)
    }
}

/// The structure of a replacement: an unmatched prefix copied verbatim,
/// then — when a match exists — the replacement text and the rewritten rest.
proof fn lemma_replace_structure(s: Seq<char>, from: Seq<char>, to: Seq<char>)
    requires
        from.len() > 0,
    ensures
        0 <= copy_len(s, from) <= s.len(),
        forall|p: int|
            0 <= p < copy_len(s, from) && p + from.len() <= s.len() ==> s.skip(p).take(
                from.len() as int,
            ) != from,
        copy_len(s, from) + from.len() <= s.len() ==> s.skip(copy_len(s, from)).take(
            from.len() as int,
        ) == from,
        copy_len(s, from) + from.len() <= s.len() ==> replace_spec(s, from, to) == s.take(
            copy_len(s, from),
        ) + to + replace_spec(s.skip(copy_len(s, from) + from.len()), from, to),
        copy_len(s, from) + from.len() > s.len() ==> replace_spec(s, from, to) == s,
    decreases s.len(),
{
    let cl = copy_len(s, from);
    if s.len() < from.len() {
    } else if s.take(from.len() as int) == from {
        assert(s.take(0) =~= Seq::<char>::empty());
        assert(s.take(0) + to + replace_spec(s.skip(from.len() as int), from, to) =~= to
            + replace_spec(s.skip(from.len() as int), from, to));
    } else {
        let s1 = s.skip(1);
        lemma_replace_structure(s1, from, to);
        let cl1 = copy_len(s1, from);
        assert(cl == 1 + cl1);
        assert forall|p: int|
            0 <= p < cl && p + from.len() <= s.len() implies s.skip(p).take(from.len() as int)
            != from by {
            if p >= 1 {
                assert(s.skip(p) =~= s1.skip(p - 1));
            } else {
                assert(s.skip(0) =~= s);
            }
        }
        if cl + from.len() <= s.len() {
            assert(s.skip(cl) =~= s1.skip(cl1));
            assert(replace_spec(s, from, to) == seq![s[0]] + replace_spec(s1, from, to));
            assert(replace_spec(s1, from, to) == s1.take(cl1) + to + replace_spec(
                s1.skip(cl1 + from.len()),
                from,
                to,
            ));
            assert(s1.skip(cl1 + from.len()) =~= s.skip(cl + from.len()));
            assert(seq![s[0]] + (s1.take(cl1) + to + replace_spec(
                s.skip(cl + from.len()),
                from,
                to,
            )) =~= s.take(cl) + to + replace_spec(s.skip(cl + from.len()), from, to));
        } else {
            assert(replace_spec(s, from, to) == seq![s[0]] + replace_spec(s1, from, to));
            assert(replace_spec(s1, from, to) == s1);
            assert(seq![s[0]] + s1 =~= s);
        }
    }
}

/// After replacing `from` with `to`, no occurrence of `x` remains, provided
/// `x` was `from` itself (or was absent to begin with), no character of `to`
/// can begin an occurrence of `x`, and `to` cannot begin inside one.
pub proof fn lemma_replace_leaves_no_occurrence(
    s: Seq<char>,
    from: Seq<char>,
    to: Seq<char>,
    x: Seq<char>,
)
    requires
        from.len() > 0,
        to.len() > 0,
        x.len() > 0,
        x == from || !occurs(s, x),
        forall|j: int| 0 <= j < to.len() ==> to[j] != x[0],
        forall|k: int| 1 <= k < x.len() ==> x[k] != to[0],
    ensures
        !occurs(replace_spec(s, from, to), x),
    decreases s.len(),
{
    lemma_replace_structure(s, from, to);
    let r = replace_spec(s, from, to);
    let cl = copy_len(s, from);
    if cl + from.len() <= s.len() {
        let rest = replace_spec(s.skip(cl + from.len()), from, to);
        assert(r == s.take(cl) + to + rest);
        if x != from {
            assert(!occurs(s.skip(cl + from.len()), x)) by {
                if occurs(s.skip(cl + from.len()), x) {
                    let p = choose|p: int|
                        0 <= p <= s.skip(cl + from.len()).len() - x.len() && (#[trigger] s.skip(
                            cl + from.len(),
                        ).skip(p)).take(x.len() as int) == x;
                    assert(s.skip(cl + from.len()).skip(p) =~= s.skip(cl + from.len() + p));
                    assert(s.skip(cl + from.len() + p).take(x.len() as int) == x);
                    assert(occurs(s, x));
                }
            }
        }
        lemma_replace_leaves_no_occurrence(s.skip(cl + from.len()), from, to, x);
        if occurs(r, x) {
            let p = choose|p: int| 0 <= p <= r.len() - x.len() && r.skip(p).take(x.len() as int)
                == x;
            assert(r.skip(p).take(x.len() as int) == x);
            if p < cl {
                if p + x.len() <= cl {
                    // Entirely inside the copied prefix: it was in `s`.
                    assert(s.skip(p).take(x.len() as int) =~= r.skip(p).take(x.len() as int));
                    if x == from {
                        assert(s.skip(p).take(from.len() as int) != from);
                    } else {
                        assert(occurs(s, x));
                    }
                } else {
                    // Straddles the boundary: the first replacement character
                    // would have to continue an occurrence of `x`.
                    let k = cl - p;
                    assert(1 <= k < x.len());
                    assert(r[cl] == to[0]);
                    assert(x[k] == r.skip(p)[k]);
                    assert(x[k] == to[0]);
                }
            } else if p < cl + to.len() {
                // Starts inside the replacement text.
                assert(r[p] == to[p - cl]);
                assert(x[0] == r.skip(p)[0]);
            } else {
                // Entirely inside the rewritten rest.
                let q = p - (cl + to.len());
                assert(rest.skip(q) =~= r.skip(p));
                assert(rest.skip(q).take(x.len() as int) == x);
                assert(occurs(rest, x));
            }
            assert(false);
        }
    } else {
        assert(r == s);
        if x == from {
            if occurs(r, x) {
                let p = choose|p: int| 0 <= p <= s.len() - x.len() && s.skip(p).take(
                    x.len() as int,
                ) == x;
                assert(p < cl);
                assert(false);
            }
        }
    }
}

/// The character for a single decimal digit.
pub open spec fn digit_char(d: int) -> char {
    if d == 0 {
        '0'
    } else if d == 1 {
        '1'
    } else if d == 2 {
        '2'
    } else if d == 3 {
        '3'
    } else if d == 4 {
        '4'
    } else if d == 5 {
        '5'
    } else if d == 6 {
        '6'
    } else if d == 7 {
        '7'
    } else if d == 8 {
        '8'
    } else {
        '9'
    }
}

/// The usual decimal rendering of a non-negative integer, without sign or
/// leading zeros (except for zero itself).
pub open spec fn dec_spec(n: int) -> Seq<char>
    decreases n,
{
    if n < 10 {
        seq![digit_char(n)]
    } else {
        dec_spec(n / 10) + seq![digit_char(n % 10)]
    }
}

/// Every character of a decimal rendering is a digit.
pub proof fn lemma_dec_digits(n: int)
    ensures
        forall|j: int| 0 <= j < dec_spec(n).len() ==> '0' <= #[trigger] dec_spec(n)[j] <= '9',
    decreases n,
{
    if n >= 10 {
        lemma_dec_digits(n / 10);
        assert forall|j: int|
            0 <= j < dec_spec(n).len() implies '0' <= #[trigger] dec_spec(n)[j] <= '9' by {
            if j < dec_spec(n / 10).len() {
                assert(dec_spec(n)[j] == dec_spec(n / 10)[j]);
            } else {
                assert(dec_spec(n)[j] == digit_char(n % 10));
            }
        }
    }
}

fn digit_str(d: u64) -> (r: &'static str)
    requires
        d < 10,
    ensures
        r@ == seq![digit_char(d as int)],
{
    proof {
        reveal_strlit("0");
        reveal_strlit("1");
        reveal_strlit("2");
        reveal_strlit("3");
        reveal_strlit("4");
        reveal_strlit("5");
        reveal_strlit("6");
        reveal_strlit("7");
        reveal_strlit("8");
        reveal_strlit("9");
    }
    let r = match d {
        0 => "0",
        1 => "1",
        2 => "2",
        3 => "3",
        4 => "4",
        5 => "5",
        6 => "6",
        7 => "7",
        8 => "8",
        _ => "9",
    };
    proof {
        assert(r@ =~= seq![digit_char(d as int)]);
    }
    r
}

/// Renders `n` in decimal.
pub fn u64_to_string(n: u64) -> (r: String)
    ensures
        r@ == dec_spec(n as int),
    decreases n,
{
    if n < 10 {
        String::from_str(digit_str(n))
    } else {
        let mut r = u64_to_string(n / 10);
        r.append(digit_str(n % 10));
        r
    }
}

/// The whitespace characters stripped from the ends of a template.
pub open spec fn is_space_char(c: char) -> bool {
    c == ' ' || c == '\t' || c == '\n' || c == '\r'
}

/// `s` with leading whitespace removed.
pub open spec fn trim_front_spec(s: Seq<char>) -> Seq<char>
    decreases s.len(),
{
    if s.len() > 0 && is_space_char(s[0]) {
        trim_front_spec(s.skip(1))
    } else {
        s
    }
}

/// `s` with trailing whitespace removed.
pub open spec fn trim_back_spec(s: Seq<char>) -> Seq<char>
    decreases s.len(),
{
    if s.len() > 0 && is_space_char(s.last()) {
        trim_back_spec(s.drop_last())
    } else {
        s
    }
}

/// `s` with whitespace removed from both ends.
pub open spec fn trim_spec(s: Seq<char>) -> Seq<char> {
    trim_back_spec(trim_front_spec(s))
}

proof fn lemma_trim_front_at(s: Seq<char>, k: int)
    requires
        0 <= k <= s.len(),
        forall|i: int| 0 <= i < k ==> is_space_char(s[i]),
        k < s.len() ==> !is_space_char(s[k]),
    ensures
        trim_front_spec(s) == s.skip(k),
    decreases k,
{
    if k == 0 {
        assert(s.skip(0) =~= s);
    } else {
        assert(is_space_char(s[0]));
        lemma_trim_front_at(s.skip(1), k - 1);
        assert(s.skip(1).skip(k - 1) =~= s.skip(k));
    }
}

proof fn lemma_trim_back_at(s: Seq<char>, k: int)
    requires
        0 <= k <= s.len(),
        forall|i: int| k <= i < s.len() ==> is_space_char(s[i]),
        k > 0 ==> !is_space_char(s[k - 1]),
    ensures
        trim_back_spec(s) == s.take(k),
    decreases s.len() - k,
{
    if k == s.len() {
        if s.len() > 0 {
            assert(!is_space_char(s.last()));
        }
        assert(s.take(k) =~= s);
    } else {
        assert(is_space_char(s.last()));
        lemma_trim_back_at(s.drop_last(), k);
        assert(s.drop_last().take(k) =~= s.take(k));
    }
}

/// Computes the bounds of the whitespace-trimmed middle of `s`.
pub fn trim_bounds(s: &str) -> (r: (usize, usize))
    ensures
        0 <= r.0 <= r.1 <= s@.len(),
        trim_spec(s@) == s@.subrange(r.0 as int, r.1 as int),
{
    let n = s.unicode_len();
    let mut lo: usize = 0;
    while lo < n && is_space(s.get_char(lo))
        invariant
            n == s@.len(),
            lo <= n,
            forall|i: int| 0 <= i < lo ==> is_space_char(s@[i]),
        decreases n - lo,
    {
        lo += 1;
    }
    let mut hi: usize = n;
    while hi > lo && is_space(s.get_char(hi - 1))
        invariant
            n == s@.len(),
            lo <= hi <= n,
            forall|i: int| hi <= i < n ==> is_space_char(s@[i]),
        decreases hi,
    {
        hi -= 1;
    }
    proof {
        lemma_trim_front_at(s@, lo as int);
        let t = s@.skip(lo as int);
        if hi == lo {
            lemma_trim_back_at(t, 0);
        } else {
            lemma_trim_back_at(t, hi - lo);
        }
        assert(t.take(hi - lo) =~= s@.subrange(lo as int, hi as int));
    }
    (lo, hi)
}

fn is_space(c: char) -> (b: bool)
    ensures
        b == is_space_char(c),
{
    c == ' ' || c == '\t' || c == '\n' || c == '\r'
}

/// The index of the last occurrence of `c` in `s`, or −1 when absent.
pub open spec fn find_last_spec(s: Seq<char>, c: char) -> int
    decreases s.len(),
{
    if s.len() == 0 {
        -1
    } else if s.last() == c {
        s.len() - 1
    } else {
        find_last_spec(s.drop_last(), c)
    }
}

proof fn lemma_find_last_at(s: Seq<char>, c: char, j: int)
    requires
        0 <= j < s.len(),
        s[j] == c,
        forall|k: int| j < k < s.len() ==> s[k] != c,
    ensures
        find_last_spec(s, c) == j,
    decreases s.len(),
{
    if j < s.len() - 1 {
        lemma_find_last_at(s.drop_last(), c, j);
    }
}

proof fn lemma_find_last_none(s: Seq<char>, c: char)
    requires
        forall|k: int| 0 <= k < s.len() ==> s[k] != c,
    ensures
        find_last_spec(s, c) == -1,
    decreases s.len(),
{
    if s.len() > 0 {
        lemma_find_last_none(s.drop_last(), c);
    }
}

/// Finds the last occurrence of `c` in `s`.
pub fn find_last(s: &str, c: char) -> (r: Option<usize>)
    ensures
        r is Some ==> find_last_spec(s@, c) == r->Some_0 as int,
        r is None ==> find_last_spec(s@, c) == -1,
{
    let n = s.unicode_len();
    let mut k: usize = n;
    while k > 0
        invariant
            n == s@.len(),
            k <= n,
            forall|i: int| k <= i < n ==> s@[i] != c,
        decreases k,
    {
        if s.get_char(k - 1) == c {
            proof {
                lemma_find_last_at(s@, c, k - 1);
            }
            return Some(k - 1);
        }
        k -= 1;
    }
    proof {
        lemma_find_last_none(s@, c);
    }
    None
}

} // verus!
