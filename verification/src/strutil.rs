//! Character-level string utilities shared by the parsers in this crate.
//!
//! Everything is specified against `Seq<char>` views; the specs here are the
//! vocabulary the rest of the crate's contracts are written in.
use vstd::prelude::*;

verus! {

/// Index of the first occurrence of `c` in `s`, or `s.len()` if absent.
pub open spec fn first_at(s: Seq<char>, c: char) -> nat
    decreases s.len(),
{
    if s.len() == 0 {
        0
    } else if s[0] == c {
        0
    } else {
        1 + first_at(s.drop_first(), c)
    }
}

pub proof fn lemma_first_at(s: Seq<char>, c: char)
    ensures
        first_at(s, c) <= s.len(),
        forall|i: int| 0 <= i < first_at(s, c) ==> s[i] != c,
        first_at(s, c) < s.len() ==> s[first_at(s, c) as int] == c,
    decreases s.len(),
{
    if s.len() > 0 && s[0] != c {
        lemma_first_at(s.drop_first(), c);
        assert(forall|i: int| 1 <= i < first_at(s, c) ==> s[i] == s.drop_first()[i - 1]);
    }
}

/// The pieces of `s` split on every occurrence of `c` (empty pieces kept),
/// as Rust's `str::split` produces them.
pub open spec fn spec_split(s: Seq<char>, c: char) -> Seq<Seq<char>>
    decreases s.len(),
{
    if first_at(s, c) >= s.len() {
        seq![s]
    } else {
        seq![s.take(first_at(s, c) as int)] + spec_split(
            s.skip(first_at(s, c) as int + 1),
            c,
        )
    }
}

pub proof fn lemma_spec_split_len(s: Seq<char>, c: char)
    ensures
        spec_split(s, c).len() >= 1,
    decreases s.len(),
{
}

/// True if `s` equals `t` (by characters).
pub fn str_eq(a: &str, b: &str) -> (r: bool)
    ensures
        r == (a@ == b@),
{
    let n = a.unicode_len();
    if n != b.unicode_len() {
        return false;
    }
    let mut i: usize = 0;
    while i < n
        invariant
            n == a@.len(),
            n == b@.len(),
            i <= n,
            forall|j: int| 0 <= j < i ==> a@[j] == b@[j],
        decreases n - i,
    {
        if a.get_char(i) != b.get_char(i) {
            return false;
        }
        i = i + 1;
    }
    proof {
        assert(a@ =~= b@);
    }
    true
}

/// First index of `c` in `s`, or `s@.len()` if `c` does not occur.
pub fn find_char(s: &str, c: char) -> (r: usize)
    ensures
        r == first_at(s@, c),
{
    let n = s.unicode_len();
    let mut i: usize = 0;
    while i < n
        invariant
            n == s@.len(),
            i <= n,
            forall|j: int| 0 <= j < i ==> s@[j] != c,
        decreases n - i,
    {
        if s.get_char(i) == c {
            proof {
                lemma_first_at_from_window(s@, c, i as int);
            }
            return i;
        }
        i = i + 1;
    }
    proof {
        lemma_first_at(s@, c);
    }
    n
}

proof fn lemma_first_at_from_window(s: Seq<char>, c: char, i: int)
    requires
        0 <= i < s.len(),
        s[i] == c,
        forall|j: int| 0 <= j < i ==> s[j] != c,
    ensures
        first_at(s, c) == i,
{
    lemma_first_at(s, c);
    if first_at(s, c) < i {
        assert(s[first_at(s, c) as int] == c);
    }
}

/// The pieces of `s` split at every `c`, as `String`s.
pub fn split_char(s: &str, c: char) -> (r: Vec<String>)
    ensures
        r.deep_view() == spec_split(s@, c),
    decreases s@.len(),
{
    let n = s.unicode_len();
    let j = find_char(s, c);
    proof {
        lemma_first_at(s@, c);
    }
    if j >= n {
        let mut r: Vec<String> = Vec::new();
        r.push(String::from_str(s));
        proof {
            assert(r.deep_view() =~= spec_split(s@, c));
        }
        r
    } else {
        let head = s.substring_char(0, j);
        let tail = s.substring_char(j + 1, n);
        assert(tail@ == s@.skip(j + 1));
        let mut r = split_char(tail, c);
        r.insert(0, String::from_str(head));
        proof {
            assert(r.deep_view() =~= seq![s@.take(j as int)] + spec_split(s@.skip(j + 1), c));
        }
        r
    }
}

/// `(before, after)` around the first `c`, or `None` if `c` does not occur:
/// Rust's `str::split_once`.
pub fn split_once_char(s: &str, c: char) -> (r: Option<(String, String)>)
    ensures
        first_at(s@, c) < s@.len() ==> (r matches Some(p) && p.0@ == s@.take(
            first_at(s@, c) as int,
        ) && p.1@ == s@.skip(first_at(s@, c) as int + 1)),
        first_at(s@, c) >= s@.len() ==> r is None,
{
    let n = s.unicode_len();
    let j = find_char(s, c);
    if j >= n {
        None
    } else {
        let head = s.substring_char(0, j);
        let tail = s.substring_char(j + 1, n);
        Some((String::from_str(head), String::from_str(tail)))
    }
}

/// A line piece with a trailing carriage return removed.
pub open spec fn strip_cr(p: Seq<char>) -> Seq<char> {
    if p.len() > 0 && p[p.len() - 1] == '\r' {
        p.drop_last()
    } else {
        p
    }
}

/// The lines of `s`, as Rust's `str::lines` produces them: split at `\n`,
/// a final line ending optional, `\r\n` accepted.
pub open spec fn spec_lines(s: Seq<char>) -> Seq<Seq<char>> {
    let parts = spec_split(s, '\n');
    let kept = if parts[parts.len() - 1].len() == 0 {
        parts.drop_last()
    } else {
        parts
    };
    kept.map_values(|p: Seq<char>| strip_cr(p))
}

/// The lines of `s`.
pub fn split_lines(s: &str) -> (r: Vec<String>)
    ensures
        r.deep_view() == spec_lines(s@),
{
    let mut parts = split_char(s, '\n');
    proof {
        lemma_spec_split_len(s@, '\n');
    }
    let keep_last = {
        let last = &parts[parts.len() - 1];
        last.as_str().unicode_len() > 0
    };
    if !keep_last {
        let _ = parts.pop();
    }
    let ghost kept = parts.deep_view();
    let mut r: Vec<String> = Vec::new();
    let mut i: usize = 0;
    while i < parts.len()
        invariant
            i <= parts.len(),
            parts.deep_view() == kept,
            r.deep_view() =~= kept.take(i as int).map_values(|p: Seq<char>| strip_cr(p)),
        decreases parts.len() - i,
    {
        let p = &parts[i];
        let n = p.as_str().unicode_len();
        let stripped = if n > 0 && p.as_str().get_char(n - 1) == '\r' {
            let t = String::from_str(p.as_str().substring_char(0, n - 1));
            proof {
                assert(t@ =~= strip_cr(kept[i as int]));
            }
            t
        } else {
            p.clone()
        };
        proof {
            assert(stripped@ == strip_cr(kept[i as int]));
        }
        let ghost old_dv = r.deep_view();
        r.push(stripped);
        proof {
            assert(r.deep_view() =~~= old_dv.push(strip_cr(kept[i as int])));
            assert(kept.take(i + 1).map_values(|p: Seq<char>| strip_cr(p)) =~~= kept.take(
                i as int,
            ).map_values(|p: Seq<char>| strip_cr(p)).push(strip_cr(kept[i as int])));
        }
        i = i + 1;
    }
    proof {
        assert(kept.take(parts.len() as int) =~= kept);
        assert(r.deep_view() =~= spec_lines(s@));
    }
    r
}

/// The whitespace characters this crate's parsers strip.
pub open spec fn is_space(c: char) -> bool {
    c == ' ' || c == '\t' || c == '\r' || c == '\n'
}

/// Length of the run of whitespace at the start of `s`.
pub open spec fn space_prefix_len(s: Seq<char>) -> nat
    decreases s.len(),
{
    if s.len() == 0 {
        0
    } else if is_space(s[0]) {
        1 + space_prefix_len(s.drop_first())
    } else {
        0
    }
}

/// Length of the run of whitespace at the end of `s`.
pub open spec fn space_suffix_len(s: Seq<char>) -> nat
    decreases s.len(),
{
    if s.len() == 0 {
        0
    } else if is_space(s[s.len() - 1]) {
        1 + space_suffix_len(s.drop_last())
    } else {
        0
    }
}

/// `s` with leading and trailing whitespace removed.
pub open spec fn spec_trim(s: Seq<char>) -> Seq<char> {
    let t = s.skip(space_prefix_len(s) as int);
    t.take(t.len() - space_suffix_len(t))
}

pub proof fn lemma_space_prefix_len(s: Seq<char>)
    ensures
        space_prefix_len(s) <= s.len(),
        forall|i: int| 0 <= i < space_prefix_len(s) ==> is_space(s[i]),
        space_prefix_len(s) < s.len() ==> !is_space(s[space_prefix_len(s) as int]),
    decreases s.len(),
{
    if s.len() > 0 && is_space(s[0]) {
        lemma_space_prefix_len(s.drop_first());
        assert(forall|i: int|
            1 <= i < space_prefix_len(s) ==> s[i] == s.drop_first()[i - 1]);
    }
}

pub proof fn lemma_space_suffix_len(s: Seq<char>)
    ensures
        space_suffix_len(s) <= s.len(),
        forall|i: int| s.len() - space_suffix_len(s) <= i < s.len() ==> is_space(s[i]),
        space_suffix_len(s) < s.len() ==> !is_space(
            s[s.len() - space_suffix_len(s) - 1],
        ),
    decreases s.len(),
{
    if s.len() > 0 && is_space(s[s.len() - 1]) {
        lemma_space_suffix_len(s.drop_last());
        assert(forall|i: int|
            0 <= i < s.len() - 1 ==> s[i] == s.drop_last()[i]);
    }
}

fn is_space_exec(c: char) -> (r: bool)
    ensures
        r == is_space(c),
{
    c == ' ' || c == '\t' || c == '\r' || c == '\n'
}

/// `s` with leading and trailing whitespace removed.
pub fn trim(s: &str) -> (r: String)
    ensures
        r@ == spec_trim(s@),
{
    let n = s.unicode_len();
    let mut lo: usize = 0;
    while lo < n && is_space_exec(s.get_char(lo))
        invariant
            n == s@.len(),
            lo <= n,
            forall|i: int| 0 <= i < lo ==> is_space(s@[i]),
        decreases n - lo,
    {
        lo = lo + 1;
    }
    let mut hi: usize = n;
    while hi > lo && is_space_exec(s.get_char(hi - 1))
        invariant
            n == s@.len(),
            lo <= hi <= n,
            forall|i: int| 0 <= i < lo ==> is_space(s@[i]),
            forall|i: int| hi <= i < n ==> is_space(s@[i]),
        decreases hi,
    {
        hi = hi - 1;
    }
    let r = String::from_str(s.substring_char(lo, hi));
    proof {
        lemma_space_prefix_len(s@);
        lemma_space_suffix_len(s@.skip(space_prefix_len(s@) as int));
        lemma_trim_window(s@, lo as int, hi as int);
    }
    r
}

proof fn lemma_trim_window(s: Seq<char>, lo: int, hi: int)
    requires
        0 <= lo <= hi <= s.len(),
        forall|i: int| 0 <= i < lo ==> is_space(s[i]),
        forall|i: int| hi <= i < s.len() ==> is_space(s[i]),
        lo < hi ==> !is_space(s[lo]),
        lo < hi ==> !is_space(s[hi - 1]),
        lo == hi ==> lo == s.len() || !is_space(s[lo]),
    ensures
        s.subrange(lo, hi) == spec_trim(s),
{
    lemma_space_prefix_len(s);
    if lo < hi {
        assert(space_prefix_len(s) == lo) by {
            if space_prefix_len(s) < lo {
                assert(is_space(s[space_prefix_len(s) as int]));
            }
            if space_prefix_len(s) > lo {
                assert(is_space(s[lo]));
            }
        }
    } else {
        assert(space_prefix_len(s) == lo) by {
            if space_prefix_len(s) < lo {
                assert(is_space(s[space_prefix_len(s) as int]));
            }
        }
    }
    let t = s.skip(lo);
    lemma_space_suffix_len(t);
    assert(forall|i: int| 0 <= i < t.len() ==> t[i] == s[lo + i]);
    assert(space_suffix_len(t) == t.len() - (hi - lo)) by {
        if space_suffix_len(t) < t.len() - (hi - lo) {
            assert(is_space(t[t.len() - space_suffix_len(t) - 1]));
        }
        if space_suffix_len(t) > t.len() - (hi - lo) {
            assert(is_space(t[(hi - lo) - 1]));
        }
    }
    assert(s.subrange(lo, hi) =~= spec_trim(s));
}

/// Pieces joined with a separator between them (none at the ends).
pub open spec fn spec_join_char(parts: Seq<Seq<char>>, sep: char) -> Seq<char>
    decreases parts.len(),
{
    if parts.len() == 0 {
        seq![]
    } else if parts.len() == 1 {
        parts[0]
    } else {
        spec_join_char(parts.drop_last(), sep) + seq![sep] + parts[parts.len() - 1]
    }
}

/// Joins pieces with one separator character between them.
pub fn join_char(parts: &Vec<String>, sep: &str) -> (r: String)
    requires
        sep@.len() == 1,
    ensures
        r@ == spec_join_char(parts.deep_view(), sep@[0]),
{
    let ghost pv = parts.deep_view();
    let mut r = String::new();
    let mut i: usize = 0;
    proof {
        assert(r@ =~= spec_join_char(pv.take(0), sep@[0]));
    }
    while i < parts.len()
        invariant
            i <= parts.len(),
            pv == parts.deep_view(),
            pv.len() == parts.len(),
            sep@.len() == 1,
            r@ == spec_join_char(pv.take(i as int), sep@[0]),
        decreases parts.len() - i,
    {
        proof {
            assert(pv.take(i + 1).drop_last() =~= pv.take(i as int));
            assert(pv.take(i + 1)[i as int] == pv[i as int]);
            assert(pv[i as int] == parts@[i as int]@);
        }
        if i > 0 {
            r.append(sep);
            proof {
                assert(sep@ =~= seq![sep@[0]]);
            }
        }
        r.append(parts[i].as_str());
        proof {
            if i > 0 {
                assert(r@ =~= spec_join_char(pv.take(i as int), sep@[0]) + seq![sep@[0]]
                    + pv[i as int]);
            } else {
                assert(r@ =~= pv[i as int]);
            }
            assert(r@ =~= spec_join_char(pv.take(i + 1), sep@[0]));
        }
        i = i + 1;
    }
    proof {
        assert(pv.take(parts.len() as int) =~= pv);
    }
    r
}

/// True if every character of `s` is a decimal digit and `s` is nonempty.
pub open spec fn is_digits(s: Seq<char>) -> bool {
    s.len() > 0 && forall|i: int| 0 <= i < s.len() ==> '0' <= #[trigger] s[i] <= '9'
}

/// The value of a single decimal digit (0 for any other character).
pub open spec fn char_digit(c: char) -> nat {
    if '0' <= c <= '9' {
        ((c as int) - ('0' as int)) as nat
    } else {
        0
    }
}

/// The number denoted by the decimal digit string `s`.
pub open spec fn digits_val(s: Seq<char>) -> nat
    decreases s.len(),
{
    if s.len() == 0 {
        0
    } else {
        digits_val(s.drop_last()) * 10 + char_digit(s[s.len() - 1])
    }
}

/// Parses a decimal digit string as a `u32`; `None` on a non-digit, an empty
/// string, or overflow.
pub fn parse_u32(s: &str) -> (r: Option<u32>)
    ensures
        r matches Some(v) ==> is_digits(s@) && v == digits_val(s@),
        r is None ==> !is_digits(s@) || digits_val(s@) > u32::MAX,
{
    let n = s.unicode_len();
    if n == 0 {
        return None;
    }
    let mut acc: u32 = 0;
    let mut i: usize = 0;
    while i < n
        invariant
            n == s@.len(),
            i <= n,
            forall|j: int| 0 <= j < i ==> '0' <= #[trigger] s@[j] <= '9',
            acc == digits_val(s@.take(i as int)),
        decreases n - i,
    {
        let c = s.get_char(i);
        if !('0' <= c && c <= '9') {
            return None;
        }
        let d = (c as u32) - ('0' as u32);
        if acc > (u32::MAX - d) / 10 {
            proof {
                assert(digits_val(s@.take(i as int)) * 10 + char_digit(s@[i as int])
                    > u32::MAX) by (nonlinear_arith)
                    requires
                        acc == digits_val(s@.take(i as int)),
                        acc > (u32::MAX - d) / 10,
                        d == char_digit(s@[i as int]),
                        d <= 9,
                ;
                lemma_digits_val_grows(s@, i as int);
            }
            return None;
        }
        assert(s@.take(i + 1).drop_last() =~= s@.take(i as int));
        assert(s@.take(i + 1)[i as int] == s@[i as int]);
        acc = acc * 10 + d;
        i = i + 1;
    }
    assert(s@.take(n as int) =~= s@);
    Some(acc)
}

/// The decimal digit character for `d`.
pub open spec fn dec_digit(d: nat) -> char {
    if d == 0 {
        '0'
    } else if d == 1 {
        '1'
    } else if d == 2 {
        '2'
    } else if d == 3 {
        '3'
    } else if d == 4 {
        '4'
    } else if d == 5 {
        '5'
    } else if d == 6 {
        '6'
    } else if d == 7 {
        '7'
    } else if d == 8 {
        '8'
    } else {
        '9'
    }
}

/// The decimal spelling of `n`.
pub open spec fn spec_u32_str(n: nat) -> Seq<char>
    decreases n,
{
    if n < 10 {
        seq![dec_digit(n)]
    } else {
        spec_u32_str(n / 10) + seq![dec_digit(n % 10)]
    }
}

fn digit_str(d: u32) -> (r: &'static str)
    requires
        d < 10,
    ensures
        r@ == seq![dec_digit(d as nat)],
{
    proof {
        reveal_strlit("0");
        reveal_strlit("1");
        reveal_strlit("2");
        reveal_strlit("3");
        reveal_strlit("4");
        reveal_strlit("5");
        reveal_strlit("6");
        reveal_strlit("7");
        reveal_strlit("8");
        reveal_strlit("9");
    }
    let r = if d == 0 {
        "0"
    } else if d == 1 {
        "1"
    } else if d == 2 {
        "2"
    } else if d == 3 {
        "3"
    } else if d == 4 {
        "4"
    } else if d == 5 {
        "5"
    } else if d == 6 {
        "6"
    } else if d == 7 {
        "7"
    } else if d == 8 {
        "8"
    } else {
        "9"
    };
    proof {
        assert(r@ =~= seq![dec_digit(d as nat)]);
    }
    r
}

/// Writes `n` in decimal.
pub fn u32_to_string(n: u32) -> (r: String)
    ensures
        r@ == spec_u32_str(n as nat),
    decreases n,
{
    if n < 10 {
        String::from_str(digit_str(n))
    } else {
        let mut s = u32_to_string(n / 10);
        s.append(digit_str(n % 10));
        s
    }
}

/// True if `s` ends with `suffix` (by characters).
pub open spec fn seq_ends_with(s: Seq<char>, suffix: Seq<char>) -> bool {
    suffix.len() <= s.len() && s.skip(s.len() - suffix.len()) == suffix
}

/// Suffix test on strings.
pub fn ends_with_str(s: &str, suffix: &str) -> (r: bool)
    ensures
        r == seq_ends_with(s@, suffix@),
{
    let n = s.unicode_len();
    let m = suffix.unicode_len();
    if m > n {
        return false;
    }
    let tail = s.substring_char(n - m, n);
    str_eq(tail, suffix)
}

proof fn lemma_digits_val_grows(s: Seq<char>, i: int)
    requires
        0 <= i < s.len(),
        digits_val(s.take(i)) * 10 + char_digit(s[i]) > u32::MAX,
    ensures
        digits_val(s) > u32::MAX,
    decreases s.len() - i,
{
    assert(s.take(i + 1).drop_last() =~= s.take(i));
    assert(s.take(i + 1)[i] == s[i]);
    if i == s.len() - 1 {
        assert(s.take(i + 1) =~= s);
    } else {
        assert(digits_val(s.take(i + 1)) > u32::MAX);
        assert(digits_val(s.take(i + 1)) * 10 + char_digit(s[i + 1]) > u32::MAX)
            by (nonlinear_arith)
            requires
                digits_val(s.take(i + 1)) > u32::MAX,
        ;
        lemma_digits_val_grows(s, i + 1);
    }
}

} // verus!
