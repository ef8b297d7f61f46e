//! Character-sequence utilities the status parser is built from: whitespace
//! runs, trimming, literal substring search, token extraction, and decimal
//! parsing/rendering, each proved against a spec-level definition.

use vstd::prelude::*;

verus! {

/// Whitespace for the purposes of this parser: the ASCII whitespace
/// characters that the underlying tool's output can contain.
pub open spec fn is_ws(c: char) -> bool {
    c == ' ' || c == '\t' || c == '\n' || c == '\r'
}

/// First index at or after `i` whose character is not whitespace (or `s.len()`).
pub open spec fn ws_run(s: Seq<char>, i: int) -> int
    decreases s.len() - i,
{
    if i < s.len() && 0 <= i && is_ws(s[i]) {
        ws_run(s, i + 1)
    } else {
        i
    }
}

/// First index at or after `i` whose character is whitespace (or `s.len()`).
pub open spec fn nonws_run(s: Seq<char>, i: int) -> int
    decreases s.len() - i,
{
    if i < s.len() && 0 <= i && !is_ws(s[i]) {
        nonws_run(s, i + 1)
    } else {
        i
    }
}

/// Largest suffix start `k <= j` such that `s[k..j]` is all whitespace.
pub open spec fn ws_run_back(s: Seq<char>, j: int) -> int
    decreases j,
{
    if 0 < j && j <= s.len() && is_ws(s[j - 1]) {
        ws_run_back(s, j - 1)
    } else {
        j
    }
}

/// Largest suffix start `k <= j` such that `s[k..j]` has no whitespace.
pub open spec fn nonws_run_back(s: Seq<char>, j: int) -> int
    decreases j,
{
    if 0 < j && j <= s.len() && !is_ws(s[j - 1]) {
        nonws_run_back(s, j - 1)
    } else {
        j
    }
}

/// First index at or after `i` whose character is not `c` (or `s.len()`).
pub open spec fn char_run(s: Seq<char>, i: int, c: char) -> int
    decreases s.len() - i,
{
    if i < s.len() && 0 <= i && s[i] == c {
        char_run(s, i + 1, c)
    } else {
        i
    }
}

/// Largest suffix start `k <= j` such that `s[k..j]` is all `c`.
pub open spec fn char_run_back(s: Seq<char>, j: int, c: char) -> int
    decreases j,
{
    if 0 < j && j <= s.len() && s[j - 1] == c {
        char_run_back(s, j - 1, c)
    } else {
        j
    }
}

pub proof fn lemma_ws_run(s: Seq<char>, i: int)
    requires
        0 <= i <= s.len(),
    ensures
        i <= ws_run(s, i) <= s.len(),
        forall|j: int| i <= j < ws_run(s, i) ==> #[trigger] is_ws(s[j]),
        ws_run(s, i) < s.len() ==> !is_ws(s[ws_run(s, i)]),
    decreases s.len() - i,
{
    if i < s.len() && is_ws(s[i]) {
        lemma_ws_run(s, i + 1);
    }
}

pub proof fn lemma_nonws_run(s: Seq<char>, i: int)
    requires
        0 <= i <= s.len(),
    ensures
        i <= nonws_run(s, i) <= s.len(),
        forall|j: int| i <= j < nonws_run(s, i) ==> !(#[trigger] is_ws(s[j])),
        nonws_run(s, i) < s.len() ==> is_ws(s[nonws_run(s, i)]),
    decreases s.len() - i,
{
    if i < s.len() && !is_ws(s[i]) {
        lemma_nonws_run(s, i + 1);
    }
}

pub proof fn lemma_ws_run_back(s: Seq<char>, j: int)
    requires
        0 <= j <= s.len(),
    ensures
        0 <= ws_run_back(s, j) <= j,
        forall|k: int| ws_run_back(s, j) <= k < j ==> #[trigger] is_ws(s[k]),
        ws_run_back(s, j) > 0 ==> !is_ws(s[ws_run_back(s, j) - 1]),
    decreases j,
{
    if 0 < j && is_ws(s[j - 1]) {
        lemma_ws_run_back(s, j - 1);
    }
}

pub proof fn lemma_nonws_run_back(s: Seq<char>, j: int)
    requires
        0 <= j <= s.len(),
    ensures
        0 <= nonws_run_back(s, j) <= j,
        forall|k: int| nonws_run_back(s, j) <= k < j ==> !(#[trigger] is_ws(s[k])),
        nonws_run_back(s, j) > 0 ==> is_ws(s[nonws_run_back(s, j) - 1]),
    decreases j,
{
    if 0 < j && !is_ws(s[j - 1]) {
        lemma_nonws_run_back(s, j - 1);
    }
}

pub proof fn lemma_char_run(s: Seq<char>, i: int, c: char)
    requires
        0 <= i <= s.len(),
    ensures
        i <= char_run(s, i, c) <= s.len(),
        forall|j: int| i <= j < char_run(s, i, c) ==> s[j] == c,
        char_run(s, i, c) < s.len() ==> s[char_run(s, i, c)] != c,
    decreases s.len() - i,
{
    if i < s.len() && s[i] == c {
        lemma_char_run(s, i + 1, c);
    }
}

pub proof fn lemma_char_run_back(s: Seq<char>, j: int, c: char)
    requires
        0 <= j <= s.len(),
    ensures
        0 <= char_run_back(s, j, c) <= j,
        forall|k: int| char_run_back(s, j, c) <= k < j ==> s[k] == c,
        char_run_back(s, j, c) > 0 ==> s[char_run_back(s, j, c) - 1] != c,
    decreases j,
{
    if 0 < j && s[j - 1] == c {
        lemma_char_run_back(s, j - 1, c);
    }
}

/// The sequence with leading and trailing whitespace removed.
pub open spec fn trim_of(s: Seq<char>) -> Seq<char> {
    let a = ws_run(s, 0);
    let b = ws_run_back(s, s.len() as int);
    if a <= b {
        s.subrange(a, b)
    } else {
        Seq::empty()
    }
}

pub fn is_ws_exec(c: char) -> (r: bool)
    ensures
        r == is_ws(c),
{
    c == ' ' || c == '\t' || c == '\n' || c == '\r'
}

/// The input with leading and trailing whitespace removed.
pub fn trim_str<'a>(s: &'a str) -> (t: &'a str)
    ensures
        t@ == trim_of(s@),
{
    let n = s.unicode_len();
    proof {
        lemma_ws_run(s@, 0);
        lemma_ws_run_back(s@, s@.len() as int);
    }
    let mut a: usize = 0;
    while a < n && is_ws_exec(s.get_char(a))
        invariant
            0 <= a <= n == s@.len(),
            forall|j: int| 0 <= j < a ==> #[trigger] is_ws(s@[j]),
        decreases n - a,
    {
        a = a + 1;
    }
    assert(a == ws_run(s@, 0));
    let mut b: usize = n;
    while b > a && is_ws_exec(s.get_char(b - 1))
        invariant
            a <= b <= n == s@.len(),
            forall|k: int| b <= k < n ==> #[trigger] is_ws(s@[k]),
        decreases b,
    {
        b = b - 1;
    }
    let t = s.substring_char(a, b);
    proof {
        let sb = ws_run_back(s@, s@.len() as int);
        if b > a {
            // b stopped on a non-whitespace character, so it is the spec bound.
            assert(b == sb);
            assert(t@ == trim_of(s@));
        } else {
            // Everything is whitespace: both sides are empty.
            assert(a == n);
            assert(t@ =~= trim_of(s@));
        }
    }
    t
}

/// `pat` occurs in `s` starting at index `i`.
pub open spec fn matches_at(s: Seq<char>, pat: Seq<char>, i: int) -> bool {
    0 <= i && i + pat.len() <= s.len() && s.subrange(i, i + pat.len() as int) == pat
}

/// `pat` occurs somewhere in `s`.
pub open spec fn has_pat(s: Seq<char>, pat: Seq<char>) -> bool {
    exists|i: int| matches_at(s, pat, i)
}

/// Index of the first occurrence of `pat` at or after `i`, or -1.
pub open spec fn find_from(s: Seq<char>, pat: Seq<char>, i: int) -> int
    decreases s.len() + 1 - i,
{
    if i < 0 || i + pat.len() > s.len() {
        -1
    } else if s.subrange(i, i + pat.len() as int) == pat {
        i
    } else {
        find_from(s, pat, i + 1)
    }
}

pub proof fn lemma_find_from(s: Seq<char>, pat: Seq<char>, i: int)
    requires
        0 <= i,
    ensures
        find_from(s, pat, i) == -1 || find_from(s, pat, i) >= i,
        find_from(s, pat, i) == -1 ==> forall|j: int| j >= i ==> !matches_at(s, pat, j),
        find_from(s, pat, i) >= 0 ==> i <= find_from(s, pat, i) && matches_at(
            s,
            pat,
            find_from(s, pat, i),
        ),
        find_from(s, pat, i) >= 0 ==> forall|j: int|
            i <= j < find_from(s, pat, i) ==> !matches_at(s, pat, j),
    decreases s.len() + 1 - i,
{
    if i + pat.len() > s.len() {
        assert(forall|j: int| j >= i ==> !matches_at(s, pat, j));
    } else if s.subrange(i, i + pat.len() as int) == pat {
    } else {
        lemma_find_from(s, pat, i + 1);
        assert(!matches_at(s, pat, i));
    }
}

/// Whether `pat` occurs in `s` at exactly index `i`.
pub fn match_at_exec(s: &str, pat: &str, i: usize, n: usize, m: usize) -> (r: bool)
    requires
        n == s@.len(),
        m == pat@.len(),
        i + m <= n,
    ensures
        r == matches_at(s@, pat@, i as int),
{
    let mut j: usize = 0;
    while j < m
        invariant
            0 <= j <= m == pat@.len(),
            i + m <= n == s@.len(),
            forall|k: int| 0 <= k < j ==> s@[i + k] == pat@[k],
        decreases m - j,
    {
        if s.get_char(i + j) != pat.get_char(j) {
            assert(s@.subrange(i as int, i + m) != pat@) by {
                assert(s@.subrange(i as int, i + m)[j as int] == s@[i + j]);
            }
            return false;
        }
        j = j + 1;
    }
    assert(s@.subrange(i as int, i + m) =~= pat@);
    true
}

/// Index of the first occurrence of `pat` in `s`, if any.
pub fn find_str(s: &str, pat: &str) -> (r: Option<usize>)
    ensures
        (match r {
            Some(i) => find_from(s@, pat@, 0) == i,
            None => find_from(s@, pat@, 0) == -1,
        }),
{
    let n = s.unicode_len();
    let m = pat.unicode_len();
    proof {
        lemma_find_from(s@, pat@, 0);
    }
    if m > n {
        assert(forall|j: int| !matches_at(s@, pat@, j));
        return None;
    }
    if m == 0 {
        proof {
            assert(s@.subrange(0, 0) =~= pat@);
            assert(matches_at(s@, pat@, 0));
            let f = find_from(s@, pat@, 0);
            if f == -1 {
                assert(false);
            } else if f > 0 {
                assert(!matches_at(s@, pat@, 0));
                assert(false);
            }
        }
        return Some(0);
    }
    let mut i: usize = 0;
    while i <= n - m
        invariant
            0 <= i <= n - m + 1,
            1 <= m <= n,
            n == s@.len(),
            m == pat@.len(),
            forall|j: int| 0 <= j < i ==> !matches_at(s@, pat@, j),
        decreases n - i,
    {
        if match_at_exec(s, pat, i, n, m) {
            proof {
                lemma_find_from(s@, pat@, 0);
                let f = find_from(s@, pat@, 0);
                if f == -1 {
                    assert(!matches_at(s@, pat@, i as int));
                    assert(false);
                } else if 0 <= f < i {
                    assert(matches_at(s@, pat@, f));
                    assert(false);
                } else if f > i {
                    assert(!matches_at(s@, pat@, i as int));
                    assert(false);
                }
            }
            return Some(i);
        }
        i = i + 1;
    }
    assert(forall|j: int| j >= 0 ==> !matches_at(s@, pat@, j));
    proof {
        lemma_find_from(s@, pat@, 0);
        if find_from(s@, pat@, 0) >= 0 {
            assert(matches_at(s@, pat@, find_from(s@, pat@, 0)));
            assert(false);
        }
    }
    None
}

/// Whether `pat` occurs anywhere in `s`.
pub fn contains_str(s: &str, pat: &str) -> (r: bool)
    ensures
        r == has_pat(s@, pat@),
{
    proof {
        lemma_find_from(s@, pat@, 0);
    }
    match find_str(s, pat) {
        Some(i) => {
            assert(matches_at(s@, pat@, i as int));
            true
        },
        None => {
            assert(forall|j: int| !matches_at(s@, pat@, j));
            false
        },
    }
}

/// `s` begins with `pat`.
pub open spec fn begins_with(s: Seq<char>, pat: Seq<char>) -> bool {
    matches_at(s, pat, 0)
}

pub fn begins_with_str(s: &str, pat: &str) -> (r: bool)
    ensures
        r == begins_with(s@, pat@),
{
    let n = s.unicode_len();
    let m = pat.unicode_len();
    if m > n {
        return false;
    }
    match_at_exec(s, pat, 0, n, m)
}

/// The last whitespace-separated token of `s` (empty if `s` has no token).
pub open spec fn last_token_of(s: Seq<char>) -> Seq<char> {
    let j = ws_run_back(s, s.len() as int);
    let i = nonws_run_back(s, j);
    s.subrange(i, j)
}

/// The first whitespace-separated token of `s` (empty if `s` has no token).
pub open spec fn first_token_of(s: Seq<char>) -> Seq<char> {
    let a = ws_run(s, 0);
    let b = nonws_run(s, a);
    s.subrange(a, b)
}

pub fn last_token_str<'a>(s: &'a str) -> (t: &'a str)
    ensures
        t@ == last_token_of(s@),
{
    let n = s.unicode_len();
    let mut j: usize = n;
    while j > 0 && is_ws_exec(s.get_char(j - 1))
        invariant
            0 <= j <= n == s@.len(),
            forall|k: int| j <= k < n ==> #[trigger] is_ws(s@[k]),
        decreases j,
    {
        j = j - 1;
    }
    proof {
        lemma_ws_run_back(s@, s@.len() as int);
        let jb = ws_run_back(s@, s@.len() as int);
        if j < jb {
            assert(is_ws(s@[jb - 1]));
            assert(false);
        } else if jb < j {
            assert(is_ws(s@[j - 1]));
            assert(false);
        }
    }
    let mut i: usize = j;
    while i > 0 && !is_ws_exec(s.get_char(i - 1))
        invariant
            0 <= i <= j <= n == s@.len(),
            forall|k: int| i <= k < j ==> !(#[trigger] is_ws(s@[k])),
        decreases i,
    {
        i = i - 1;
    }
    proof {
        lemma_nonws_run_back(s@, j as int);
        let ib = nonws_run_back(s@, j as int);
        if i < ib {
            assert(!is_ws(s@[ib - 1]));
            assert(false);
        } else if ib < i {
            assert(!is_ws(s@[i - 1]));
            assert(false);
        }
    }
    s.substring_char(i, j)
}

/// Decimal digits.
pub open spec fn is_digit(c: char) -> bool {
    48 <= c as u32 <= 57
}

pub open spec fn digit_val(c: char) -> int {
    c as u32 - 48
}

pub open spec fn all_digits(s: Seq<char>) -> bool {
    forall|i: int| 0 <= i < s.len() ==> #[trigger] is_digit(s[i])
}

/// Value of a digit string read in base ten.
pub open spec fn num_of(s: Seq<char>) -> int
    decreases s.len(),
{
    if s.len() == 0 {
        0
    } else {
        num_of(s.drop_last()) * 10 + digit_val(s.last())
    }
}

/// What parsing yields: the base-ten value of a non-empty all-digit string
/// that fits the type, and 0 on any other input.
pub open spec fn parse_u32_of(s: Seq<char>) -> u32 {
    if s.len() > 0 && all_digits(s) && num_of(s) <= u32::MAX {
        num_of(s) as u32
    } else {
        0
    }
}

pub proof fn lemma_num_of_nonneg(s: Seq<char>)
    requires
        all_digits(s),
    ensures
        num_of(s) >= 0,
    decreases s.len(),
{
    if s.len() > 0 {
        assert(is_digit(s.last()));
        lemma_num_of_nonneg(s.drop_last());
    }
}

pub proof fn lemma_num_of_take(s: Seq<char>, i: int)
    requires
        all_digits(s),
        0 <= i <= s.len(),
    ensures
        num_of(s.take(i)) <= num_of(s),
    decreases s.len(),
{
    if i == s.len() {
        assert(s.take(i) =~= s);
    } else if s.len() > 0 {
        let d = s.drop_last();
        assert(all_digits(d));
        assert(d.take(i) =~= s.take(i));
        lemma_num_of_take(d, i);
        lemma_num_of_nonneg(d);
        assert(is_digit(s.last()));
    }
}

/// Parses a base-ten integer; any malformed or oversized input yields 0.
pub fn parse_u32_str(s: &str) -> (r: u32)
    ensures
        r == parse_u32_of(s@),
{
    let n = s.unicode_len();
    if n == 0 {
        return 0;
    }
    let mut acc: u32 = 0;
    let mut i: usize = 0;
    while i < n
        invariant
            0 <= i <= n == s@.len(),
            n > 0,
            all_digits(s@.take(i as int)),
            acc == num_of(s@.take(i as int)),
        decreases n - i,
    {
        let c = s.get_char(i);
        let v = c as u32;
        if v < 48 || v > 57 {
            assert(!is_digit(s@[i as int]));
            assert(!all_digits(s@));
            return 0;
        }
        let next: u64 = acc as u64 * 10 + (v - 48) as u64;
        proof {
            assert(s@.take(i + 1).drop_last() =~= s@.take(i as int));
            assert(s@.take(i + 1).last() == s@[i as int]);
            assert(all_digits(s@.take(i + 1)));
            assert(num_of(s@.take(i + 1)) == acc * 10 + (v - 48));
        }
        if next > 0xffff_ffffu64 {
            proof {
                if all_digits(s@) {
                    lemma_num_of_take(s@, i + 1);
                    assert(num_of(s@) > u32::MAX);
                }
            }
            return 0;
        }
        acc = next as u32;
        i = i + 1;
    }
    proof {
        assert(s@.take(n as int) =~= s@);
    }
    acc
}

/// The character for one decimal digit.
pub open spec fn digit_char(d: int) -> char {
    if d == 0 {
        '0'
    } else if d == 1 {
        '1'
    } else if d == 2 {
        '2'
    } else if d == 3 {
        '3'
    } else if d == 4 {
        '4'
    } else if d == 5 {
        '5'
    } else if d == 6 {
        '6'
    } else if d == 7 {
        '7'
    } else if d == 8 {
        '8'
    } else {
        '9'
    }
}

/// The base-ten rendering of a non-negative integer, no leading zeros.
pub open spec fn dec_of(n: int) -> Seq<char>
    decreases n,
{
    if n < 10 {
        seq![digit_char(n)]
    } else {
        dec_of(n / 10).push(digit_char(n % 10))
    }
}

fn digit_str(d: u64) -> (r: &'static str)
    requires
        d < 10,
    ensures
        r@ =~= seq![digit_char(d as int)],
{
    proof {
        reveal_strlit("0");
        reveal_strlit("1");
        reveal_strlit("2");
        reveal_strlit("3");
        reveal_strlit("4");
        reveal_strlit("5");
        reveal_strlit("6");
        reveal_strlit("7");
        reveal_strlit("8");
        reveal_strlit("9");
    }
    if d == 0 {
        "0"
    } else if d == 1 {
        "1"
    } else if d == 2 {
        "2"
    } else if d == 3 {
        "3"
    } else if d == 4 {
        "4"
    } else if d == 5 {
        "5"
    } else if d == 6 {
        "6"
    } else if d == 7 {
        "7"
    } else if d == 8 {
        "8"
    } else {
        "9"
    }
}

/// The characters for a sequence of decimal digit values.
pub open spec fn digit_chars(ds: Seq<u64>) -> Seq<char> {
    ds.map_values(|d: u64| digit_char(d as int))
}

/// Appends the base-ten rendering of `n` to `out`.
pub fn append_dec(out: &mut String, n: u64)
    ensures
        final(out)@ == old(out)@ + dec_of(n as int),
{
    let ghost start = out@;
    let mut digits: Vec<u64> = Vec::new();
    let mut m = n;
    loop
        invariant_except_break
            digits@.len() == 0 || m > 0,
            dec_of(n as int) =~= (if digits@.len() == 0 {
                dec_of(m as int)
            } else {
                dec_of(m as int) + digit_chars(digits@).reverse()
            }),
        invariant
            forall|k: int| 0 <= k < digits@.len() ==> 0 <= #[trigger] digits@[k] < 10,
            out@ == start,
        ensures
            digits@.len() > 0,
            dec_of(n as int) =~= digit_chars(digits@).reverse(),
            out@ == start,
        decreases m,
    {
        let d = m % 10;
        let m2 = m / 10;
        proof {
            let cs = digit_chars(digits@);
            let cs2 = digit_chars(digits@.push(d));
            assert(cs2 =~= cs.push(digit_char(d as int)));
            assert(cs2.reverse() =~= seq![digit_char(d as int)] + cs.reverse());
            if m2 == 0 {
                assert(m < 10);
                assert(dec_of(m as int) =~= seq![digit_char(d as int)]);
            } else {
                assert(m >= 10);
                assert(dec_of(m as int) =~= dec_of(m2 as int) + seq![digit_char(d as int)]);
            }
        }
        digits.push(d);
        m = m2;
        if m == 0 {
            break;
        }
    }
    let ghost rendered = dec_of(n as int);
    let mut k: usize = digits.len();
    assert(rendered =~= digit_chars(digits@).reverse());
    assert(rendered.len() == digits@.len());
    while k > 0
        invariant
            0 <= k <= digits@.len(),
            forall|j: int| 0 <= j < digits@.len() ==> 0 <= #[trigger] digits@[j] < 10,
            rendered =~= digit_chars(digits@).reverse(),
            rendered.len() == digits@.len(),
            out@ =~= start + rendered.take(digits@.len() - k),
        decreases k,
    {
        let piece = digit_str(digits[k - 1]);
        out.append(piece);
        proof {
            let len = digits@.len() as int;
            assert(rendered[len - (k as int)] == digit_char(digits@[k - 1] as int));
            assert(rendered.take(len - (k as int) + 1) =~= rendered.take(len - (k as int)) + seq![
                rendered[len - (k as int)],
            ]);
        }
        k = k - 1;
    }
    proof {
        assert(rendered.take(digits@.len() as int) =~= rendered);
        assert(out@ =~= start + dec_of(n as int));
    }
}

} // verus!
