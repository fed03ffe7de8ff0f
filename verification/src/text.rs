//! Verified building blocks for the string manipulation the library does:
//! equality and prefix tests on `&str`, whitespace trimming and tokenization,
//! and decimal rendering and parsing of integers.

use vstd::prelude::*;
use vstd::arithmetic::div_mod::lemma_fundamental_div_mod;

verus! {

/// Character-by-character equality of two string slices.
pub fn str_eq(a: &str, b: &str) -> (r: bool)
    ensures
        r <==> a@ == b@,
{
    let alen = a.unicode_len();
    let blen = b.unicode_len();
    if alen != blen {
        return false;
    }
    let mut i: usize = 0;
    while i < alen
        invariant
            i <= alen,
            alen == a@.len(),
            alen == b@.len(),
            forall|j: int| 0 <= j < i ==> a@[j] == b@[j],
        decreases alen - i,
    {
        if a.get_char(i) != b.get_char(i) {
            return false;
        }
        i += 1;
    }
    proof {
        assert(a@ =~= b@);
    }
    true
}

/// Does `s` start with the prefix `p`?
pub open spec fn spec_starts_with(s: Seq<char>, p: Seq<char>) -> bool {
    p.len() <= s.len() && s.subrange(0, p.len() as int) == p
}

pub fn str_starts_with(s: &str, p: &str) -> (r: bool)
    ensures
        r <==> spec_starts_with(s@, p@),
{
    let slen = s.unicode_len();
    let plen = p.unicode_len();
    if plen > slen {
        return false;
    }
    let mut i: usize = 0;
    while i < plen
        invariant
            i <= plen,
            plen == p@.len(),
            slen == s@.len(),
            plen <= slen,
            forall|j: int| 0 <= j < i ==> s@[j] == p@[j],
        decreases plen - i,
    {
        if s.get_char(i) != p.get_char(i) {
            assert(s@.subrange(0, p@.len() as int)[i as int] != p@[i as int]);
            return false;
        }
        i += 1;
    }
    proof {
        assert(s@.subrange(0, p@.len() as int) =~= p@);
    }
    true
}

/// The whitespace characters the tokenizer recognizes.
pub open spec fn is_space_char(c: char) -> bool {
    c == ' ' || c == '\t' || c == '\n' || c == '\r'
}

pub fn is_space(c: char) -> (r: bool)
    ensures
        r == is_space_char(c),
{
    c == ' ' || c == '\t' || c == '\n' || c == '\r'
}

/// Index of the first whitespace character at or after `i`, or the length of
/// `s` if there is none.
pub open spec fn token_end(s: Seq<char>, i: int) -> int
    recommends
        0 <= i <= s.len(),
    decreases s.len() - i,
{
    if i < 0 || i >= s.len() {
        i
    } else if is_space_char(s[i]) {
        i
    } else {
        token_end(s, i + 1)
    }
}

pub proof fn lemma_token_end(s: Seq<char>, i: int)
    requires
        0 <= i <= s.len(),
    ensures
        i <= token_end(s, i) <= s.len(),
        forall|k: int| i <= k < token_end(s, i) ==> !is_space_char(s[k]),
        token_end(s, i) < s.len() ==> is_space_char(s[token_end(s, i)]),
        i < s.len() && !is_space_char(s[i]) ==> token_end(s, i) > i,
    decreases s.len() - i,
{
    if i < s.len() && !is_space_char(s[i]) {
        lemma_token_end(s, i + 1);
    }
}

/// `token_end` is the only index that closes a run of non-space characters.
pub proof fn lemma_token_end_is(s: Seq<char>, i: int, j: int)
    requires
        0 <= i <= j <= s.len(),
        forall|k: int| i <= k < j ==> !is_space_char(s[k]),
        j == s.len() || is_space_char(s[j]),
    ensures
        token_end(s, i) == j,
    decreases j - i,
{
    if i < j {
        lemma_token_end_is(s, i + 1, j);
    }
}

#[via_fn]
proof fn split_ws_from_decreases(s: Seq<char>, i: int) {
    if 0 <= i < s.len() && !is_space_char(s[i]) {
        lemma_token_end(s, i);
    }
}

/// The whitespace-separated tokens of `s` from position `i` on.
pub open spec fn split_ws_from(s: Seq<char>, i: int) -> Seq<Seq<char>>
    recommends
        0 <= i <= s.len(),
    decreases s.len() - i,
        via split_ws_from_decreases
{
    if i < 0 || i >= s.len() {
        Seq::empty()
    } else if is_space_char(s[i]) {
        split_ws_from(s, i + 1)
    } else {
        seq![s.subrange(i, token_end(s, i))] + split_ws_from(s, token_end(s, i))
    }
}

/// The whitespace-separated tokens of `s`.
pub open spec fn split_ws(s: Seq<char>) -> Seq<Seq<char>> {
    split_ws_from(s, 0)
}

/// The views of the strings in `v`.
pub open spec fn views_of(v: Seq<String>) -> Seq<Seq<char>> {
    v.map_values(|t: String| t@)
}

/// Splits `s` at runs of whitespace, dropping empty pieces.
pub fn split_whitespace_tokens(s: &str) -> (r: Vec<String>)
    ensures
        views_of(r@) == split_ws(s@),
{
    let n = s.unicode_len();
    let mut r: Vec<String> = Vec::new();
    let mut i: usize = 0;
    while i < n
        invariant
            i <= n,
            n == s@.len(),
            views_of(r@) + split_ws_from(s@, i as int) == split_ws(s@),
        decreases n - i,
    {
        if is_space(s.get_char(i)) {
            i += 1;
        } else {
            let start = i;
            let mut j = i;
            while j < n && !is_space(s.get_char(j))
                invariant
                    start <= j <= n,
                    n == s@.len(),
                    forall|k: int| start <= k < j ==> !is_space_char(s@[k]),
                decreases n - j,
            {
                j += 1;
            }
            proof {
                lemma_token_end_is(s@, start as int, j as int);
            }
            let token = String::from_str(s.substring_char(start, j));
            r.push(token);
            proof {
                assert(views_of(r@) =~= views_of(r@.drop_last()).push(token@));
                assert(views_of(r@) + split_ws_from(s@, j as int) =~= split_ws(s@));
            }
            i = j;
        }
    }
    proof {
        assert(views_of(r@) =~= split_ws(s@));
    }
    r
}

/// Index of the first non-space character of `s`, or the length if all spaces.
pub open spec fn first_nonspace(s: Seq<char>, i: int) -> int
    recommends
        0 <= i <= s.len(),
    decreases s.len() - i,
{
    if i < 0 || i >= s.len() {
        i
    } else if is_space_char(s[i]) {
        first_nonspace(s, i + 1)
    } else {
        i
    }
}

/// Index one past the last non-space character of `s`, or 0 if all spaces.
pub open spec fn after_last_nonspace(s: Seq<char>, j: int) -> int
    recommends
        0 <= j <= s.len(),
    decreases j,
{
    if j <= 0 {
        0
    } else if is_space_char(s[j - 1]) {
        after_last_nonspace(s, j - 1)
    } else {
        j
    }
}

/// `s` with leading and trailing whitespace removed.
pub open spec fn spec_trim(s: Seq<char>) -> Seq<char> {
    let a = first_nonspace(s, 0);
    let b = after_last_nonspace(s, s.len() as int);
    if a <= b {
        s.subrange(a, b)
    } else {
        Seq::empty()
    }
}

proof fn lemma_first_nonspace_is(s: Seq<char>, i: int, a: int)
    requires
        0 <= i <= a <= s.len(),
        forall|k: int| i <= k < a ==> is_space_char(s[k]),
        a == s.len() || !is_space_char(s[a]),
    ensures
        first_nonspace(s, i) == a,
    decreases a - i,
{
    if i < a {
        lemma_first_nonspace_is(s, i + 1, a);
    }
}

proof fn lemma_after_last_nonspace_is(s: Seq<char>, j: int, b: int)
    requires
        0 <= b <= j <= s.len(),
        forall|k: int| b <= k < j ==> is_space_char(s[k]),
        b == 0 || !is_space_char(s[b - 1]),
    ensures
        after_last_nonspace(s, j) == b,
    decreases j - b,
{
    if b < j {
        lemma_after_last_nonspace_is(s, j - 1, b);
    }
}

/// Removes leading and trailing whitespace.
pub fn trim_str(s: &str) -> (r: &str)
    ensures
        r@ == spec_trim(s@),
{
    let n = s.unicode_len();
    let mut a: usize = 0;
    while a < n && is_space(s.get_char(a))
        invariant
            a <= n,
            n == s@.len(),
            forall|k: int| 0 <= k < a ==> is_space_char(s@[k]),
        decreases n - a,
    {
        a += 1;
    }
    proof {
        lemma_first_nonspace_is(s@, 0, a as int);
    }
    let mut b: usize = n;
    while b > a && is_space(s.get_char(b - 1))
        invariant
            a <= b <= n,
            n == s@.len(),
            forall|k: int| b <= k < n ==> is_space_char(s@[k]),
        decreases b,
    {
        b -= 1;
    }
    if a == b {
        // the whole string is whitespace: the scans can only meet at the end
        proof {
            assert(a == n);
            lemma_first_nonspace_is(s@, 0, n as int);
            lemma_after_last_nonspace_is(s@, n as int, 0);
        }
        let r = s.substring_char(a, a);
        proof {
            assert(r@ =~= spec_trim(s@));
        }
        r
    } else {
        proof {
            assert(!is_space_char(s@[a as int]));
            assert(!is_space_char(s@[b as int - 1]));
            lemma_first_nonspace_is(s@, 0, a as int);
            lemma_after_last_nonspace_is(s@, n as int, b as int);
        }
        s.substring_char(a, b)
    }
}

/// The character for one decimal digit.
pub open spec fn spec_digit_char(d: int) -> char {
    if d == 0 {
        '0'
    } else if d == 1 {
        '1'
    } else if d == 2 {
        '2'
    } else if d == 3 {
        '3'
    } else if d == 4 {
        '4'
    } else if d == 5 {
        '5'
    } else if d == 6 {
        '6'
    } else if d == 7 {
        '7'
    } else if d == 8 {
        '8'
    } else {
        '9'
    }
}

/// The decimal rendering of a non-negative integer.
pub open spec fn spec_decimal(n: int) -> Seq<char>
    recommends
        n >= 0,
    decreases n,
{
    if n < 10 {
        seq![spec_digit_char(n)]
    } else {
        spec_decimal(n / 10).push(spec_digit_char(n % 10))
    }
}

fn digit_str(d: usize) -> (r: &'static str)
    requires
        d < 10,
    ensures
        r@ == seq![spec_digit_char(d as int)],
{
    proof {
        reveal_strlit("0");
        reveal_strlit("1");
        reveal_strlit("2");
        reveal_strlit("3");
        reveal_strlit("4");
        reveal_strlit("5");
        reveal_strlit("6");
        reveal_strlit("7");
        reveal_strlit("8");
        reveal_strlit("9");
    }
    let r: &'static str = if d == 0 {
        "0"
    } else if d == 1 {
        "1"
    } else if d == 2 {
        "2"
    } else if d == 3 {
        "3"
    } else if d == 4 {
        "4"
    } else if d == 5 {
        "5"
    } else if d == 6 {
        "6"
    } else if d == 7 {
        "7"
    } else if d == 8 {
        "8"
    } else {
        "9"
    };
    proof {
        assert(r@ =~= seq![spec_digit_char(d as int)]);
    }
    r
}

/// Renders `n` in decimal.
pub fn usize_to_string(n: usize) -> (r: String)
    ensures
        r@ == spec_decimal(n as int),
    decreases n,
{
    if n < 10 {
        String::from_str(digit_str(n))
    } else {
        let mut front = usize_to_string(n / 10);
        front.append(digit_str(n % 10));
        proof {
            assert(front@ =~= spec_decimal(n as int / 10).push(spec_digit_char(n as int % 10)));
        }
        front
    }
}

pub proof fn lemma_decimal_len(n: int)
    requires
        n >= 0,
    ensures
        spec_decimal(n).len() >= 1,
        n >= 10 ==> spec_decimal(n).len() >= 2,
    decreases n,
{
    if n >= 10 {
        lemma_decimal_len(n / 10);
    }
}

/// Distinct numbers have distinct decimal renderings.
pub proof fn lemma_decimal_injective(a: int, b: int)
    requires
        a >= 0,
        b >= 0,
        spec_decimal(a) == spec_decimal(b),
    ensures
        a == b,
    decreases a + b,
{
    if a < 10 && b < 10 {
        assert(spec_decimal(a) == seq![spec_digit_char(a)]);
        assert(spec_decimal(b) == seq![spec_digit_char(b)]);
        assert(seq![spec_digit_char(a)][0] == seq![spec_digit_char(b)][0]);
        assert(spec_digit_char(a) == spec_digit_char(b));
    } else if a < 10 {
        lemma_decimal_len(b);
        assert(spec_decimal(a).len() == 1);
    } else if b < 10 {
        lemma_decimal_len(a);
        assert(spec_decimal(b).len() == 1);
    } else {
        assert(spec_decimal(a) == spec_decimal(a / 10).push(spec_digit_char(a % 10)));
        assert(spec_decimal(b) == spec_decimal(b / 10).push(spec_digit_char(b % 10)));
        assert(spec_decimal(a).last() == spec_digit_char(a % 10));
        assert(spec_decimal(b).last() == spec_digit_char(b % 10));
        assert(0 <= a % 10 < 10 && 0 <= b % 10 < 10);
        assert(a % 10 == b % 10);
        assert(spec_decimal(a).drop_last() =~= spec_decimal(a / 10));
        assert(spec_decimal(b).drop_last() =~= spec_decimal(b / 10));
        lemma_decimal_injective(a / 10, b / 10);
        lemma_fundamental_div_mod(a, 10);
        lemma_fundamental_div_mod(b, 10);
    }
}

/// The numeric value of one decimal digit character, or 10 for other characters.
pub open spec fn spec_digit_val(c: char) -> int {
    if c == '0' {
        0
    } else if c == '1' {
        1
    } else if c == '2' {
        2
    } else if c == '3' {
        3
    } else if c == '4' {
        4
    } else if c == '5' {
        5
    } else if c == '6' {
        6
    } else if c == '7' {
        7
    } else if c == '8' {
        8
    } else if c == '9' {
        9
    } else {
        10
    }
}

pub open spec fn is_digit_char(c: char) -> bool {
    spec_digit_val(c) < 10
}

/// The value of a sequence of decimal digit characters.
pub open spec fn spec_digits_val(s: Seq<char>) -> int
    decreases s.len(),
{
    if s.len() == 0 {
        0
    } else {
        spec_digits_val(s.drop_last()) * 10 + spec_digit_val(s.last())
    }
}

pub open spec fn all_digits(s: Seq<char>) -> bool {
    forall|k: int| 0 <= k < s.len() ==> is_digit_char(s[k])
}

proof fn lemma_digits_val_nonneg(s: Seq<char>)
    requires
        all_digits(s),
    ensures
        spec_digits_val(s) >= 0,
    decreases s.len(),
{
    if s.len() > 0 {
        assert(all_digits(s.drop_last())) by {
            assert(forall|k: int| 0 <= k < s.len() - 1 ==> s.drop_last()[k] == s[k]);
        }
        lemma_digits_val_nonneg(s.drop_last());
    }
}

/// Extending a digit string cannot shrink its value.
proof fn lemma_digits_val_monotone(s: Seq<char>, t: Seq<char>)
    requires
        all_digits(t),
        spec_starts_with(t, s),
    ensures
        spec_digits_val(s) <= spec_digits_val(t),
    decreases t.len(),
{
    if t.len() > s.len() {
        assert(all_digits(t.drop_last())) by {
            assert(forall|k: int| 0 <= k < t.len() - 1 ==> t.drop_last()[k] == t[k]);
        }
        assert(spec_starts_with(t.drop_last(), s)) by {
            assert(t.drop_last().subrange(0, s.len() as int) =~= t.subrange(0, s.len() as int));
        }
        lemma_digits_val_monotone(s, t.drop_last());
        lemma_digits_val_nonneg(t.drop_last());
    } else {
        assert(s =~= t);
    }
}

/// The numeric content of a numeric string: an optional leading `+`, then at
/// least one decimal digit.
pub open spec fn spec_numeric_body(s: Seq<char>) -> Seq<char> {
    if s.len() > 0 && s[0] == '+' {
        s.subrange(1, s.len() as int)
    } else {
        s
    }
}

pub open spec fn is_u32_numeral(s: Seq<char>) -> bool {
    let body = spec_numeric_body(s);
    body.len() > 0 && all_digits(body) && spec_digits_val(body) <= u32::MAX
}

/// Parses a decimal `u32`, accepting an optional leading `+` as the standard
/// library parser does. Returns `None` exactly on malformed or too-large input.
pub fn parse_u32(s: &str) -> (r: Option<u32>)
    ensures
        r is Some <==> is_u32_numeral(s@),
        r is Some ==> r->0 == spec_digits_val(spec_numeric_body(s@)),
{
    let n = s.unicode_len();
    let mut i: usize = 0;
    if n > 0 && s.get_char(0) == '+' {
        i = 1;
    }
    let ghost body = spec_numeric_body(s@);
    proof {
        assert(body =~= s@.subrange(i as int, n as int));
    }
    if i == n {
        return None;
    }
    let start = i;
    let mut acc: u32 = 0;
    while i < n
        invariant
            start <= i <= n,
            n == s@.len(),
            body == spec_numeric_body(s@),
            body == s@.subrange(start as int, n as int),
            forall|k: int| start <= k < i ==> is_digit_char(s@[k]),
            acc as int == spec_digits_val(s@.subrange(start as int, i as int)),
        decreases n - i,
    {
        let c = s.get_char(i);
        let d: u32 = if c == '0' {
            0
        } else if c == '1' {
            1
        } else if c == '2' {
            2
        } else if c == '3' {
            3
        } else if c == '4' {
            4
        } else if c == '5' {
            5
        } else if c == '6' {
            6
        } else if c == '7' {
            7
        } else if c == '8' {
            8
        } else if c == '9' {
            9
        } else {
            proof {
                assert(body[i - start] == s@[i as int]);
                assert(!is_digit_char(body[i - start]));
                assert(!all_digits(body));
                assert(!is_u32_numeral(s@));
            }
            return None;
        };
        assert(d as int == spec_digit_val(s@[i as int]));
        let ghost q = (u32::MAX - d) as int / 10;
        proof {
            lemma_fundamental_div_mod((u32::MAX - d) as int, 10);
        }
        if acc > (u32::MAX - d) / 10 {
            proof {
                let here = s@.subrange(start as int, i as int + 1);
                assert(here.drop_last() =~= s@.subrange(start as int, i as int));
                assert(here.last() == s@[i as int]);
                assert(spec_digits_val(here) == acc as int * 10 + d);
                assert(acc as int * 10 >= (q + 1) * 10) by (nonlinear_arith)
                    requires
                        acc as int >= q + 1,
                ;
                assert(spec_digits_val(here) > u32::MAX);
                if all_digits(body) {
                    assert(spec_starts_with(body, here)) by {
                        assert(body.subrange(0, here.len() as int) =~= here);
                    }
                    lemma_digits_val_monotone(here, body);
                    assert(spec_digits_val(body) > u32::MAX);
                }
                assert(!is_u32_numeral(s@));
            }
            return None;
        }
        proof {
            assert(acc as int * 10 <= q * 10) by (nonlinear_arith)
                requires
                    acc as int <= q,
            ;
        }
        let ghost prev = s@.subrange(start as int, i as int);
        acc = acc * 10 + d;
        i += 1;
        proof {
            assert(s@.subrange(start as int, i as int).drop_last() =~= prev);
            assert(s@.subrange(start as int, i as int).last() == s@[i - 1]);
        }
    }
    proof {
        assert(body =~= s@.subrange(start as int, i as int));
    }
    Some(acc)
}

/// Addition on `usize` that stops at the largest value instead of overflowing.
pub fn sat_add_usize(a: usize, b: usize) -> (r: usize)
    ensures
        r == vstd::math::min(a as int + b as int, usize::MAX as int),
{
    if a <= usize::MAX - b {
        a + b
    } else {
        usize::MAX
    }
}

} // verus!
