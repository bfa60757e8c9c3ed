//! Dotted version strings and their order.
//!
//! A version is read as three numbers: of each of its first three
//! dot-separated tokens the leading run of ASCII digits counts, and a token
//! that is missing, starts with no digit, or holds a number too large for
//! `u64` counts as zero.

use vstd::prelude::*;
use crate::text::chars_of;

verus! {

/// Whether `c` is one of the ASCII digits `0` to `9`.
pub open spec fn is_digit(c: char) -> bool {
    '0' <= c && c <= '9'
}

/// The first position at or after `start` that holds a dot; the length of `s`
/// where there is none.
pub open spec fn dot_from(s: Seq<char>, start: int) -> int
    decreases s.len() - start,
{
    if start < 0 || start >= s.len() {
        s.len() as int
    } else if s[start] == '.' {
        start
    } else {
        dot_from(s, start + 1)
    }
}

/// Where the `k`-th dot-separated token of `s` starts (counting from zero): one
/// past the dot that ends the token before it. A value beyond the length of `s`
/// says that `s` has no such token.
pub open spec fn token_start(s: Seq<char>, k: nat) -> int
    decreases k,
{
    if k == 0 {
        0
    } else {
        let before = token_start(s, (k - 1) as nat);
        if before > s.len() {
            before
        } else {
            dot_from(s, before) + 1
        }
    }
}

/// The `k`-th dot-separated token of `s`; empty where `s` has fewer tokens.
pub open spec fn token(s: Seq<char>, k: nat) -> Seq<char> {
    let start = token_start(s, k);
    if start > s.len() {
        Seq::empty()
    } else {
        s.subrange(start, dot_from(s, start))
    }
}

/// The length of the run of ASCII digits at the start of `s`.
pub open spec fn digit_run(s: Seq<char>) -> nat
    decreases s.len(),
{
    if s.len() > 0 && is_digit(s[0]) {
        1 + digit_run(s.skip(1))
    } else {
        0
    }
}

/// The number that a sequence of ASCII digits writes in base ten.
pub open spec fn decimal_value(digits: Seq<char>) -> nat
    decreases digits.len(),
{
    if digits.len() == 0 {
        0
    } else {
        10 * decimal_value(digits.drop_last()) + (digits.last() as u32 - '0' as u32) as nat
    }
}

/// The number that one token stands for: the value of its leading digits, or
/// zero where there are none or the value does not fit in `u64`.
pub open spec fn token_number(t: Seq<char>) -> u64 {
    let value = decimal_value(t.take(digit_run(t) as int));
    if value <= u64::MAX {
        value as u64
    } else {
        0
    }
}

/// The three numbers of a version string: major, minor, patch.
pub open spec fn version_triple(s: Seq<char>) -> Seq<u64> {
    seq![token_number(token(s, 0)), token_number(token(s, 1)), token_number(token(s, 2))]
}

/// Whether the triple `a` comes strictly after the triple `b`, the first
/// number weighing most.
pub open spec fn triple_greater(a: Seq<u64>, b: Seq<u64>) -> bool {
    a[0] > b[0] || (a[0] == b[0] && (a[1] > b[1] || (a[1] == b[1] && a[2] > b[2])))
}

/// Whether the version `bundled` is strictly newer than the version `installed`.
pub open spec fn newer_version(bundled: Seq<char>, installed: Seq<char>) -> bool {
    triple_greater(version_triple(bundled), version_triple(installed))
}

/// A sequence whose first `n` characters are digits, and which ends there or
/// goes on with another character, has a digit run of exactly `n`.
proof fn lemma_digit_run_exact(s: Seq<char>, n: nat)
    requires
        n <= s.len(),
        forall|j: int| 0 <= j < n ==> is_digit(#[trigger] s[j]),
        n == s.len() || !is_digit(s[n as int]),
    ensures
        digit_run(s) == n,
    decreases n,
{
    if n > 0 {
        let rest = s.skip(1);
        assert forall|j: int| 0 <= j < n - 1 implies is_digit(#[trigger] rest[j]) by {
            assert(rest[j] == s[j + 1]);
        }
        lemma_digit_run_exact(rest, (n - 1) as nat);
    }
}

/// A sequence whose first `n` characters are digits has a digit run of at least `n`.
proof fn lemma_digit_run_at_least(s: Seq<char>, n: nat)
    requires
        n <= s.len(),
        forall|j: int| 0 <= j < n ==> is_digit(#[trigger] s[j]),
    ensures
        digit_run(s) >= n,
        digit_run(s) <= s.len(),
    decreases s.len(),
{
    if s.len() > 0 && is_digit(s[0]) {
        let rest = s.skip(1);
        if n > 0 {
            assert forall|j: int| 0 <= j < n - 1 implies is_digit(#[trigger] rest[j]) by {
                assert(rest[j] == s[j + 1]);
            }
            lemma_digit_run_at_least(rest, (n - 1) as nat);
        } else {
            lemma_digit_run_at_least(rest, 0);
        }
    }
}

/// Reading more digits never gives a smaller number.
proof fn lemma_decimal_value_grows(digits: Seq<char>, n: int)
    requires
        0 <= n <= digits.len(),
    ensures
        decimal_value(digits.take(n)) <= decimal_value(digits),
    decreases digits.len() - n,
{
    if n == digits.len() {
        assert(digits.take(n) == digits);
    } else {
        let shorter = digits.drop_last();
        assert(shorter.take(n) == digits.take(n));
        lemma_decimal_value_grows(shorter, n);
    }
}

/// The position of the first dot at or after `start`.
fn find_dot(chars: &Vec<char>, start: usize) -> (end: usize)
    requires
        start <= chars.len(),
    ensures
        end == dot_from(chars@, start as int),
        start <= end <= chars.len(),
{
    let mut i: usize = start;
    while i < chars.len() && chars[i] != '.'
        invariant
            start <= i <= chars.len(),
            dot_from(chars@, start as int) == dot_from(chars@, i as int),
        decreases chars.len() - i,
    {
        i = i + 1;
    }
    i
}

/// The number that the characters from `start` up to `end` stand for.
fn leading_number(chars: &Vec<char>, start: usize, end: usize) -> (number: u64)
    requires
        start <= end <= chars.len(),
    ensures
        number == token_number(chars@.subrange(start as int, end as int)),
{
    let ghost t = chars@.subrange(start as int, end as int);
    let mut i: usize = start;
    let mut value: u64 = 0;
    while i < end && '0' <= chars[i] && chars[i] <= '9'
        invariant
            start <= i <= end <= chars.len(),
            t == chars@.subrange(start as int, end as int),
            forall|j: int| 0 <= j < i - start ==> is_digit(#[trigger] t[j]),
            value == decimal_value(t.take(i - start)),
        decreases end - i,
    {
        let digit: u64 = (chars[i] as u32 - '0' as u32) as u64;
        proof {
            assert(t[i - start] == chars@[i as int]);
            assert(t.take(i - start + 1).drop_last() == t.take(i - start));
            assert(t.take(i - start + 1).last() == t[i - start]);
        }
        let next: Option<u64> = match value.checked_mul(10) {
            Some(shifted) => shifted.checked_add(digit),
            None => None,
        };
        match next {
            Some(grown) => {
                value = grown;
            },
            None => {
                proof {
                    let n = (i - start + 1) as nat;
                    lemma_digit_run_at_least(t, n);
                    let run = t.take(digit_run(t) as int);
                    assert(run.take(n as int) == t.take(n as int));
                    lemma_decimal_value_grows(run, n as int);
                }
                return 0;
            },
        }
        i = i + 1;
    }
    proof {
        lemma_digit_run_exact(t, (i - start) as nat);
    }
    value
}

/// Reads the token that starts at `start`, where `None` says that the text has
/// no further token. Returns the token's number and the start of the next token.
fn read_token(chars: &Vec<char>, start: Option<usize>, Ghost(k): Ghost<nat>) -> (out: (
    u64,
    Option<usize>,
))
    requires
        match start {
            Some(p) => p <= chars.len() && p == token_start(chars@, k),
            None => token_start(chars@, k) > chars.len(),
        },
    ensures
        out.0 == token_number(token(chars@, k)),
        match out.1 {
            Some(p) => p <= chars.len() && p == token_start(chars@, k + 1),
            None => token_start(chars@, k + 1) > chars.len(),
        },
{
    match start {
        Some(p) => {
            let end = find_dot(chars, p);
            let number = leading_number(chars, p, end);
            if end < chars.len() {
                (number, Some(end + 1))
            } else {
                (number, None)
            }
        },
        None => {
            proof {
                assert(Seq::<char>::empty().take(0) =~= Seq::<char>::empty());
            }
            (0, None)
        },
    }
}

/// Reads a dotted version string as its three numbers: major, minor, patch.
pub fn parse_version(version: &str) -> (parts: [u64; 3])
    ensures
        parts@ == version_triple(version@),
{
    let chars = chars_of(version);
    let (major, after_major) = read_token(&chars, Some(0), Ghost(0));
    let (minor, after_minor) = read_token(&chars, after_major, Ghost(1));
    let (patch, _) = read_token(&chars, after_minor, Ghost(2));
    [major, minor, patch]
}

/// Whether the bundled version is strictly newer than the installed one: the
/// version triples are compared major first, and equal triples are not newer.
pub fn is_newer_version(bundled: &str, installed: &str) -> (newer: bool)
    ensures
        newer == newer_version(bundled@, installed@),
{
    let bundled_version = parse_version(bundled);
    let installed_version = parse_version(installed);
    let mut idx: usize = 0;
    while idx < 3
        invariant
            0 <= idx <= 3,
            bundled_version@ == version_triple(bundled@),
            installed_version@ == version_triple(installed@),
            forall|j: int| 0 <= j < idx ==> bundled_version@[j] == installed_version@[j],
        decreases 3 - idx,
    {
        let bundled_part = bundled_version[idx];
        let installed_part = installed_version[idx];
        if bundled_part != installed_part {
            return bundled_part > installed_part;
        }
        idx = idx + 1;
    }
    false
}

/// The order of versions is strict: of two versions at most one is newer than
/// the other. Where both read as the same triple neither is newer; where the
/// triples differ exactly one is.
pub proof fn lemma_newer_version_is_strict(a: Seq<char>, b: Seq<char>)
    ensures
        newer_version(a, b) ==> !newer_version(b, a),
        version_triple(a) == version_triple(b) ==> !newer_version(a, b) && !newer_version(b, a),
        version_triple(a) != version_triple(b) ==> (newer_version(a, b) != newer_version(b, a)),
{
    let x = version_triple(a);
    let y = version_triple(b);
    if x[0] == y[0] && x[1] == y[1] && x[2] == y[2] {
        assert(x =~= y);
    }
}

/// Newer-than is transitive.
pub proof fn lemma_newer_version_is_transitive(a: Seq<char>, b: Seq<char>, c: Seq<char>)
    requires
        newer_version(a, b),
        newer_version(b, c),
    ensures
        newer_version(a, c),
{
}

} // verus!
