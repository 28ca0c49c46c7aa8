//! Parses `git --progress` stderr into progress events.
//!
//! Git writes progress lines separated by `\r` (in-place updates) and `\n` (phase transitions).
//! A progress line reads, with `\s` for white space and `\d` for a decimal digit:
//!
//! ```text
//! (remote:\s+)? word \s+ (objects:|deltas:) \s+ ( \d+%\s+(\d+/\d+) | \d+ ) ( ,\s* [\d.]+ \s* [KMG]i?B )?
//! ```
//!
//! and whatever follows. Other lines are passed on as log messages.

use crate::progress::{ItemTotal, Phase, ProgressReporter};
use crate::text::{
    all_digits, chars_of, decimal, decimal_reads_back, digit_value, digits_value, is_blank,
    is_digit, is_space, matches_at, number, occurs_at, read_number, space, value_of_digit,
};
use crate::unicode::{
    ascii_digits_are_decimal, decimal_number, digits_are_no_space, is_decimal_number,
    separators_are_not_decimal,
};
use vstd::arithmetic::div_mod::{lemma_div_denominator, lemma_hoist_over_denominator};
use vstd::arithmetic::power::{lemma_pow_positive, pow};
use vstd::prelude::*;

verus! {

// ---------------------------------------------------------------------------
// The grammar of a progress line
// ---------------------------------------------------------------------------

/// How far a phase has come.
#[derive(Debug, Clone, Copy, PartialEq, Eq, Structural)]
pub enum Amount {
    /// A bare number of items.
    Count(u64),
    /// `cur` out of `total` items.
    Share { cur: u64, total: u64 },
}

/// What a progress line says.
#[derive(Debug, Clone, Copy, PartialEq, Eq, Structural)]
pub struct ProgressLine {
    pub phase: Phase,
    pub amount: Amount,
    /// The amount of data, in bytes, where the line gives one.
    pub bytes: Option<u64>,
}

/// The kinds of characters that come in runs.
#[derive(Clone, Copy, PartialEq, Eq, Structural)]
pub enum Kind {
    Space,
    Digit,
    DigitOrDot,
}

/// Whether `c` is of kind `k`.
pub open spec fn is_kind(c: char, k: Kind) -> bool {
    match k {
        Kind::Space => is_space(c),
        Kind::Digit => is_decimal_number(c),
        Kind::DigitOrDot => is_decimal_number(c) || c == '.',
    }
}

/// Where the run of characters of kind `k` that starts at `i` ends.
pub open spec fn run_end(s: Seq<char>, i: int, k: Kind) -> int
    decreases s.len() - i,
{
    if 0 <= i < s.len() && is_kind(s[i], k) {
        run_end(s, i + 1, k)
    } else {
        i
    }
}

/// Where a run of one or more characters of kind `k` that starts at `i` ends.
pub open spec fn run_at(s: Seq<char>, i: int, k: Kind) -> Option<int> {
    if run_end(s, i, k) > i {
        Some(run_end(s, i, k))
    } else {
        None
    }
}

/// Whether the character at `i` is `c`.
pub open spec fn char_at(s: Seq<char>, i: int, c: char) -> bool {
    0 <= i < s.len() && s[i] == c
}

/// The phase that git calls `name`.
pub open spec fn phase_named(name: Seq<char>) -> Option<Phase> {
    if name == "Enumerating"@ {
        Some(Phase::GitEnumerate)
    } else if name == "Counting"@ {
        Some(Phase::GitCount)
    } else if name == "Compressing"@ {
        Some(Phase::GitCompress)
    } else if name == "Writing"@ {
        Some(Phase::GitWrite)
    } else if name == "Receiving"@ {
        Some(Phase::GitReceive)
    } else if name == "Resolving"@ {
        Some(Phase::GitResolve)
    } else {
        None
    }
}

/// The name of a phase that stands at `i`.
pub open spec fn name_at(s: Seq<char>, i: int) -> Option<Seq<char>> {
    if occurs_at(s, "Enumerating"@, i) {
        Some("Enumerating"@)
    } else if occurs_at(s, "Counting"@, i) {
        Some("Counting"@)
    } else if occurs_at(s, "Compressing"@, i) {
        Some("Compressing"@)
    } else if occurs_at(s, "Writing"@, i) {
        Some("Writing"@)
    } else if occurs_at(s, "Receiving"@, i) {
        Some("Receiving"@)
    } else if occurs_at(s, "Resolving"@, i) {
        Some("Resolving"@)
    } else {
        None
    }
}

/// Where the name of the phase starts: behind `remote:` and white space, if that comes first.
pub open spec fn name_start(s: Seq<char>) -> Option<int> {
    if occurs_at(s, "remote:"@, 0) {
        run_at(s, "remote:"@.len() as int, Kind::Space)
    } else {
        Some(0)
    }
}

/// Where the amount starts, for a name that ends at `i`.
pub open spec fn amount_start(s: Seq<char>, i: int) -> Option<int> {
    match run_at(s, i, Kind::Space) {
        Some(j) => if occurs_at(s, "objects:"@, j) {
            run_at(s, j + "objects:"@.len(), Kind::Space)
        } else if occurs_at(s, "deltas:"@, j) {
            run_at(s, j + "deltas:"@.len(), Kind::Space)
        } else {
            None
        },
        None => None,
    }
}

/// The number that a run of digits denotes; 0 where it denotes none that fits.
pub open spec fn value(digits: Seq<char>) -> u64 {
    match number(digits) {
        Some(n) => n,
        None => 0,
    }
}

/// `%`, white space and `(cur/total)` at `i`: the two numbers, and where it ends.
pub open spec fn share_at(s: Seq<char>, i: int) -> Option<(u64, u64, int)> {
    if !char_at(s, i, '%') {
        None
    } else {
        match run_at(s, i + 1, Kind::Space) {
            None => None,
            Some(a) => if !char_at(s, a, '(') {
                None
            } else {
                match run_at(s, a + 1, Kind::Digit) {
                    None => None,
                    Some(b) => if !char_at(s, b, '/') {
                        None
                    } else {
                        match run_at(s, b + 1, Kind::Digit) {
                            None => None,
                            Some(c) => if !char_at(s, c, ')') {
                                None
                            } else {
                                Some(
                                    (
                                        value(s.subrange(a + 1, b)),
                                        value(s.subrange(b + 1, c)),
                                        c + 1,
                                    ),
                                )
                            },
                        }
                    },
                }
            },
        }
    }
}

/// The amount at `i`, and where it ends.
pub open spec fn amount_at(s: Seq<char>, i: int) -> Option<(Amount, int)> {
    match run_at(s, i, Kind::Digit) {
        None => None,
        Some(d) => match share_at(s, d) {
            Some((cur, total, e)) => Some((Amount::Share { cur, total }, e)),
            None => Some((Amount::Count(value(s.subrange(i, d))), d)),
        },
    }
}

/// How many bytes the unit at `i` stands for.
pub open spec fn unit_at(s: Seq<char>, i: int) -> Option<nat> {
    let binary = char_at(s, i + 1, 'i');
    let step: nat = if binary {
        1024
    } else {
        1000
    };
    if !char_at(s, if binary { i + 2 } else { i + 1 }, 'B') {
        None
    } else if char_at(s, i, 'K') {
        Some(step)
    } else if char_at(s, i, 'M') {
        Some(step * step)
    } else if char_at(s, i, 'G') {
        Some(step * step * step)
    } else {
        None
    }
}

/// Where the first dot of `s` stands; its length if there is none.
pub open spec fn dot(s: Seq<char>) -> int
    decreases s.len(),
{
    if s.len() == 0 || s[0] == '.' {
        0
    } else {
        1 + dot(s.drop_first())
    }
}

/// The digits before the dot.
pub open spec fn whole(s: Seq<char>) -> Seq<char> {
    s.subrange(0, dot(s))
}

/// The digits behind the dot.
pub open spec fn fraction(s: Seq<char>) -> Seq<char> {
    if dot(s) < s.len() {
        s.subrange(dot(s) + 1, s.len() as int)
    } else {
        Seq::empty()
    }
}

/// Whether `s` is a decimal number: ASCII digits with at most one dot, one digit at least.
pub open spec fn is_decimal_fraction(s: Seq<char>) -> bool {
    all_digits(whole(s)) && all_digits(fraction(s)) && whole(s).len() + fraction(s).len() > 0
}

/// `s` times `unit`, rounded down and capped at `u64::MAX`; 0 where `s` is no number.
pub open spec fn scaled(s: Seq<char>, unit: nat) -> u64 {
    let exact = digits_value(whole(s)) * unit + digits_value(fraction(s)) * unit / (pow(
        10,
        fraction(s).len(),
    ) as nat);
    if !is_decimal_fraction(s) {
        0
    } else if exact > u64::MAX {
        u64::MAX
    } else {
        exact as u64
    }
}

/// The amount of data that stands at `i` behind a comma.
pub open spec fn bytes_at(s: Seq<char>, i: int) -> Option<u64> {
    if !char_at(s, i, ',') {
        None
    } else {
        let a = run_end(s, i + 1, Kind::Space);
        match run_at(s, a, Kind::DigitOrDot) {
            None => None,
            Some(b) => match unit_at(s, run_end(s, b, Kind::Space)) {
                None => None,
                Some(unit) => Some(scaled(s.subrange(a, b), unit)),
            },
        }
    }
}

/// What the line `s` says; `None` if it is no progress line.
pub open spec fn progress_line(s: Seq<char>) -> Option<ProgressLine> {
    match name_start(s) {
        None => None,
        Some(i) => match name_at(s, i) {
            None => None,
            Some(name) => match amount_start(s, i + name.len()) {
                None => None,
                Some(k) => match amount_at(s, k) {
                    None => None,
                    Some((amount, e)) => Some(
                        ProgressLine {
                            phase: phase_named(name)->0,
                            amount,
                            bytes: bytes_at(s, e),
                        },
                    ),
                },
            },
        },
    }
}

// ---------------------------------------------------------------------------
// Reading a line
// ---------------------------------------------------------------------------

/// Whether `c` is of kind `k`.
fn of_kind(c: char, k: Kind) -> (r: bool)
    ensures
        r == is_kind(c, k),
{
    match k {
        Kind::Space => space(c),
        Kind::Digit => decimal_number(c),
        Kind::DigitOrDot => decimal_number(c) || c == '.',
    }
}

/// Where the run of characters of kind `k` that starts at `i` ends.
fn skip_run(cs: &Vec<char>, i: usize, k: Kind) -> (r: usize)
    requires
        i <= cs@.len(),
    ensures
        i <= r <= cs@.len(),
        r == run_end(cs@, i as int, k),
{
    let mut j: usize = i;
    while j < cs.len() && of_kind(cs[j], k)
        invariant
            i <= j <= cs@.len(),
            run_end(cs@, i as int, k) == run_end(cs@, j as int, k),
        ensures
            i <= j <= cs@.len(),
            run_end(cs@, i as int, k) == j,
        decreases cs@.len() - j,
    {
        j = j + 1;
    }
    j
}

/// Where a run of one or more characters of kind `k` that starts at `i` ends.
fn read_run(cs: &Vec<char>, i: usize, k: Kind) -> (r: Option<usize>)
    requires
        i <= cs@.len(),
    ensures
        r is Some == run_at(cs@, i as int, k) is Some,
        r is Some ==> i < r->0 <= cs@.len() && run_at(cs@, i as int, k) == Some(r->0 as int),
{
    let j = skip_run(cs, i, k);
    if j > i {
        Some(j)
    } else {
        None
    }
}

/// Whether the character at `i` is `c`.
fn has_char(cs: &Vec<char>, i: usize, c: char) -> (r: bool)
    ensures
        r == char_at(cs@, i as int, c),
        r ==> i < usize::MAX,
{
    i < cs.len() && cs[i] == c
}

/// The number at `from..to`; 0 where it denotes none that fits.
fn read_value(cs: &Vec<char>, from: usize, to: usize) -> (r: u64)
    requires
        from <= to <= cs@.len(),
    ensures
        r == value(cs@.subrange(from as int, to as int)),
{
    match read_number(cs, from, to) {
        Some(n) => n,
        None => 0,
    }
}

/// The phase that git calls `name`.
pub fn phase_for(name: &str) -> (r: Phase)
    requires
        phase_named(name@) is Some,
    ensures
        phase_named(name@) == Some(r),
{
    if crate::text::same_text(name, "Enumerating") {
        Phase::GitEnumerate
    } else if crate::text::same_text(name, "Counting") {
        Phase::GitCount
    } else if crate::text::same_text(name, "Compressing") {
        Phase::GitCompress
    } else if crate::text::same_text(name, "Writing") {
        Phase::GitWrite
    } else if crate::text::same_text(name, "Receiving") {
        Phase::GitReceive
    } else {
        Phase::GitResolve
    }
}

/// Each of git's names stands for one phase.
proof fn names_are_known()
    ensures
        phase_named("Enumerating"@) == Some(Phase::GitEnumerate),
        phase_named("Counting"@) == Some(Phase::GitCount),
        phase_named("Compressing"@) == Some(Phase::GitCompress),
        phase_named("Writing"@) == Some(Phase::GitWrite),
        phase_named("Receiving"@) == Some(Phase::GitReceive),
        phase_named("Resolving"@) == Some(Phase::GitResolve),
{
    reveal_strlit("Enumerating");
    reveal_strlit("Counting");
    reveal_strlit("Compressing");
    reveal_strlit("Writing");
    reveal_strlit("Receiving");
    reveal_strlit("Resolving");
    assert("Enumerating"@.len() == 11 && "Enumerating"@[0] == 'E');
    assert("Counting"@.len() == 8);
    assert("Compressing"@.len() == 11 && "Compressing"@[0] == 'C');
    assert("Writing"@.len() == 7);
    assert("Receiving"@.len() == 9 && "Receiving"@[2] == 'c');
    assert("Resolving"@.len() == 9 && "Resolving"@[2] == 's');
}

/// The name of a phase that stands at `i`.
fn read_name(cs: &Vec<char>, i: usize) -> (r: Option<&'static str>)
    requires
        i <= cs@.len(),
    ensures
        (match r {
            Some(name) => Some(name@),
            None => None,
        }) == name_at(cs@, i as int),
        r is Some ==> i + r->0@.len() <= cs@.len() && phase_named(r->0@) is Some,
{
    proof {
        names_are_known();
    }
    if matches_at(cs, "Enumerating", i) {
        Some("Enumerating")
    } else if matches_at(cs, "Counting", i) {
        Some("Counting")
    } else if matches_at(cs, "Compressing", i) {
        Some("Compressing")
    } else if matches_at(cs, "Writing", i) {
        Some("Writing")
    } else if matches_at(cs, "Receiving", i) {
        Some("Receiving")
    } else if matches_at(cs, "Resolving", i) {
        Some("Resolving")
    } else {
        None
    }
}

/// Where the text `p`, which stands at `i`, ends.
fn skip_text(cs: &Vec<char>, i: usize, p: &str) -> (r: usize)
    requires
        occurs_at(cs@, p@, i as int),
    ensures
        r == i + p@.len(),
        r <= cs@.len(),
{
    let n: usize = cs.len();
    assert(i + p@.len() <= n);
    i + p.unicode_len()
}

/// Where the name of the phase starts.
fn find_name(cs: &Vec<char>) -> (r: Option<usize>)
    ensures
        r is Some == name_start(cs@) is Some,
        r is Some ==> r->0 <= cs@.len() && name_start(cs@) == Some(r->0 as int),
{
    if matches_at(cs, "remote:", 0) {
        read_run(cs, skip_text(cs, 0, "remote:"), Kind::Space)
    } else {
        Some(0)
    }
}

/// Where the amount starts, for a name that ends at `i`.
fn find_amount(cs: &Vec<char>, i: usize) -> (r: Option<usize>)
    requires
        i <= cs@.len(),
    ensures
        r is Some == amount_start(cs@, i as int) is Some,
        r is Some ==> r->0 <= cs@.len() && amount_start(cs@, i as int) == Some(r->0 as int),
{
    match read_run(cs, i, Kind::Space) {
        Some(j) => {
            if matches_at(cs, "objects:", j) {
                read_run(cs, skip_text(cs, j, "objects:"), Kind::Space)
            } else if matches_at(cs, "deltas:", j) {
                read_run(cs, skip_text(cs, j, "deltas:"), Kind::Space)
            } else {
                None
            }
        },
        None => None,
    }
}

/// Reads `%`, white space and `(cur/total)` at `i`.
fn read_share(cs: &Vec<char>, i: usize) -> (r: Option<(u64, u64, usize)>)
    requires
        i <= cs@.len(),
    ensures
        r is Some == share_at(cs@, i as int) is Some,
        r is Some ==> (r->0).2 <= cs@.len() && share_at(cs@, i as int) == Some(
            ((r->0).0, (r->0).1, (r->0).2 as int),
        ),
{
    if !has_char(cs, i, '%') {
        return None;
    }
    let a: usize = match read_run(cs, i + 1, Kind::Space) {
        Some(a) => a,
        None => {
            return None;
        },
    };
    if !has_char(cs, a, '(') {
        return None;
    }
    let b: usize = match read_run(cs, a + 1, Kind::Digit) {
        Some(b) => b,
        None => {
            return None;
        },
    };
    if !has_char(cs, b, '/') {
        return None;
    }
    let c: usize = match read_run(cs, b + 1, Kind::Digit) {
        Some(c) => c,
        None => {
            return None;
        },
    };
    if !has_char(cs, c, ')') {
        return None;
    }
    Some((read_value(cs, a + 1, b), read_value(cs, b + 1, c), c + 1))
}

/// Reads the amount at `i`.
fn read_amount(cs: &Vec<char>, i: usize) -> (r: Option<(Amount, usize)>)
    requires
        i <= cs@.len(),
    ensures
        r is Some == amount_at(cs@, i as int) is Some,
        r is Some ==> (r->0).1 <= cs@.len() && amount_at(cs@, i as int) == Some(
            ((r->0).0, (r->0).1 as int),
        ),
{
    match read_run(cs, i, Kind::Digit) {
        None => None,
        Some(d) => match read_share(cs, d) {
            Some((cur, total, e)) => Some((Amount::Share { cur, total }, e)),
            None => Some((Amount::Count(read_value(cs, i, d)), d)),
        },
    }
}

/// How many bytes the unit at `i` stands for.
fn read_unit(cs: &Vec<char>, i: usize) -> (r: Option<u64>)
    requires
        i <= cs@.len(),
    ensures
        r is Some == unit_at(cs@, i as int) is Some,
        r is Some ==> unit_at(cs@, i as int) == Some(r->0 as nat) && 0 < r->0 <= 1073741824,
{
    if i >= cs.len() {
        return None;
    }
    let binary = has_char(cs, i + 1, 'i');
    if binary && i + 1 >= cs.len() {
        return None;
    }
    let last: usize = if binary {
        i + 2
    } else {
        i + 1
    };
    if !has_char(cs, last, 'B') {
        return None;
    }
    match cs[i] {
        'K' => Some(if binary { 1024 } else { 1000 }),
        'M' => Some(if binary { 1048576 } else { 1000000 }),
        'G' => Some(if binary { 1073741824 } else { 1000000000 }),
        _ => None,
    }
}

/// The leading digit of a run counts for a power of ten.
proof fn leading_digit(f: Seq<char>)
    requires
        f.len() > 0,
    ensures
        digits_value(f) == digit_value(f[0]) * pow(10, (f.len() - 1) as nat) + digits_value(
            f.drop_first(),
        ),
    decreases f.len(),
{
    reveal(pow);
    if f.len() == 1 {
        assert(f.drop_last() =~= Seq::<char>::empty());
        assert(f.drop_first() =~= Seq::<char>::empty());
        assert(digits_value(Seq::<char>::empty()) == 0);
    } else {
        let g = f.drop_last();
        leading_digit(g);
        assert(g[0] == f[0]);
        assert(g.drop_first() =~= f.drop_first().drop_last());
        assert(f.drop_first().last() == f.last());
        let d = digit_value(f[0]) as int;
        let p = pow(10, (g.len() - 1) as nat);
        assert(pow(10, (f.len() - 1) as nat) == 10 * p);
        assert(10 * (d * p) == d * (10 * p)) by (nonlinear_arith);
    }
}

/// The fraction `f` of `m`, digit by digit: every step rounds down.
pub open spec fn part_of(f: Seq<char>, m: nat) -> nat
    decreases f.len(),
{
    if f.len() == 0 {
        0
    } else {
        (digit_value(f[0]) * m + part_of(f.drop_first(), m)) / 10
    }
}

/// Rounding down at every digit is rounding down once.
proof fn part_of_is_exact(f: Seq<char>, m: nat)
    ensures
        part_of(f, m) == digits_value(f) * m / (pow(10, f.len()) as nat),
        pow(10, f.len()) > 0,
    decreases f.len(),
{
    lemma_pow_positive(10, f.len());
    if f.len() == 0 {
        reveal(pow);
        assert(digits_value(f) == 0);
        assert(0 * m == 0) by (nonlinear_arith);
    } else {
        let g = f.drop_first();
        part_of_is_exact(g, m);
        leading_digit(f);
        let d = digit_value(f[0]) as int;
        let r = digits_value(g) as int;
        let b = pow(10, g.len());
        let k = m as int;
        assert(pow(10, f.len()) == 10 * b) by {
            reveal(pow);
        }
        assert((d * b + r) * k == (d * k) * b + r * k) by (nonlinear_arith);
        lemma_hoist_over_denominator(r * k, d * k, b as nat);
        lemma_div_denominator((d * b + r) * k, b, 10);
        assert(b * 10 == 10 * b);
    }
}

/// A proper fraction of `m` is less than `m`.
proof fn part_is_less(f: Seq<char>, m: nat)
    requires
        m > 0,
    ensures
        part_of(f, m) < m,
    decreases f.len(),
{
    if f.len() > 0 {
        part_is_less(f.drop_first(), m);
        let d = digit_value(f[0]);
        assert(d * m <= 9 * m) by (nonlinear_arith)
            requires
                d <= 9,
        ;
    }
}

/// Whether the characters at `from..to` are ASCII digits.
fn are_digits(cs: &Vec<char>, from: usize, to: usize) -> (r: bool)
    requires
        from <= to <= cs@.len(),
    ensures
        r == all_digits(cs@.subrange(from as int, to as int)),
{
    let ghost s = cs@.subrange(from as int, to as int);
    let mut i: usize = from;
    while i < to
        invariant
            from <= i <= to <= cs@.len(),
            s == cs@.subrange(from as int, to as int),
            forall|j: int| 0 <= j < i - from ==> is_digit(#[trigger] s[j]),
        decreases to - i,
    {
        let c = cs[i];
        assert(s[i - from] == c);
        if !('0' <= c && c <= '9') {
            return false;
        }
        i = i + 1;
    }
    true
}

/// The value of the digits at `from..to`, capped at `u64::MAX`.
fn capped_value(cs: &Vec<char>, from: usize, to: usize) -> (r: u64)
    requires
        from <= to <= cs@.len(),
        all_digits(cs@.subrange(from as int, to as int)),
    ensures
        ({
            let v = digits_value(cs@.subrange(from as int, to as int));
            r == if v > u64::MAX {
                u64::MAX as int
            } else {
                v as int
            }
        }),
{
    let ghost s = cs@.subrange(from as int, to as int);
    let mut n: u64 = 0;
    let mut i: usize = from;
    while i < to
        invariant
            from <= i <= to <= cs@.len(),
            s == cs@.subrange(from as int, to as int),
            all_digits(s),
            ({
                let v = digits_value(s.subrange(0, i - from));
                n == if v > u64::MAX {
                    u64::MAX as int
                } else {
                    v as int
                }
            }),
        decreases to - i,
    {
        assert(s[i - from] == cs@[i as int]);
        let d = value_of_digit(cs[i]);
        assert(s.subrange(0, i + 1 - from).drop_last() =~= s.subrange(0, i - from));
        let wide: u128 = (n as u128) * 10 + (d as u128);
        n = if wide > u64::MAX as u128 {
            u64::MAX
        } else {
            wide as u64
        };
        i = i + 1;
    }
    assert(s.subrange(0, to - from) =~= s);
    n
}

/// The part of `m` that the digits at `from..to` behind a dot denote.
fn part(cs: &Vec<char>, from: usize, to: usize, m: u64) -> (r: u64)
    requires
        from <= to <= cs@.len(),
        all_digits(cs@.subrange(from as int, to as int)),
        0 < m <= 1073741824,
    ensures
        r == part_of(cs@.subrange(from as int, to as int), m as nat),
        r < m,
{
    let ghost s = cs@.subrange(from as int, to as int);
    let mut c: u64 = 0;
    let mut i: usize = to;
    assert(s.skip(to - from) =~= Seq::<char>::empty());
    while i > from
        invariant
            from <= i <= to <= cs@.len(),
            s == cs@.subrange(from as int, to as int),
            all_digits(s),
            0 < m <= 1073741824,
            c == part_of(s.skip(i - from), m as nat),
            c < m,
        decreases i,
    {
        i = i - 1;
        assert(s[i - from] == cs@[i as int]);
        let d = value_of_digit(cs[i]);
        proof {
            let f = s.skip(i - from);
            assert(f.drop_first() =~= s.skip(i + 1 - from));
            assert(f[0] == cs@[i as int]);
            part_is_less(f, m as nat);
            assert(d * m <= 9 * 1073741824) by (nonlinear_arith)
                requires
                    d < 10,
                    m <= 1073741824,
            ;
        }
        c = (d * m + c) / 10;
    }
    assert(s.skip(0) =~= s);
    c
}

/// Where the first dot at `from..to` stands; `to` if there is none.
fn find_dot(cs: &Vec<char>, from: usize, to: usize) -> (r: usize)
    requires
        from <= to <= cs@.len(),
    ensures
        from <= r <= to,
        r - from == dot(cs@.subrange(from as int, to as int)),
        r < to ==> cs@[r as int] == '.',
{
    let ghost s = cs@.subrange(from as int, to as int);
    let mut i: usize = from;
    assert(s.skip(0) =~= s);
    while i < to && cs[i] != '.'
        invariant
            from <= i <= to <= cs@.len(),
            s == cs@.subrange(from as int, to as int),
            dot(s) == (i - from) + dot(s.skip(i - from)),
        ensures
            from <= i <= to <= cs@.len(),
            i < to ==> cs@[i as int] == '.',
            dot(s) == i - from,
        decreases to - i,
    {
        assert(s.skip(i - from)[0] == cs@[i as int]);
        assert(s.skip(i - from).drop_first() =~= s.skip(i + 1 - from));
        i = i + 1;
    }
    i
}

/// The number at `from..to` times `unit`, rounded down.
fn read_scaled(cs: &Vec<char>, from: usize, to: usize, unit: u64) -> (r: u64)
    requires
        from <= to <= cs@.len(),
        0 < unit <= 1073741824,
    ensures
        r == scaled(cs@.subrange(from as int, to as int), unit as nat),
{
    let ghost s = cs@.subrange(from as int, to as int);
    let d = find_dot(cs, from, to);
    let back: usize = if d < to {
        d + 1
    } else {
        to
    };
    assert(whole(s) =~= cs@.subrange(from as int, d as int));
    assert(fraction(s) =~= cs@.subrange(back as int, to as int));
    if !are_digits(cs, from, d) || !are_digits(cs, back, to) || (d - from) + (to - back) == 0 {
        return 0;
    }
    let w = capped_value(cs, from, d);
    let f = part(cs, back, to, unit);
    proof {
        part_of_is_exact(fraction(s), unit as nat);
        let v = digits_value(whole(s));
        assert(v > u64::MAX ==> v * unit > u64::MAX) by (nonlinear_arith)
            requires
                unit > 0,
        ;
        assert(u64::MAX * unit >= u64::MAX) by (nonlinear_arith)
            requires
                unit > 0,
        ;
        assert(w * unit <= u64::MAX * 1073741824) by (nonlinear_arith)
            requires
                w <= u64::MAX,
                unit <= 1073741824,
        ;
    }
    let exact: u128 = (w as u128) * (unit as u128) + (f as u128);
    if exact > u64::MAX as u128 {
        u64::MAX
    } else {
        exact as u64
    }
}

/// The amount of data that stands at `i` behind a comma.
fn read_bytes(cs: &Vec<char>, i: usize) -> (r: Option<u64>)
    requires
        i <= cs@.len(),
    ensures
        r == bytes_at(cs@, i as int),
{
    if !has_char(cs, i, ',') {
        return None;
    }
    let a = skip_run(cs, i + 1, Kind::Space);
    match read_run(cs, a, Kind::DigitOrDot) {
        None => None,
        Some(b) => match read_unit(cs, skip_run(cs, b, Kind::Space)) {
            None => None,
            Some(unit) => Some(read_scaled(cs, a, b, unit)),
        },
    }
}

/// Reads a line of git's output; `None` if it is no progress line.
pub fn read_line(line: &str) -> (r: Option<ProgressLine>)
    ensures
        r == progress_line(line@),
{
    let cs = chars_of(line);
    let i: usize = match find_name(&cs) {
        Some(i) => i,
        None => {
            return None;
        },
    };
    let name = match read_name(&cs, i) {
        Some(name) => name,
        None => {
            return None;
        },
    };
    let n: usize = cs.len();
    assert(i + name@.len() <= n);
    let k: usize = match find_amount(&cs, i + name.unicode_len()) {
        Some(k) => k,
        None => {
            return None;
        },
    };
    match read_amount(&cs, k) {
        Some((amount, e)) => Some(
            ProgressLine { phase: phase_for(name), amount, bytes: read_bytes(&cs, e) },
        ),
        None => None,
    }
}

// ---------------------------------------------------------------------------
// From lines to events
// ---------------------------------------------------------------------------

/// Where the parser stands between two lines.
#[derive(Debug, Clone, Copy, PartialEq, Eq, Structural)]
pub enum State {
    Idle,
    Active { phase: Phase, last_cur: u64, last_bytes: u64 },
}

/// One call on the reporter.
#[derive(Debug)]
pub enum ProgressEvent {
    Start { phase: Phase, total: ItemTotal },
    Tick { items: u64, bytes: u64 },
    End { phase: Phase },
    Log { text: String },
}

/// What an event says, over mathematical values.
pub ghost enum Event {
    Start { phase: Phase, total: ItemTotal },
    Tick { items: u64, bytes: u64 },
    End { phase: Phase },
    Log { text: Seq<char> },
}

impl View for ProgressEvent {
    type V = Event;

    open spec fn view(&self) -> Event {
        match *self {
            ProgressEvent::Start { phase, total } => Event::Start { phase, total },
            ProgressEvent::Tick { items, bytes } => Event::Tick { items, bytes },
            ProgressEvent::End { phase } => Event::End { phase },
            ProgressEvent::Log { text } => Event::Log { text: text@ },
        }
    }
}

/// What the events say.
pub open spec fn events_view(events: Seq<ProgressEvent>) -> Seq<Event> {
    events.map_values(|e: ProgressEvent| e@)
}

/// `a - b`, or 0 where `b` is the larger.
pub open spec fn advance(a: u64, b: u64) -> u64 {
    if a > b {
        (a - b) as u64
    } else {
        0
    }
}

/// A tick, where there is something to tick.
pub open spec fn tick(items: u64, bytes: u64) -> Seq<Event> {
    if items > 0 || bytes > 0 {
        seq![Event::Tick { items, bytes }]
    } else {
        Seq::empty()
    }
}

/// The end of the phase that is active, if one is.
pub open spec fn closing(st: State) -> Seq<Event> {
    match st {
        State::Idle => Seq::empty(),
        State::Active { phase, .. } => seq![Event::End { phase }],
    }
}

/// Whether `phase` is active.
pub open spec fn is_active(st: State, phase: Phase) -> bool {
    st matches State::Active { phase: p, .. } && p == phase
}

/// The state once `phase` is active.
pub open spec fn switched(st: State, phase: Phase) -> State {
    if is_active(st, phase) {
        st
    } else {
        State::Active { phase, last_cur: 0, last_bytes: 0 }
    }
}

/// What making `phase` active reports.
pub open spec fn switching(st: State, phase: Phase, total: u64) -> Seq<Event> {
    if is_active(st, phase) {
        Seq::empty()
    } else {
        closing(st).push(Event::Start { phase, total: ItemTotal::Count(total) })
    }
}

/// The state after a progress line.
pub open spec fn state_after(st: State, l: ProgressLine) -> State {
    let last_bytes = switched(st, l.phase)->last_bytes;
    match l.amount {
        Amount::Count(n) => State::Active { phase: l.phase, last_cur: n, last_bytes },
        Amount::Share { cur, .. } => State::Active {
            phase: l.phase,
            last_cur: cur,
            last_bytes: match l.bytes {
                Some(b) => b,
                None => last_bytes,
            },
        },
    }
}

/// What a progress line reports. A bare count is a snapshot of the phase: it ticks items only.
/// A share ticks what was added since the last line, items and bytes.
pub open spec fn events_of(st: State, l: ProgressLine) -> Seq<Event> {
    let active = switched(st, l.phase);
    match l.amount {
        Amount::Count(n) => switching(st, l.phase, n) + tick(advance(n, active->last_cur), 0),
        Amount::Share { cur, total } => switching(st, l.phase, total) + tick(
            advance(cur, active->last_cur),
            match l.bytes {
                Some(b) => advance(b, active->last_bytes),
                None => 0,
            },
        ),
    }
}

/// The state after any line.
pub open spec fn next_state(st: State, line: Seq<char>) -> State {
    match progress_line(line) {
        Some(l) => state_after(st, l),
        None => st,
    }
}

/// What any line reports.
pub open spec fn next_events(st: State, line: Seq<char>) -> Seq<Event> {
    match progress_line(line) {
        Some(l) => events_of(st, l),
        None => seq![Event::Log { text: line }],
    }
}

/// `a - b`, or 0 where `b` is the larger.
fn ahead(a: u64, b: u64) -> (r: u64)
    ensures
        r == advance(a, b),
{
    if a > b {
        a - b
    } else {
        0
    }
}

/// Adds an event at the end.
fn add_event(events: &mut Vec<ProgressEvent>, e: ProgressEvent)
    ensures
        events_view(final(events)@) == events_view(old(events)@).push(e@),
{
    events.push(e);
    assert(events_view(events@) =~= events_view(old(events)@).push(e@));
}

/// Adds a tick, where there is something to tick.
fn add_tick(events: &mut Vec<ProgressEvent>, items: u64, bytes: u64)
    ensures
        events_view(final(events)@) == events_view(old(events)@) + tick(items, bytes),
{
    if items > 0 || bytes > 0 {
        add_event(events, ProgressEvent::Tick { items, bytes });
    }
    assert(events_view(events@) =~= events_view(old(events)@) + tick(items, bytes));
}

impl State {
    /// What the end of the stream reports.
    pub fn close(self) -> (r: Vec<ProgressEvent>)
        ensures
            events_view(r@) == closing(self),
    {
        let mut events: Vec<ProgressEvent> = Vec::new();
        if let State::Active { phase, .. } = self {
            add_event(&mut events, ProgressEvent::End { phase });
        }
        assert(events_view(events@) =~= closing(self));
        events
    }

    /// Makes `new_phase` active, ending another phase that is.
    pub fn switch_to(self, new_phase: Phase, total: u64) -> (r: (Self, Vec<ProgressEvent>))
        ensures
            r.0 == switched(self, new_phase),
            events_view(r.1@) == switching(self, new_phase, total),
    {
        let need_start = match self {
            State::Idle => true,
            State::Active { phase, .. } => phase != new_phase,
        };
        if !need_start {
            let events: Vec<ProgressEvent> = Vec::new();
            assert(events_view(events@) =~= Seq::<Event>::empty());
            return (self, events);
        }
        let mut events = self.close();
        add_event(
            &mut events,
            ProgressEvent::Start { phase: new_phase, total: ItemTotal::Count(total) },
        );
        (State::Active { phase: new_phase, last_cur: 0, last_bytes: 0 }, events)
    }

    /// What a line, without its terminator, reports, and where the parser stands then.
    pub fn step(self, line: &str) -> (r: (Self, Vec<ProgressEvent>))
        ensures
            r.0 == next_state(self, line@),
            events_view(r.1@) == next_events(self, line@),
    {
        let l = match read_line(line) {
            Some(l) => l,
            None => {
                let mut events: Vec<ProgressEvent> = Vec::new();
                add_event(&mut events, ProgressEvent::Log { text: line.to_owned() });
                assert(events_view(events@) =~= next_events(self, line@));
                return (self, events);
            },
        };
        let total: u64 = match l.amount {
            Amount::Count(n) => n,
            Amount::Share { total, .. } => total,
        };
        let (active, mut events) = self.switch_to(l.phase, total);
        let (last_cur, last_bytes) = match active {
            State::Active { last_cur, last_bytes, .. } => (last_cur, last_bytes),
            State::Idle => (0, 0),
        };
        match l.amount {
            Amount::Count(n) => {
                add_tick(&mut events, ahead(n, last_cur), 0);
                (State::Active { phase: l.phase, last_cur: n, last_bytes }, events)
            },
            Amount::Share { cur, .. } => {
                let now: u64 = match l.bytes {
                    Some(b) => b,
                    None => last_bytes,
                };
                add_tick(&mut events, ahead(cur, last_cur), ahead(now, last_bytes));
                (State::Active { phase: l.phase, last_cur: cur, last_bytes: now }, events)
            },
        }
    }
}

/// Turns lines of git's output into calls on a reporter.
pub struct GitProgressParser<'a> {
    reporter: &'a dyn ProgressReporter,
    state: State,
    sent: Ghost<Seq<Event>>,
}

impl<'a> GitProgressParser<'a> {
    /// Where the parser stands.
    pub closed spec fn state(&self) -> State {
        self.state
    }

    /// The calls made on the reporter so far, in order.
    pub closed spec fn sent(&self) -> Seq<Event> {
        self.sent@
    }

    /// A parser that has seen nothing.
    pub fn new(reporter: &'a dyn ProgressReporter) -> (r: Self)
        ensures
            r.state() == State::Idle,
            r.sent() == Seq::<Event>::empty(),
    {
        GitProgressParser { reporter, state: State::Idle, sent: Ghost(Seq::empty()) }
    }

    /// Makes the calls on the reporter, in order.
    fn report(&mut self, events: Vec<ProgressEvent>)
        ensures
            final(self).state == old(self).state,
            final(self).sent@ == old(self).sent@ + events_view(events@),
    {
        let mut i: usize = 0;
        assert(old(self).sent@ + events_view(events@.subrange(0, 0)) =~= old(self).sent@);
        while i < events.len()
            invariant
                i <= events@.len(),
                self.state == old(self).state,
                self.sent@ == old(self).sent@ + events_view(events@.subrange(0, i as int)),
            decreases events@.len() - i,
        {
            let e = &events[i];
            match e {
                ProgressEvent::Start { phase, total } => self.reporter.phase_start(*phase, *total),
                ProgressEvent::Tick { items, bytes } => self.reporter.phase_tick(*items, *bytes),
                ProgressEvent::End { phase } => self.reporter.phase_end(*phase),
                ProgressEvent::Log { text } => self.reporter.log(text.as_str()),
            }
            proof {
                self.sent@ = self.sent@.push(e@);
                assert(events_view(events@.subrange(0, i + 1)) =~= events_view(
                    events@.subrange(0, i as int),
                ).push(e@));
                assert(self.sent@ =~= old(self).sent@ + events_view(events@.subrange(0, i + 1)));
            }
            i = i + 1;
        }
        assert(events@.subrange(0, i as int) =~= events@);
    }

    /// Takes in one line, without its terminator.
    pub fn feed_line(&mut self, line: &str)
        ensures
            final(self).state() == next_state(old(self).state(), line@),
            final(self).sent() == old(self).sent() + next_events(old(self).state(), line@),
    {
        let (state, events) = self.state.step(line);
        self.state = state;
        self.report(events);
    }

    /// Called when the stream reaches its end.
    pub fn finish(&mut self)
        ensures
            final(self).state() == State::Idle,
            final(self).sent() == old(self).sent() + closing(old(self).state()),
    {
        let events = self.state.close();
        self.state = State::Idle;
        self.report(events);
    }
}

// ---------------------------------------------------------------------------
// Laws
// ---------------------------------------------------------------------------

/// What a parser is given: a line, or the end of a stream.
#[allow(inconsistent_fields)]
pub ghost enum Input {
    Line(Seq<char>),
    Finish,
}

/// What is seen of a parser from the outside: a call on its reporter, or that it was told of the
/// end of a stream.
#[allow(inconsistent_fields)]
pub ghost enum Seen {
    Call(Event),
    Finished,
}

/// The state after an input.
pub open spec fn state_on(st: State, input: Input) -> State {
    match input {
        Input::Line(line) => next_state(st, line),
        Input::Finish => State::Idle,
    }
}

/// The calls on the reporter that an input makes.
pub open spec fn events_on(st: State, input: Input) -> Seq<Event> {
    match input {
        Input::Line(line) => next_events(st, line),
        Input::Finish => closing(st),
    }
}

/// What is seen of an input.
pub open spec fn seen_on(st: State, input: Input) -> Seq<Seen> {
    let calls = events_on(st, input).map_values(|e: Event| Seen::Call(e));
    if input is Finish {
        calls.push(Seen::Finished)
    } else {
        calls
    }
}

/// The state after some inputs.
pub open spec fn state_after_all(st: State, inputs: Seq<Input>) -> State
    decreases inputs.len(),
{
    if inputs.len() == 0 {
        st
    } else {
        state_on(state_after_all(st, inputs.drop_last()), inputs.last())
    }
}

/// What is seen of some inputs.
pub open spec fn seen_of_all(st: State, inputs: Seq<Input>) -> Seq<Seen>
    decreases inputs.len(),
{
    if inputs.len() == 0 {
        Seq::empty()
    } else {
        seen_of_all(st, inputs.drop_last()) + seen_on(
            state_after_all(st, inputs.drop_last()),
            inputs.last(),
        )
    }
}

/// How far what is seen makes blocks: the phase of the block that is open, and the phase of the
/// one that was closed right before, unless a stream ended since.
pub ghost struct Blocks {
    pub open: Option<Phase>,
    pub closed: Option<Phase>,
}

/// How one more thing seen goes on; `None` if it breaks the blocks. A block is the start of a
/// phase, ticks that tick something, and the end of that phase; messages may come anywhere. The
/// blocks of one stream that follow each other are of different phases.
pub open spec fn block_step(b: Blocks, s: Seen) -> Option<Blocks> {
    match s {
        Seen::Call(Event::Start { phase, .. }) => if b.open is None && b.closed != Some(phase) {
            Some(Blocks { open: Some(phase), closed: None })
        } else {
            None
        },
        Seen::Call(Event::Tick { items, bytes }) => if b.open is Some && (items > 0 || bytes > 0) {
            Some(b)
        } else {
            None
        },
        Seen::Call(Event::End { phase }) => if b.open == Some(phase) {
            Some(Blocks { open: None, closed: Some(phase) })
        } else {
            None
        },
        Seen::Call(Event::Log { .. }) => Some(b),
        Seen::Finished => if b.open is None {
            Some(Blocks { open: None, closed: None })
        } else {
            None
        },
    }
}

/// The blocks that what is seen makes; `None` if it makes none.
pub open spec fn blocks_of(seen: Seq<Seen>) -> Option<Blocks>
    decreases seen.len(),
{
    if seen.len() == 0 {
        Some(Blocks { open: None, closed: None })
    } else {
        match blocks_of(seen.drop_last()) {
            Some(b) => block_step(b, seen.last()),
            None => None,
        }
    }
}

/// The phase that a state has open.
pub open spec fn phase_of(st: State) -> Option<Phase> {
    match st {
        State::Idle => None,
        State::Active { phase, .. } => Some(phase),
    }
}

/// One more thing seen.
proof fn blocks_of_push(seen: Seq<Seen>, s: Seen)
    requires
        blocks_of(seen) is Some,
    ensures
        blocks_of(seen.push(s)) == block_step(blocks_of(seen)->0, s),
{
    assert(seen.push(s).drop_last() =~= seen);
}

/// A tick adds to the block that is open.
proof fn blocks_of_tick(seen: Seq<Seen>, items: u64, bytes: u64)
    requires
        blocks_of(seen) matches Some(b) && b.open is Some,
    ensures
        blocks_of(seen + tick(items, bytes).map_values(|e: Event| Seen::Call(e))) == blocks_of(seen),
{
    let calls = tick(items, bytes).map_values(|e: Event| Seen::Call(e));
    if items > 0 || bytes > 0 {
        let s = Seen::Call(Event::Tick { items, bytes });
        assert(seen + calls =~= seen.push(s));
        blocks_of_push(seen, s);
    } else {
        assert(seen + calls =~= seen);
    }
}

/// The end of the phase that is active closes its block.
proof fn blocks_of_closing(seen: Seq<Seen>, st: State)
    requires
        blocks_of(seen) == Some(Blocks { open: phase_of(st), closed: None }),
    ensures
        blocks_of(seen + closing(st).map_values(|e: Event| Seen::Call(e))) == Some(
            Blocks { open: None, closed: phase_of(st) },
        ),
{
    let calls = closing(st).map_values(|e: Event| Seen::Call(e));
    match st {
        State::Idle => {
            assert(seen + calls =~= seen);
        },
        State::Active { phase, .. } => {
            let s = Seen::Call(Event::End { phase });
            assert(seen + calls =~= seen.push(s));
            blocks_of_push(seen, s);
        },
    }
}

/// An input keeps the blocks, and the parser's state says which one is open.
proof fn input_keeps_blocks(seen: Seq<Seen>, st: State, input: Input)
    requires
        blocks_of(seen) == Some(Blocks { open: phase_of(st), closed: None }),
    ensures
        blocks_of(seen + seen_on(st, input)) == Some(
            Blocks { open: phase_of(state_on(st, input)), closed: None },
        ),
{
    let f = |e: Event| Seen::Call(e);
    let now = seen + seen_on(st, input);
    match input {
        Input::Finish => {
            let ended = seen + closing(st).map_values(f);
            blocks_of_closing(seen, st);
            assert(now =~= ended.push(Seen::Finished));
            blocks_of_push(ended, Seen::Finished);
        },
        Input::Line(line) => match progress_line(line) {
            None => {
                let s = Seen::Call(Event::Log { text: line });
                assert(now =~= seen.push(s));
                blocks_of_push(seen, s);
            },
            Some(l) => {
                let total = total_of(l);
                let opened = seen + switching(st, l.phase, total).map_values(f);
                let start = Event::Start { phase: l.phase, total: ItemTotal::Count(total) };
                if is_active(st, l.phase) {
                    assert(opened =~= seen);
                } else {
                    let ended = seen + closing(st).map_values(f);
                    blocks_of_closing(seen, st);
                    assert(opened =~= ended.push(Seen::Call(start)));
                    blocks_of_push(ended, Seen::Call(start));
                }
                let active = switched(st, l.phase);
                let (items, bytes) = match l.amount {
                    Amount::Count(n) => (advance(n, active->last_cur), 0u64),
                    Amount::Share { cur, .. } => (
                        advance(cur, active->last_cur),
                        match l.bytes {
                            Some(b) => advance(b, active->last_bytes),
                            None => 0,
                        },
                    ),
                };
                assert(now =~= opened + tick(items, bytes).map_values(f));
                blocks_of_tick(opened, items, bytes);
            },
        },
    }
}

/// Whatever git prints, and however often its streams end, the reporter sees blocks: the start of
/// a phase, ticks that tick something, and the end of that phase, where only the last block may
/// lack its end. Blocks that follow each other in one stream are of different phases. At the end
/// of a stream none is left open.
pub proof fn every_stream_makes_blocks(inputs: Seq<Input>)
    ensures
        blocks_of(seen_of_all(State::Idle, inputs)) == Some(
            Blocks { open: phase_of(state_after_all(State::Idle, inputs)), closed: None },
        ),
        inputs.len() > 0 && inputs.last() is Finish ==> phase_of(
            state_after_all(State::Idle, inputs),
        ) is None,
    decreases inputs.len(),
{
    if inputs.len() > 0 {
        every_stream_makes_blocks(inputs.drop_last());
        input_keeps_blocks(
            seen_of_all(State::Idle, inputs.drop_last()),
            state_after_all(State::Idle, inputs.drop_last()),
            inputs.last(),
        );
    }
}

// --- counts -----------------------------------------------------------------

/// How many items a line says are done.
pub open spec fn count_of(l: ProgressLine) -> u64 {
    match l.amount {
        Amount::Count(n) => n,
        Amount::Share { cur, .. } => cur,
    }
}

/// How many items a line says there are; a bare count is all there is.
pub open spec fn total_of(l: ProgressLine) -> u64 {
    match l.amount {
        Amount::Count(n) => n,
        Amount::Share { total, .. } => total,
    }
}

/// The state after a stretch of lines.
pub open spec fn state_over(st: State, lines: Seq<Seq<char>>) -> State
    decreases lines.len(),
{
    if lines.len() == 0 {
        st
    } else {
        next_state(state_over(st, lines.drop_last()), lines.last())
    }
}

/// What a stretch of lines reports.
pub open spec fn events_over(st: State, lines: Seq<Seq<char>>) -> Seq<Event>
    decreases lines.len(),
{
    if lines.len() == 0 {
        Seq::empty()
    } else {
        events_over(st, lines.drop_last()) + next_events(
            state_over(st, lines.drop_last()),
            lines.last(),
        )
    }
}

/// The items that the ticks among the events add up to.
pub open spec fn items_ticked(events: Seq<Event>) -> nat
    decreases events.len(),
{
    if events.len() == 0 {
        0
    } else {
        items_ticked(events.drop_last()) + match events.last() {
            Event::Tick { items, .. } => items as nat,
            _ => 0,
        }
    }
}

/// The messages among the events, in order.
pub open spec fn messages(events: Seq<Event>) -> Seq<Seq<char>>
    decreases events.len(),
{
    if events.len() == 0 {
        Seq::empty()
    } else {
        match events.last() {
            Event::Log { text } => messages(events.drop_last()).push(text),
            _ => messages(events.drop_last()),
        }
    }
}

/// The lines that are no progress lines, in order.
pub open spec fn other_lines(lines: Seq<Seq<char>>) -> Seq<Seq<char>>
    decreases lines.len(),
{
    if lines.len() == 0 {
        Seq::empty()
    } else if progress_line(lines.last()) is None {
        other_lines(lines.drop_last()).push(lines.last())
    } else {
        other_lines(lines.drop_last())
    }
}

/// What the lines say, one by one.
pub open spec fn readings(lines: Seq<Seq<char>>) -> Seq<Option<ProgressLine>> {
    lines.map_values(|line: Seq<char>| progress_line(line))
}

/// The count of the last progress line; 0 if there is none.
pub open spec fn last_count(reads: Seq<Option<ProgressLine>>) -> u64
    decreases reads.len(),
{
    if reads.len() == 0 {
        0
    } else {
        match reads.last() {
            Some(l) => count_of(l),
            None => last_count(reads.drop_last()),
        }
    }
}

/// Whether lines are a run of one phase, by what they say: a progress line of the phase comes
/// first, all progress lines are of that phase and name no amount of data, and their counts do not
/// fall. Other lines may come in between.
pub open spec fn is_run(reads: Seq<Option<ProgressLine>>, phase: Phase) -> bool {
    &&& reads.len() > 0
    &&& reads[0] is Some
    &&& forall|i: int|
        0 <= i < reads.len() ==> (#[trigger] reads[i] matches Some(l) ==> l.phase == phase
            && l.bytes is None)
    &&& forall|i: int, j: int|
        0 <= i < j < reads.len() ==> (#[trigger] reads[i] matches Some(a) ==> (
        #[trigger] reads[j] matches Some(b) ==> count_of(a) <= count_of(b)))
}

/// Sums and messages of two stretches of events.
proof fn ticked_and_said(a: Seq<Event>, b: Seq<Event>)
    ensures
        items_ticked(a + b) == items_ticked(a) + items_ticked(b),
        messages(a + b) == messages(a) + messages(b),
    decreases b.len(),
{
    if b.len() == 0 {
        assert(a + b =~= a);
        assert(messages(a) + messages(b) =~= messages(a));
    } else {
        ticked_and_said(a, b.drop_last());
        assert((a + b).drop_last() =~= a + b.drop_last());
        assert(messages(a + b) =~= messages(a) + messages(b));
    }
}

/// A single event.
proof fn one_event(e: Event)
    ensures
        items_ticked(seq![e]) == (match e {
            Event::Tick { items, .. } => items as nat,
            _ => 0,
        }),
        messages(seq![e]) == (match e {
            Event::Log { text } => seq![text],
            _ => Seq::empty(),
        }),
{
    assert(seq![e].drop_last() =~= Seq::<Event>::empty());
    assert(items_ticked(Seq::<Event>::empty()) == 0);
    assert(messages(Seq::<Event>::empty()) =~= Seq::<Seq<char>>::empty());
    match e {
        Event::Log { text } => {
            assert(messages(seq![e]) =~= seq![text]);
        },
        _ => {},
    }
}

/// What a tick ticks and says.
proof fn tick_alone(items: u64, bytes: u64)
    ensures
        items_ticked(tick(items, bytes)) == items,
        messages(tick(items, bytes)) == Seq::<Seq<char>>::empty(),
{
    if items > 0 || bytes > 0 {
        one_event(Event::Tick { items, bytes });
    }
}

/// The end of a phase ticks and says nothing.
proof fn closing_alone(st: State)
    ensures
        items_ticked(closing(st)) == 0,
        messages(closing(st)) == Seq::<Seq<char>>::empty(),
{
    match st {
        State::Idle => {},
        State::Active { phase, .. } => {
            one_event(Event::End { phase });
        },
    }
}

/// The count of the last progress line is the count of one of the progress lines.
proof fn last_count_is_one(reads: Seq<Option<ProgressLine>>) -> (i: int)
    requires
        reads.len() > 0,
        reads[0] is Some,
    ensures
        0 <= i < reads.len(),
        reads[i] matches Some(l) && count_of(l) == last_count(reads),
    decreases reads.len(),
{
    if reads.last() is Some {
        reads.len() - 1
    } else {
        last_count_is_one(reads.drop_last())
    }
}

/// Whether the events report a run of one phase: another phase that was active ends, the phase
/// starts once, with `total` as its total, and does not end; its ticks tick items only, and add up
/// to `count`; `said` are the messages.
pub open spec fn reports_run(
    st: State,
    events: Seq<Event>,
    phase: Phase,
    total: u64,
    count: u64,
    said: Seq<Seq<char>>,
) -> bool {
    let n = closing(st).len() as int;
    &&& n < events.len()
    &&& events.subrange(0, n) == closing(st)
    &&& events[n] == (Event::Start { phase, total: ItemTotal::Count(total) })
    &&& forall|i: int|
        n < i < events.len() ==> (#[trigger] events[i] is Log) || (events[i] matches Event::Tick {
            bytes,
            ..
        } && bytes == 0)
    &&& items_ticked(events) == count
    &&& messages(events) == said
}

/// The first line of a run.
proof fn run_starts(st: State, l: ProgressLine)
    requires
        !is_active(st, l.phase),
        l.bytes is None,
    ensures
        reports_run(st, events_of(st, l), l.phase, total_of(l), count_of(l), Seq::empty()),
        is_active(state_after(st, l), l.phase),
        state_after(st, l)->last_cur == count_of(l),
{
    let events = events_of(st, l);
    let n = closing(st).len() as int;
    let start = Event::Start { phase: l.phase, total: ItemTotal::Count(total_of(l)) };
    let ticks = tick(count_of(l), 0);
    assert(events =~= closing(st) + seq![start] + ticks);
    ticked_and_said(closing(st) + seq![start], ticks);
    ticked_and_said(closing(st), seq![start]);
    closing_alone(st);
    one_event(start);
    tick_alone(count_of(l), 0);
    assert(events.subrange(0, n) =~= closing(st));
    assert(messages(events) =~= Seq::<Seq<char>>::empty());
}

/// One more line of the phase.
proof fn run_ticks(
    st: State,
    events: Seq<Event>,
    phase: Phase,
    total: u64,
    said: Seq<Seq<char>>,
    now: State,
    l: ProgressLine,
)
    requires
        is_active(now, phase),
        reports_run(st, events, phase, total, now->last_cur, said),
        l.phase == phase,
        l.bytes is None,
        now->last_cur <= count_of(l),
    ensures
        reports_run(st, events + events_of(now, l), phase, total, count_of(l), said),
        is_active(state_after(now, l), phase),
        state_after(now, l)->last_cur == count_of(l),
{
    let items = advance(count_of(l), now->last_cur);
    let more = tick(items, 0);
    let n = closing(st).len() as int;
    let all = events + more;
    assert(events_of(now, l) =~= more);
    ticked_and_said(events, more);
    tick_alone(items, 0);
    assert(all.subrange(0, n) =~= events.subrange(0, n));
    assert(messages(all) =~= said);
    assert forall|i: int| n < i < all.len() implies (#[trigger] all[i] is Log) || (all[i]
        matches Event::Tick { bytes, .. } && bytes == 0) by {
        if i < events.len() {
            assert(all[i] == events[i]);
        } else {
            assert(all[i] == more[i - events.len()]);
        }
    }
}

/// One more line that is no progress line.
proof fn run_says(
    st: State,
    events: Seq<Event>,
    phase: Phase,
    total: u64,
    count: u64,
    said: Seq<Seq<char>>,
    line: Seq<char>,
)
    requires
        reports_run(st, events, phase, total, count, said),
    ensures
        reports_run(
            st,
            events + seq![Event::Log { text: line }],
            phase,
            total,
            count,
            said.push(line),
        ),
{
    let more = seq![Event::Log { text: line }];
    let n = closing(st).len() as int;
    let all = events + more;
    ticked_and_said(events, more);
    one_event(Event::Log { text: line });
    assert(all.subrange(0, n) =~= events.subrange(0, n));
    assert(messages(all) =~= said.push(line));
    assert forall|i: int| n < i < all.len() implies (#[trigger] all[i] is Log) || (all[i]
        matches Event::Tick { bytes, .. } && bytes == 0) by {
        if i < events.len() {
            assert(all[i] == events[i]);
        } else {
            assert(all[i] == more[i - events.len()]);
        }
    }
}

/// A run without its last line is one, if a line is left.
proof fn shorter_run(reads: Seq<Option<ProgressLine>>, phase: Phase)
    requires
        is_run(reads, phase),
        reads.len() > 1,
    ensures
        is_run(reads.drop_last(), phase),
        reads.last() matches Some(l) ==> last_count(reads.drop_last()) <= count_of(l),
{
    let rest = reads.drop_last();
    assert(rest[0] == reads[0]);
    let i = last_count_is_one(rest);
    assert(rest[i] == reads[i]);
    assert(reads[reads.len() - 1] == reads.last());
}

/// A run of one phase, whose counts do not fall, starts that phase once, with the total of its
/// first line, and does not end it. Its ticks tick items only, and add up to the last count. Each
/// other line in between is passed on as a message, and makes no other call.
pub proof fn rising_counts_add_up(st: State, lines: Seq<Seq<char>>, phase: Phase)
    requires
        !is_active(st, phase),
        is_run(readings(lines), phase),
    ensures
        reports_run(
            st,
            events_over(st, lines),
            phase,
            total_of(readings(lines)[0]->0),
            last_count(readings(lines)),
            other_lines(lines),
        ),
        forall|i: int|
            0 <= i < lines.len() && progress_line(#[trigger] lines[i]) is None ==> next_events(
                state_over(st, lines.subrange(0, i)),
                lines[i],
            ) == seq![Event::Log { text: lines[i] }],
        is_active(state_over(st, lines), phase),
        state_over(st, lines)->last_cur == last_count(readings(lines)),
    decreases lines.len(),
{
    let rest = lines.drop_last();
    let line = lines.last();
    let reads = readings(lines);
    let read = reads.last();
    let before = events_over(st, rest);
    let was = state_over(st, rest);
    assert(reads.drop_last() =~= readings(rest));
    assert(read == progress_line(line));
    assert(reads[reads.len() - 1] == read);
    if rest.len() == 0 {
        assert(reads[0] == read);
        assert(before + next_events(st, line) =~= next_events(st, line));
        assert(other_lines(rest) =~= Seq::<Seq<char>>::empty());
        run_starts(st, read->0);
    } else {
        let total = total_of(reads[0]->0);
        assert(readings(rest)[0] == reads[0]);
        shorter_run(reads, phase);
        rising_counts_add_up(st, rest, phase);
        match read {
            None => {
                run_says(
                    st,
                    before,
                    phase,
                    total,
                    last_count(readings(rest)),
                    other_lines(rest),
                    line,
                );
            },
            Some(l) => {
                run_ticks(st, before, phase, total, other_lines(rest), was, l);
            },
        }
    }
}

// --- lines read back --------------------------------------------------------

/// A run ends at the first character of another kind.
proof fn run_ends(s: Seq<char>, i: int, j: int, k: Kind)
    requires
        0 <= i <= j <= s.len(),
        forall|p: int| i <= p < j ==> is_kind(#[trigger] s[p], k),
        j < s.len() ==> !is_kind(s[j], k),
    ensures
        run_end(s, i, k) == j,
    decreases j - i,
{
    if i < j {
        assert(is_kind(s[i], k));
        run_ends(s, i + 1, j, k);
    }
}

/// What stands between two pieces of a line occurs in it.
proof fn occurs_between(a: Seq<char>, w: Seq<char>, b: Seq<char>)
    ensures
        occurs_at(a + w + b, w, a.len() as int),
{
    assert((a + w + b).subrange(a.len() as int, (a.len() + w.len()) as int) =~= w);
}

/// The beginning of a progress line as git writes it, up to the amount.
pub open spec fn line_head(remote: bool, name: Seq<char>, noun: Seq<char>) -> Seq<char> {
    (if remote {
        "remote: "@
    } else {
        Seq::empty()
    }) + name + " "@ + noun + " "@
}

/// The share of the work done as git writes it.
pub open spec fn share_text(percent: nat, cur: nat, total: nat) -> Seq<char> {
    decimal(percent) + "% ("@ + decimal(cur) + "/"@ + decimal(total) + ")"@
}

/// A name that stands at `i` is the one that is read there.
proof fn name_is_read(s: Seq<char>, i: int, name: Seq<char>)
    requires
        phase_named(name) is Some,
        occurs_at(s, name, i),
    ensures
        name_at(s, i) == Some(name),
        s[i] != 'r',
{
    reveal_strlit("Enumerating");
    reveal_strlit("Counting");
    reveal_strlit("Compressing");
    reveal_strlit("Writing");
    reveal_strlit("Receiving");
    reveal_strlit("Resolving");
    assert forall|w: Seq<char>, p: int|
        occurs_at(s, w, i) && 0 <= p < w.len() implies s[i + p] == #[trigger] w[p] by {
        assert(s.subrange(i, i + w.len())[p] == s[i + p]);
    }
    assert(name.len() > 2);
    assert(s[i + 0] == name[0]);
    assert(s[i + 1] == name[1]);
    assert(s[i + 2] == name[2]);
    if occurs_at(s, "Enumerating"@, i) {
        assert(s[i + 0] == "Enumerating"@[0]);
    }
    if occurs_at(s, "Counting"@, i) {
        assert(s[i + 0] == "Counting"@[0]);
        assert(s[i + 2] == "Counting"@[2]);
    }
    if occurs_at(s, "Compressing"@, i) {
        assert(s[i + 0] == "Compressing"@[0]);
        assert(s[i + 2] == "Compressing"@[2]);
    }
    if occurs_at(s, "Writing"@, i) {
        assert(s[i + 0] == "Writing"@[0]);
    }
    if occurs_at(s, "Receiving"@, i) {
        assert(s[i + 0] == "Receiving"@[0]);
        assert(s[i + 2] == "Receiving"@[2]);
    }
    if occurs_at(s, "Resolving"@, i) {
        assert(s[i + 0] == "Resolving"@[0]);
        assert(s[i + 2] == "Resolving"@[2]);
    }
}

/// The beginning of a line is read up to the amount.
proof fn head_is_read(remote: bool, name: Seq<char>, noun: Seq<char>, rest: Seq<char>)
    requires
        phase_named(name) is Some,
        noun == "objects:"@ || noun == "deltas:"@,
        rest.len() > 0,
        !is_space(rest[0]),
    ensures
        ({
            let s = line_head(remote, name, noun) + rest;
            &&& name_start(s) matches Some(i)
            &&& name_at(s, i) == Some(name)
            &&& amount_start(s, i + name.len()) == Some(line_head(remote, name, noun).len() as int)
        }),
{
    reveal_strlit("remote: ");
    reveal_strlit("remote:");
    reveal_strlit(" ");
    reveal_strlit("objects:");
    reveal_strlit("deltas:");
    names_are_known();
    let head = line_head(remote, name, noun);
    let s = head + rest;
    let prefix = if remote {
        "remote: "@
    } else {
        Seq::empty()
    };
    let i = prefix.len() as int;
    let j = i + name.len();
    occurs_between(prefix, name, " "@ + noun + " "@ + rest);
    assert(s =~= prefix + name + (" "@ + noun + " "@ + rest));
    name_is_read(s, i, name);
    first_letters(name);
    assert(s[i] == name[0]) by {
        assert(s.subrange(i, i + name.len())[0] == name[0]);
    }
    if remote {
        assert(s.subrange(0, 7) =~= "remote:"@);
        assert(s[7] == ' ' && is_space(' '));
        run_ends(s, 7, 8, Kind::Space);
    } else {
        if occurs_at(s, "remote:"@, 0) {
            assert(s.subrange(0, 7)[0] == 'r');
        }
    }
    assert(name_start(s) == Some(i));
    assert(s[j] == ' ');
    assert(s[j + 1] == noun[0]);
    assert(!is_space(noun[0]));
    run_ends(s, j, j + 1, Kind::Space);
    occurs_between(prefix + name + " "@, noun, " "@ + rest);
    assert(s =~= prefix + name + " "@ + noun + (" "@ + rest));
    assert(occurs_at(s, noun, j + 1));
    if noun == "deltas:"@ {
        if occurs_at(s, "objects:"@, j + 1) {
            assert(s.subrange(j + 1, j + 1 + 8)[0] == 'o');
        }
    }
    let a = j + 1 + noun.len();
    assert(a + 1 == head.len());
    assert(s[a] == ' ');
    assert(s[a + 1] == rest[0]);
    run_ends(s, a, a + 1, Kind::Space);
}

/// No name starts with white space.
proof fn first_letters(name: Seq<char>)
    requires
        phase_named(name) is Some,
    ensures
        name.len() > 0,
        !is_space(name[0]),
{
    reveal_strlit("Enumerating");
    reveal_strlit("Counting");
    reveal_strlit("Compressing");
    reveal_strlit("Writing");
    reveal_strlit("Receiving");
    reveal_strlit("Resolving");
}

/// A number in a line is read where it stands.
proof fn number_is_read(s: Seq<char>, i: int, n: nat)
    requires
        occurs_at(s, decimal(n), i),
        i + decimal(n).len() < s.len() ==> !is_decimal_number(s[i + decimal(n).len()]),
    ensures
        run_at(s, i, Kind::Digit) == Some(i + decimal(n).len()),
        n <= u64::MAX ==> value(s.subrange(i, i + decimal(n).len())) == n,
        !is_space(s[i]),
{
    decimal_reads_back(n);
    let d = decimal(n);
    let j = i + d.len();
    assert forall|p: int| i <= p < j implies is_kind(#[trigger] s[p], Kind::Digit) by {
        assert(s.subrange(i, j)[p - i] == s[p]);
        assert(is_digit(d[p - i]));
        ascii_digits_are_decimal(s[p]);
    }
    run_ends(s, i, j, Kind::Digit);
    assert(s.subrange(i, j)[0] == s[i]);
    assert(is_digit(d[0]));
}

/// Where the pieces of a share stand.
proof fn share_pieces(
    head: Seq<char>,
    x: Seq<char>,
    y: Seq<char>,
    z: Seq<char>,
    tail: Seq<char>,
    s: Seq<char>,
)
    requires
        s == head + (x + "% ("@ + y + "/"@ + z + ")"@) + tail,
    ensures
        ({
            let p = (head.len() + x.len()) as int;
            let q = p + 3 + y.len();
            let r = q + 1 + z.len();
            &&& occurs_at(s, x, head.len() as int)
            &&& s[p] == '%' && s[p + 1] == ' ' && s[p + 2] == '('
            &&& occurs_at(s, y, p + 3)
            &&& s[q] == '/'
            &&& occurs_at(s, z, q + 1)
            &&& s[r] == ')'
            &&& (head + (x + "% ("@ + y + "/"@ + z + ")"@)).len() == r + 1 <= s.len()
        }),
{
    reveal_strlit("% (");
    reveal_strlit("/");
    reveal_strlit(")");
    let p = (head.len() + x.len()) as int;
    let q = p + 3 + y.len();
    let r = q + 1 + z.len();
    assert(s.subrange(head.len() as int, p) =~= x);
    assert(s.subrange(p + 3, q) =~= y);
    assert(s.subrange(q + 1, r) =~= z);
}

/// How the pieces of a share make up the amount.
proof fn share_from_pieces(s: Seq<char>, i: int, p: int, q: int, r: int, cur: u64, total: u64)
    requires
        0 <= i < p,
        p + 3 < q,
        q + 1 < r < s.len(),
        run_at(s, i, Kind::Digit) == Some(p),
        s[p] == '%',
        s[p + 1] == ' ',
        s[p + 2] == '(',
        run_at(s, p + 3, Kind::Digit) == Some(q),
        s[q] == '/',
        run_at(s, q + 1, Kind::Digit) == Some(r),
        s[r] == ')',
        value(s.subrange(p + 3, q)) == cur,
        value(s.subrange(q + 1, r)) == total,
    ensures
        amount_at(s, i) == Some((Amount::Share { cur, total }, r + 1)),
{
    assert(!is_space('(') && is_space(' '));
    run_ends(s, p + 1, p + 2, Kind::Space);
    assert(run_at(s, p + 1, Kind::Space) == Some(p + 2));
    assert(share_at(s, p) == Some((cur, total, r + 1)));
}

/// A share in a line is read where it stands.
proof fn share_is_read(
    s: Seq<char>,
    head: Seq<char>,
    percent: nat,
    cur: u64,
    total: u64,
    tail: Seq<char>,
)
    requires
        s == head + share_text(percent, cur as nat, total as nat) + tail,
    ensures
        amount_at(s, head.len() as int) == Some(
            (
                Amount::Share { cur, total },
                (head + share_text(percent, cur as nat, total as nat)).len() as int,
            ),
        ),
        head.len() < s.len(),
        !is_space(s[head.len() as int]),
{
    let x = decimal(percent);
    let y = decimal(cur as nat);
    let z = decimal(total as nat);
    share_pieces(head, x, y, z, tail, s);
    separators_are_not_decimal();
    let i = head.len() as int;
    let p = i + x.len();
    let q = p + 3 + y.len();
    let r = q + 1 + z.len();
    number_is_read(s, i, percent);
    number_is_read(s, p + 3, cur as nat);
    number_is_read(s, q + 1, total as nat);
    share_from_pieces(s, i, p, q, r, cur, total);
}

/// A line that gives a share of the work reads back: the phase, the two numbers, and the amount
/// of data that the rest of the line gives. It makes no difference whether the remote side sent
/// it.
pub proof fn share_lines_read_back(
    remote: bool,
    name: Seq<char>,
    noun: Seq<char>,
    percent: nat,
    cur: u64,
    total: u64,
    tail: Seq<char>,
)
    requires
        phase_named(name) is Some,
        noun == "objects:"@ || noun == "deltas:"@,
    ensures
        progress_line(
            line_head(remote, name, noun) + share_text(percent, cur as nat, total as nat) + tail,
        ) == Some(
            ProgressLine {
                phase: phase_named(name)->0,
                amount: Amount::Share { cur, total },
                bytes: bytes_at(tail, 0),
            },
        ),
{
    let head = line_head(remote, name, noun);
    let share = share_text(percent, cur as nat, total as nat);
    let s = head + share + tail;
    share_is_read(s, head, percent, cur, total, tail);
    assert(s =~= head + (share + tail));
    assert((share + tail)[0] == s[head.len() as int]);
    head_is_read(remote, name, noun, share + tail);
    bytes_behind(head + share, tail);
}

/// A run does not depend on what stands before it.
proof fn run_behind(front: Seq<char>, tail: Seq<char>, i: int, k: Kind)
    requires
        0 <= i <= tail.len(),
    ensures
        run_end(front + tail, front.len() + i, k) == front.len() + run_end(tail, i, k),
        i <= run_end(tail, i, k) <= tail.len(),
    decreases tail.len() - i,
{
    let s = front + tail;
    if i < tail.len() {
        assert(s[front.len() + i] == tail[i]);
        if is_kind(tail[i], k) {
            run_behind(front, tail, i + 1, k);
        }
    }
}

/// The amount of data does not depend on what stands before it.
proof fn bytes_behind(front: Seq<char>, tail: Seq<char>)
    ensures
        bytes_at(front + tail, front.len() as int) == bytes_at(tail, 0),
{
    let s = front + tail;
    let n = front.len() as int;
    assert forall|i: int, c: char| 0 <= i implies char_at(s, n + i, c) == char_at(tail, i, c) by {
        if i < tail.len() {
            assert(s[n + i] == tail[i]);
        }
    }
    assert(char_at(s, n + 0, ',') == char_at(tail, 0, ','));
    if char_at(tail, 0, ',') {
        run_behind(front, tail, 1, Kind::Space);
        let a = run_end(tail, 1, Kind::Space);
        run_behind(front, tail, a, Kind::DigitOrDot);
        let b = run_end(tail, a, Kind::DigitOrDot);
        run_behind(front, tail, b, Kind::Space);
        let u = run_end(tail, b, Kind::Space);
        assert(s.subrange(n + a, n + b) =~= tail.subrange(a, b));
        assert(char_at(s, n + u, 'K') == char_at(tail, u, 'K'));
        assert(char_at(s, n + u, 'M') == char_at(tail, u, 'M'));
        assert(char_at(s, n + u, 'G') == char_at(tail, u, 'G'));
        assert(char_at(s, n + (u + 1), 'i') == char_at(tail, u + 1, 'i'));
        assert(char_at(s, n + (u + 1), 'B') == char_at(tail, u + 1, 'B'));
        assert(char_at(s, n + (u + 2), 'B') == char_at(tail, u + 2, 'B'));
        assert(unit_at(s, n + u) == unit_at(tail, u));
    }
}

/// A line that gives a bare number of items reads back.
pub proof fn count_lines_read_back(
    remote: bool,
    name: Seq<char>,
    noun: Seq<char>,
    count: u64,
    tail: Seq<char>,
)
    requires
        phase_named(name) is Some,
        noun == "objects:"@ || noun == "deltas:"@,
        tail.len() > 0 ==> tail[0] != '%' && !is_decimal_number(tail[0]),
    ensures
        progress_line(line_head(remote, name, noun) + decimal(count as nat) + tail) == Some(
            ProgressLine {
                phase: phase_named(name)->0,
                amount: Amount::Count(count),
                bytes: bytes_at(tail, 0),
            },
        ),
{
    let head = line_head(remote, name, noun);
    let d = decimal(count as nat);
    let s = head + d + tail;
    let p = (head.len() + d.len()) as int;
    if p < s.len() {
        assert(s[p] == tail[0]);
    }
    occurs_between(head, d, tail);
    number_is_read(s, head.len() as int, count as nat);
    assert(s =~= head + (d + tail));
    assert((d + tail)[0] == s[head.len() as int]);
    head_is_read(remote, name, noun, d + tail);
    assert(share_at(s, p) is None);
    bytes_behind(head + d, tail);
}

// --- lines piece by piece ---------------------------------------------------

/// Whether white space, one character at least, stands from `a` to `b`.
pub open spec fn is_gap(s: Seq<char>, a: int, b: int) -> bool {
    &&& 0 <= a < b <= s.len()
    &&& forall|p: int| a <= p < b ==> is_space(#[trigger] s[p])
}

/// Whether decimal digits, one at least, stand from `a` to `b`, and none behind them.
pub open spec fn is_number(s: Seq<char>, a: int, b: int) -> bool {
    &&& 0 <= a < b <= s.len()
    &&& forall|p: int| a <= p < b ==> is_decimal_number(#[trigger] s[p])
    &&& b < s.len() ==> !is_decimal_number(s[b])
}

/// Whether the name of a phase stands at `i`, first in the line or behind `remote:`, a noun at
/// `j`, and a number from `k` to `d`, with white space between them.
pub open spec fn has_head(
    s: Seq<char>,
    i: int,
    name: Seq<char>,
    j: int,
    noun: Seq<char>,
    k: int,
    d: int,
) -> bool {
    &&& if occurs_at(s, "remote:"@, 0) {
        is_gap(s, 7, i)
    } else {
        i == 0
    }
    &&& phase_named(name) is Some
    &&& occurs_at(s, name, i)
    &&& is_gap(s, i + name.len(), j)
    &&& noun == "objects:"@ || noun == "deltas:"@
    &&& occurs_at(s, noun, j)
    &&& is_gap(s, j + noun.len(), k)
    &&& is_number(s, k, d)
}

/// Whether a percent sign stands at `d`, and behind it, in parentheses, a number from `a + 1` to
/// `b`, a slash, and a number from `b + 1` to `c`.
pub open spec fn has_share(s: Seq<char>, d: int, a: int, b: int, c: int) -> bool {
    &&& 0 <= d < s.len()
    &&& s[d] == '%'
    &&& is_gap(s, d + 1, a)
    &&& a < s.len()
    &&& s[a] == '('
    &&& is_number(s, a + 1, b)
    &&& b < s.len()
    &&& s[b] == '/'
    &&& is_number(s, b + 1, c)
    &&& c < s.len()
    &&& s[c] == ')'
}

/// Where white space ends.
proof fn gap_ends(s: Seq<char>, a: int, b: int)
    requires
        is_gap(s, a, b),
        b < s.len() ==> !is_space(s[b]),
    ensures
        run_at(s, a, Kind::Space) == Some(b),
{
    run_ends(s, a, b, Kind::Space);
}

/// Where a number ends.
proof fn number_ends(s: Seq<char>, a: int, b: int)
    requires
        is_number(s, a, b),
    ensures
        run_at(s, a, Kind::Digit) == Some(b),
        !is_space(s[a]),
{
    run_ends(s, a, b, Kind::Digit);
    assert(is_decimal_number(s[a]));
    digits_are_no_space(s[a]);
}

/// The pieces of the beginning of a line are read where they stand.
proof fn head_pieces_are_read(
    s: Seq<char>,
    i: int,
    name: Seq<char>,
    j: int,
    noun: Seq<char>,
    k: int,
    d: int,
)
    requires
        has_head(s, i, name, j, noun, k, d),
    ensures
        name_start(s) == Some(i),
        name_at(s, i) == Some(name),
        amount_start(s, i + name.len()) == Some(k),
        run_at(s, k, Kind::Digit) == Some(d),
{
    reveal_strlit("remote:");
    reveal_strlit("objects:");
    reveal_strlit("deltas:");
    name_is_read(s, i, name);
    first_letters(name);
    assert(s[i] == name[0]) by {
        assert(s.subrange(i, i + name.len())[0] == name[0]);
    }
    if occurs_at(s, "remote:"@, 0) {
        gap_ends(s, 7, i);
    }
    assert(s[j] == noun[0]) by {
        assert(s.subrange(j, j + noun.len())[0] == noun[0]);
    }
    gap_ends(s, i + name.len(), j);
    if noun == "deltas:"@ {
        if occurs_at(s, "objects:"@, j) {
            assert(s.subrange(j, j + 8)[0] == 'o');
        }
    }
    number_ends(s, k, d);
    gap_ends(s, j + noun.len(), k);
}

/// A share of the work is read wherever its pieces stand, with whatever white space between them:
/// the phase of the name, and the two numbers in the parentheses.
pub proof fn shares_are_read_piece_by_piece(
    s: Seq<char>,
    i: int,
    name: Seq<char>,
    j: int,
    noun: Seq<char>,
    k: int,
    d: int,
    a: int,
    b: int,
    c: int,
)
    requires
        has_head(s, i, name, j, noun, k, d),
        has_share(s, d, a, b, c),
    ensures
        progress_line(s) == Some(
            ProgressLine {
                phase: phase_named(name)->0,
                amount: Amount::Share {
                    cur: value(s.subrange(a + 1, b)),
                    total: value(s.subrange(b + 1, c)),
                },
                bytes: bytes_at(s, c + 1),
            },
        ),
{
    head_pieces_are_read(s, i, name, j, noun, k, d);
    gap_ends(s, d + 1, a);
    number_ends(s, a + 1, b);
    number_ends(s, b + 1, c);
    assert(share_at(s, d) == Some(
        (value(s.subrange(a + 1, b)), value(s.subrange(b + 1, c)), c + 1),
    ));
}

/// A bare count is read wherever it stands, if no share of the work follows it.
pub proof fn counts_are_read_piece_by_piece(
    s: Seq<char>,
    i: int,
    name: Seq<char>,
    j: int,
    noun: Seq<char>,
    k: int,
    d: int,
)
    requires
        has_head(s, i, name, j, noun, k, d),
        forall|a: int, b: int, c: int| !#[trigger] has_share(s, d, a, b, c),
    ensures
        progress_line(s) == Some(
            ProgressLine {
                phase: phase_named(name)->0,
                amount: Amount::Count(value(s.subrange(k, d))),
                bytes: bytes_at(s, d),
            },
        ),
{
    head_pieces_are_read(s, i, name, j, noun, k, d);
    if share_at(s, d) is Some {
        share_has_pieces(s, d);
    }
}

/// A share that is read has its pieces.
proof fn share_has_pieces(s: Seq<char>, d: int)
    requires
        share_at(s, d) is Some,
    ensures
        exists|a: int, b: int, c: int| #[trigger] has_share(s, d, a, b, c),
{
    let a = run_at(s, d + 1, Kind::Space)->Some_0;
    let b = run_at(s, a + 1, Kind::Digit)->Some_0;
    let c = run_at(s, b + 1, Kind::Digit)->Some_0;
    gap_between(s, d + 1);
    number_between(s, a + 1);
    number_between(s, b + 1);
    assert(has_share(s, d, a, b, c));
}

/// A run of white space is a gap.
proof fn gap_between(s: Seq<char>, a: int)
    requires
        0 <= a,
        run_at(s, a, Kind::Space) is Some,
    ensures
        is_gap(s, a, run_at(s, a, Kind::Space)->Some_0),
{
    let b = run_end(s, a, Kind::Space);
    run_stays_inside(s, a, Kind::Space);
    assert forall|p: int| a <= p < b implies is_space(#[trigger] s[p]) by {
        run_is_of_kind(s, a, Kind::Space, p);
    }
}

/// A run of digits is a number.
proof fn number_between(s: Seq<char>, a: int)
    requires
        0 <= a,
        run_at(s, a, Kind::Digit) is Some,
    ensures
        is_number(s, a, run_at(s, a, Kind::Digit)->Some_0),
{
    let b = run_end(s, a, Kind::Digit);
    run_stays_inside(s, a, Kind::Digit);
    assert forall|p: int| a <= p < b implies is_decimal_number(#[trigger] s[p]) by {
        run_is_of_kind(s, a, Kind::Digit, p);
    }
}

/// A run ends within the line, at a character of another kind.
proof fn run_stays_inside(s: Seq<char>, i: int, k: Kind)
    requires
        0 <= i,
    ensures
        i < run_end(s, i, k) ==> run_end(s, i, k) <= s.len(),
        run_end(s, i, k) >= i,
        run_end(s, i, k) < s.len() ==> !is_kind(s[run_end(s, i, k)], k),
    decreases s.len() - i,
{
    if i < s.len() && is_kind(s[i], k) {
        run_stays_inside(s, i + 1, k);
    }
}

/// Nothing else is a progress line: one that is has all its pieces.
pub proof fn progress_lines_have_their_pieces(s: Seq<char>)
    requires
        progress_line(s) is Some,
    ensures
        exists|i: int, name: Seq<char>, j: int, noun: Seq<char>, k: int, d: int| #[trigger]
            has_head(s, i, name, j, noun, k, d),
{
    reveal_strlit("remote:");
    reveal_strlit("objects:");
    reveal_strlit("deltas:");
    names_are_known();
    let i = name_start(s)->Some_0;
    let name = name_at(s, i)->Some_0;
    let m = i + name.len();
    let j = run_at(s, m, Kind::Space)->Some_0;
    let noun = if occurs_at(s, "objects:"@, j) {
        "objects:"@
    } else {
        "deltas:"@
    };
    let k = amount_start(s, m)->Some_0;
    let d = run_at(s, k, Kind::Digit)->Some_0;
    if occurs_at(s, "remote:"@, 0) {
        gap_between(s, 7);
    }
    assert(i >= 0);
    gap_between(s, m);
    gap_between(s, j + noun.len());
    number_between(s, k);
    assert(has_head(s, i, name, j, noun, k, d));
}

/// A number that cannot be counted, or has other digits than those of a keyboard, counts as
/// nothing; any other counts as what it says.
pub proof fn numbers_beyond_counting_count_as_nothing(digits: Seq<char>, n: u64)
    ensures
        value(decimal(n as nat)) == n,
        digits_value(digits) > u64::MAX ==> value(digits) == 0,
        (exists|i: int| 0 <= i < digits.len() && !('0' <= #[trigger] digits[i] <= '9')) ==> value(
            digits,
        ) == 0,
{
    decimal_reads_back(n as nat);
    if exists|i: int| 0 <= i < digits.len() && !('0' <= #[trigger] digits[i] <= '9') {
        let i = choose|i: int| 0 <= i < digits.len() && !('0' <= #[trigger] digits[i] <= '9');
        assert(!is_digit(digits[i]));
    }
}

// --- amounts of data --------------------------------------------------------

/// An amount of data as git writes it behind a comma, with whatever white space between.
pub open spec fn data_text(
    lead: Seq<char>,
    amount: Seq<char>,
    gap: Seq<char>,
    unit: Seq<char>,
) -> Seq<char> {
    seq![','] + lead + amount + gap + unit
}

/// How many bytes a unit of git stands for: thousands, or powers of 1024 where it has an `i`.
pub open spec fn unit_size(unit: Seq<char>) -> nat {
    if unit == seq!['K', 'i', 'B'] {
        1024
    } else if unit == seq!['M', 'i', 'B'] {
        1024 * 1024
    } else if unit == seq!['G', 'i', 'B'] {
        1024 * 1024 * 1024
    } else if unit == seq!['K', 'B'] {
        1000
    } else if unit == seq!['M', 'B'] {
        1000 * 1000
    } else if unit == seq!['G', 'B'] {
        1000 * 1000 * 1000
    } else {
        0
    }
}

/// The first dot of a text.
proof fn dot_is_first(front: Seq<char>, behind: Seq<char>)
    requires
        all_digits(front),
    ensures
        dot(front + seq!['.'] + behind) == front.len(),
    decreases front.len(),
{
    let s = front + seq!['.'] + behind;
    if front.len() == 0 {
        assert(s[0] == '.');
    } else {
        let rest = front.drop_first();
        assert forall|i: int| 0 <= i < rest.len() implies is_digit(#[trigger] rest[i]) by {
            assert(is_digit(front[i + 1]));
        }
        dot_is_first(rest, behind);
        assert(s.drop_first() =~= rest + seq!['.'] + behind);
        assert(is_digit(front[0]));
        assert(s[0] == front[0]);
    }
}

/// Digits have no dot.
proof fn digits_have_no_dot(s: Seq<char>)
    requires
        all_digits(s),
    ensures
        dot(s) == s.len(),
    decreases s.len(),
{
    if s.len() > 0 {
        let rest = s.drop_first();
        assert forall|i: int| 0 <= i < rest.len() implies is_digit(#[trigger] rest[i]) by {
            assert(is_digit(s[i + 1]));
        }
        digits_have_no_dot(rest);
        assert(is_digit(s[0]));
    }
}

/// The unit that stands in a line.
proof fn unit_is_read(s: Seq<char>, u: int, unit: Seq<char>)
    requires
        unit_size(unit) > 0,
        0 <= u,
        u + unit.len() <= s.len(),
        s.subrange(u, u + unit.len()) == unit,
    ensures
        unit_at(s, u) == Some(unit_size(unit)),
        unit.len() >= 2,
        s[u] == unit[0],
        !is_space(unit[0]),
        !is_decimal_number(unit[0]),
        unit[0] != '.',
{
    separators_are_not_decimal();
    let t = s.subrange(u, u + unit.len());
    assert(t[0] == s[u]);
    assert(t[1] == s[u + 1]);
    if unit.len() == 3 {
        assert(t[2] == s[u + 2]);
    }
}

/// An amount of data is read behind a comma, with white space or without between its pieces.
pub proof fn data_is_read_where_it_stands(
    lead: Seq<char>,
    amount: Seq<char>,
    gap: Seq<char>,
    unit: Seq<char>,
    rest: Seq<char>,
)
    requires
        is_blank(lead),
        is_blank(gap),
        amount.len() > 0,
        forall|i: int|
            0 <= i < amount.len() ==> '0' <= #[trigger] amount[i] <= '9' || amount[i] == '.',
        unit_size(unit) > 0,
    ensures
        bytes_at(data_text(lead, amount, gap, unit) + rest, 0) == Some(
            scaled(amount, unit_size(unit)),
        ),
{
    let s = data_text(lead, amount, gap, unit) + rest;
    let a = 1 + lead.len() as int;
    let b = a + amount.len();
    let u = b + gap.len();
    assert(s[0] == ',');
    assert(s.subrange(1, a) =~= lead);
    assert(s.subrange(a, b) =~= amount);
    assert(s.subrange(b, u) =~= gap);
    assert(s.subrange(u, u + unit.len()) =~= unit);
    assert forall|p: int| 1 <= p < a implies is_kind(#[trigger] s[p], Kind::Space) by {
        assert(s.subrange(1, a)[p - 1] == s[p]);
        assert(is_space(lead[p - 1]));
    }
    assert forall|p: int| a <= p < b implies is_kind(#[trigger] s[p], Kind::DigitOrDot) by {
        assert(s.subrange(a, b)[p - a] == s[p]);
        let c = amount[p - a];
        if c != '.' {
            ascii_digits_are_decimal(c);
        }
    }
    assert forall|p: int| b <= p < u implies is_kind(#[trigger] s[p], Kind::Space) by {
        assert(s.subrange(b, u)[p - b] == s[p]);
        assert(is_space(gap[p - b]));
    }
    unit_is_read(s, u, unit);
    assert(s[a] == amount[0]) by {
        assert(s.subrange(a, b)[0] == s[a]);
    }
    assert(!is_space(s[a]));
    run_ends(s, 1, a, Kind::Space);
    assert(!is_kind(s[b], Kind::DigitOrDot)) by {
        if b < u {
            assert(is_kind(s[b], Kind::Space));
            separators_are_not_decimal();
            if is_decimal_number(s[b]) {
                digits_are_no_space(s[b]);
            }
        }
    }
    run_ends(s, a, b, Kind::DigitOrDot);
    run_ends(s, b, u, Kind::Space);
}

/// An amount of data is its whole part and its fraction, times the unit, rounded down to whole
/// bytes, as far as it can be counted. Either part may be missing, but not both.
pub proof fn amounts_of_data_are_exact(front: Seq<char>, behind: Seq<char>, unit: nat)
    requires
        all_digits(front),
        all_digits(behind),
        front.len() + behind.len() > 0,
    ensures
        ({
            let exact = digits_value(front) * unit + digits_value(behind) * unit / (pow(
                10,
                behind.len(),
            ) as nat);
            scaled(front + seq!['.'] + behind, unit) == (if exact > u64::MAX {
                u64::MAX
            } else {
                exact as u64
            })
        }),
{
    let n = front + seq!['.'] + behind;
    dot_is_first(front, behind);
    assert(whole(n) =~= front);
    assert(fraction(n) =~= behind);
}

/// An amount of data without a dot is a whole number of units; a dot alone, and what has two, is
/// none at all.
pub proof fn whole_amounts_of_data_need_no_dot(
    front: Seq<char>,
    behind: Seq<char>,
    more: Seq<char>,
    unit: nat,
)
    requires
        all_digits(front),
        all_digits(behind),
    ensures
        front.len() > 0 ==> scaled(front, unit) == (if digits_value(front) * unit > u64::MAX {
            u64::MAX
        } else {
            (digits_value(front) * unit) as u64
        }),
        scaled(seq!['.'], unit) == 0,
        scaled(front + seq!['.'] + behind + seq!['.'] + more, unit) == 0,
{
    digits_have_no_dot(front);
    if front.len() > 0 {
        assert(whole(front) =~= front);
        assert(fraction(front) =~= Seq::<char>::empty());
        assert(digits_value(fraction(front)) == 0);
        lemma_pow_positive(10, 0);
        assert(0 * unit == 0) by (nonlinear_arith);
        assert(digits_value(fraction(front)) * unit == 0);
        assert(0nat / (pow(10, 0) as nat) == 0) by {
            vstd::arithmetic::power::lemma_pow0(10);
        }
    }
    let none = Seq::<char>::empty();
    dot_is_first(none, none);
    assert(none + seq!['.'] + none =~= seq!['.']);
    assert(whole(seq!['.']) =~= none);
    assert(fraction(seq!['.']) =~= none);
    let tail = behind + seq!['.'] + more;
    let n = front + seq!['.'] + tail;
    assert(front + seq!['.'] + behind + seq!['.'] + more =~= n);
    dot_is_first(front, tail);
    assert(fraction(n) =~= tail);
    assert(tail[behind.len() as int] == '.');
    assert(!is_digit(tail[behind.len() as int]));
}

/// Without a comma there is no amount of data, and behind a comma there is none without a unit.
pub proof fn data_follows_a_comma(tail: Seq<char>)
    ensures
        tail.len() == 0 || tail[0] != ',' ==> bytes_at(tail, 0) is None,
        (forall|i: int| 0 <= i < tail.len() ==> #[trigger] tail[i] != 'B') ==> bytes_at(tail, 0)
            is None,
{
}

// --- single lines -----------------------------------------------------------

/// Git's phases go by the words that the display shows them by.
pub proof fn phases_go_by_their_labels(name: Seq<char>)
    ensures
        phase_named(name) matches Some(phase) ==> name.len() <= phase.label_text().len()
            && phase.label_text().subrange(0, name.len() as int) == name,
        phase_named("Enumerating"@) is Some,
        phase_named("Counting"@) is Some,
        phase_named("Compressing"@) is Some,
        phase_named("Writing"@) is Some,
        phase_named("Receiving"@) is Some,
        phase_named("Resolving"@) is Some,
{
    reveal_strlit("Enumerating");
    reveal_strlit("Counting");
    reveal_strlit("Compressing");
    reveal_strlit("Writing");
    reveal_strlit("Receiving");
    reveal_strlit("Resolving");
    reveal_strlit("Enumerating objects");
    reveal_strlit("Counting objects");
    reveal_strlit("Compressing objects");
    reveal_strlit("Writing objects");
    reveal_strlit("Receiving objects");
    reveal_strlit("Resolving deltas");
    if let Some(phase) = phase_named(name) {
        assert(phase.label_text().subrange(0, name.len() as int) =~= name);
    }
}

/// A run is of one kind throughout.
proof fn run_is_of_kind(s: Seq<char>, i: int, k: Kind, p: int)
    requires
        0 <= i <= p < run_end(s, i, k),
    ensures
        is_kind(s[p], k),
    decreases p - i,
{
    if i < p {
        run_is_of_kind(s, i + 1, k, p);
    }
}

/// A progress line names its phase first, or right behind `remote:` and white space.
pub proof fn progress_lines_name_their_phase_first(s: Seq<char>)
    requires
        progress_line(s) is Some,
    ensures
        exists|i: int, name: Seq<char>|
            {
                &&& #[trigger] occurs_at(s, name, i)
                &&& phase_named(name) == Some(progress_line(s)->Some_0.phase)
                &&& i == 0 || (occurs_at(s, "remote:"@, 0) && i > 7 && forall|p: int|
                    7 <= p < i ==> is_space(#[trigger] s[p]))
            },
{
    reveal_strlit("remote:");
    let i = name_start(s)->Some_0;
    let name = name_at(s, i)->Some_0;
    assert(occurs_at(s, name, i));
    names_are_known();
    if occurs_at(s, "remote:"@, 0) {
        assert(i == run_end(s, 7, Kind::Space));
        assert forall|p: int| 7 <= p < i implies is_space(#[trigger] s[p]) by {
            run_is_of_kind(s, 7, Kind::Space, p);
        }
    }
    assert(phase_named(name) is Some);
}

/// What a line of the active phase reports: what was added since the last one, of items and of
/// data, and nothing where nothing was. What falls adds nothing. The next line is compared with
/// this one.
pub proof fn lines_tick_what_was_added(
    phase: Phase,
    last_cur: u64,
    last_bytes: u64,
    l: ProgressLine,
    cur: u64,
    total: u64,
)
    requires
        l.phase == phase,
        l.amount == (Amount::Share { cur, total }),
    ensures
        ({
            let st = State::Active { phase, last_cur, last_bytes };
            let items: u64 = if cur > last_cur {
                (cur - last_cur) as u64
            } else {
                0
            };
            let now = match l.bytes {
                Some(b) => b,
                None => last_bytes,
            };
            let bytes: u64 = if now > last_bytes {
                (now - last_bytes) as u64
            } else {
                0
            };
            &&& items == 0 && bytes == 0 ==> events_of(st, l).len() == 0
            &&& items > 0 || bytes > 0 ==> events_of(st, l) == seq![Event::Tick { items, bytes }]
            &&& state_after(st, l) == (State::Active { phase, last_cur: cur, last_bytes: now })
        }),
{
    let st = State::Active { phase, last_cur, last_bytes };
    assert(switching(st, phase, total) =~= Seq::<Event>::empty());
    assert(events_of(st, l) =~= tick(
        advance(cur, last_cur),
        match l.bytes {
            Some(b) => advance(b, last_bytes),
            None => 0,
        },
    ));
}

/// A bare count of the active phase ticks items only, and leaves the amount of data alone.
pub proof fn bare_counts_tick_items(
    phase: Phase,
    last_cur: u64,
    last_bytes: u64,
    l: ProgressLine,
    n: u64,
)
    requires
        l.phase == phase,
        l.amount == Amount::Count(n),
    ensures
        ({
            let st = State::Active { phase, last_cur, last_bytes };
            &&& n <= last_cur ==> events_of(st, l).len() == 0
            &&& n > last_cur ==> events_of(st, l) == seq![
                Event::Tick { items: (n - last_cur) as u64, bytes: 0 },
            ]
            &&& state_after(st, l) == (State::Active { phase, last_cur: n, last_bytes })
        }),
{
    let st = State::Active { phase, last_cur, last_bytes };
    assert(switching(st, phase, n) =~= Seq::<Event>::empty());
    assert(events_of(st, l) =~= tick(advance(n, last_cur), 0));
}

/// The first line of another phase ends the one that is active, if one is, and starts its own with
/// the total that it names; then it ticks all that it says is done.
pub proof fn new_phases_start_afresh(st: State, l: ProgressLine)
    requires
        st matches State::Active { phase, .. } ==> phase != l.phase,
    ensures
        ({
            let events = events_of(st, l);
            let n: int = if st is Active {
                1
            } else {
                0
            };
            let (cur, total, bytes) = match l.amount {
                Amount::Count(c) => (c, c, 0u64),
                Amount::Share { cur, total } => (
                    cur,
                    total,
                    match l.bytes {
                        Some(b) => b,
                        None => 0u64,
                    },
                ),
            };
            &&& st matches State::Active { phase, .. } ==> events[0] == (Event::End { phase })
            &&& events[n] == (Event::Start { phase: l.phase, total: ItemTotal::Count(total) })
            &&& cur == 0 && bytes == 0 ==> events.len() == n + 1
            &&& cur > 0 || bytes > 0 ==> events.len() == n + 2 && events[n + 1] == (Event::Tick {
                items: cur,
                bytes,
            })
            &&& state_after(st, l) == (State::Active {
                phase: l.phase,
                last_cur: cur,
                last_bytes: bytes,
            })
        }),
{
}

/// A line that is no progress line is passed on as it is, and changes nothing.
pub proof fn other_lines_are_passed_on(st: State, line: Seq<char>)
    requires
        progress_line(line) is None,
    ensures
        next_events(st, line) == seq![Event::Log { text: line }],
        next_state(st, line) == st,
{
}

/// Whether an amount of data stands behind a comma at `i`: digits and dots from `a` to `b`, and a
/// unit at `u`, with white space or none before each.
pub open spec fn has_data(s: Seq<char>, i: int, a: int, b: int, u: int, unit: Seq<char>) -> bool {
    &&& 0 <= i < a < b <= u <= s.len()
    &&& s[i] == ','
    &&& is_blank(s.subrange(i + 1, a))
    &&& forall|p: int| a <= p < b ==> is_decimal_number(#[trigger] s[p]) || s[p] == '.'
    &&& is_blank(s.subrange(b, u))
    &&& unit_size(unit) > 0
    &&& occurs_at(s, unit, u)
}

/// A run is blank if it is one of white space.
proof fn blank_run(s: Seq<char>, i: int)
    requires
        0 <= i <= s.len(),
    ensures
        i <= run_end(s, i, Kind::Space) <= s.len(),
        is_blank(s.subrange(i, run_end(s, i, Kind::Space))),
{
    let j = run_end(s, i, Kind::Space);
    run_stays_inside(s, i, Kind::Space);
    let t = s.subrange(i, j);
    assert forall|p: int| 0 <= p < t.len() implies is_space(#[trigger] t[p]) by {
        run_is_of_kind(s, i, Kind::Space, i + p);
    }
}

/// What is read as an amount of data has all its pieces, and a unit that git knows; it is the
/// number that stands there, in that unit.
pub proof fn data_have_their_pieces(s: Seq<char>, i: int)
    requires
        0 <= i,
        bytes_at(s, i) is Some,
    ensures
        exists|a: int, b: int, u: int, unit: Seq<char>|
            #[trigger] has_data(s, i, a, b, u, unit) && bytes_at(s, i) == Some(
                scaled(s.subrange(a, b), unit_size(unit)),
            ),
{
    let a = run_end(s, i + 1, Kind::Space);
    blank_run(s, i + 1);
    let b = run_end(s, a, Kind::DigitOrDot);
    run_stays_inside(s, a, Kind::DigitOrDot);
    assert forall|p: int| a <= p < b implies is_decimal_number(#[trigger] s[p]) || s[p] == '.' by {
        run_is_of_kind(s, a, Kind::DigitOrDot, p);
    }
    let u = run_end(s, b, Kind::Space);
    blank_run(s, b);
    let unit = if char_at(s, u + 1, 'i') {
        seq![s[u], 'i', 'B']
    } else {
        seq![s[u], 'B']
    };
    assert(s.subrange(u, u + unit.len()) =~= unit);
    assert(unit_at(s, u) == Some(unit_size(unit))) by {
        unit_by_letters(s[u]);
    }
    assert(has_data(s, i, a, b, u, unit));
}

/// The sizes of the units of a letter.
proof fn unit_by_letters(c: char)
    ensures
        c == 'K' ==> unit_size(seq![c, 'i', 'B']) == 1024 && unit_size(seq![c, 'B']) == 1000,
        c == 'M' ==> unit_size(seq![c, 'i', 'B']) == 1024 * 1024 && unit_size(seq![c, 'B']) == 1000
            * 1000,
        c == 'G' ==> unit_size(seq![c, 'i', 'B']) == 1024 * 1024 * 1024 && unit_size(seq![c, 'B'])
            == 1000 * 1000 * 1000,
{
    let x = seq![c, 'i', 'B'];
    let y = seq![c, 'B'];
    assert(x[0] == c && y[0] == c);
    assert(x.len() == 3 && y.len() == 2);
    assert(seq!['K', 'i', 'B'][0] == 'K' && seq!['M', 'i', 'B'][0] == 'M');
    assert(seq!['K', 'B'].len() == 2 && seq!['K', 'i', 'B'].len() == 3);
    assert(seq!['M', 'i', 'B'].len() == 3 && seq!['G', 'i', 'B'].len() == 3);
    assert(seq!['K', 'B'][0] == 'K' && seq!['M', 'B'][0] == 'M');
}

} // verus!
