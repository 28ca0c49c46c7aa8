//! Text primitives: comparison, search, trimming and decimal numbers.
//!
//! A string is modelled by the sequence of its characters.

use vstd::prelude::*;

verus! {

/// `String::push` of the standard library: appends one character at the end.
#[verifier::external_body]
pub(crate) fn push_char(s: &mut String, c: char)
    ensures
        final(s)@ == old(s)@.push(c),
{
    s.push(c)
}

/// The characters of `s`, in order.
pub fn chars_of(s: &str) -> (r: Vec<char>)
    ensures
        r@ == s@,
{
    let mut r: Vec<char> = Vec::new();
    for c in it: s.chars()
        invariant
            it.seq() == s@,
            r@ == s@.subrange(0, it.index() as int),
    {
        r.push(c);
        assert(r@ =~= s@.subrange(0, it.index() + 1));
    }
    assert(s@.subrange(0, s@.len() as int) =~= s@);
    r
}

/// The text made of the characters at `from..to`.
pub fn slice_text(cs: &Vec<char>, from: usize, to: usize) -> (r: String)
    requires
        from <= to <= cs@.len(),
    ensures
        r@ == cs@.subrange(from as int, to as int),
{
    let mut r = String::new();
    let mut i: usize = from;
    while i < to
        invariant
            from <= i <= to <= cs@.len(),
            r@ == cs@.subrange(from as int, i as int),
        decreases to - i,
    {
        push_char(&mut r, cs[i]);
        i = i + 1;
        assert(r@ =~= cs@.subrange(from as int, i as int));
    }
    r
}

/// Whether two texts are the same.
pub fn same_text(a: &str, b: &str) -> (r: bool)
    ensures
        r == (a@ == b@),
{
    let mut x = a.chars();
    let mut y = b.chars();
    let ghost mut n: int = 0;
    assert(a@.skip(0) =~= a@);
    assert(b@.skip(0) =~= b@);
    loop
        invariant
            0 <= n <= a@.len(),
            n <= b@.len(),
            a@.subrange(0, n) == b@.subrange(0, n),
            vstd::std_specs::iter::IteratorSpec::remaining(&x) == a@.skip(n),
            vstd::std_specs::iter::IteratorSpec::remaining(&y) == b@.skip(n),
        decreases a@.len() - n,
    {
        match (x.next(), y.next()) {
            (None, None) => {
                assert(a@ =~= a@.subrange(0, n));
                assert(b@ =~= b@.subrange(0, n));
                return true;
            },
            (Some(c), Some(d)) => {
                assert(c == a@[n] && d == b@[n]);
                if c != d {
                    return false;
                }
                proof {
                    assert(a@.subrange(0, n + 1) =~= a@.subrange(0, n).push(c));
                    assert(b@.subrange(0, n + 1) =~= b@.subrange(0, n).push(c));
                    assert(a@.skip(n).drop_first() =~= a@.skip(n + 1));
                    assert(b@.skip(n).drop_first() =~= b@.skip(n + 1));
                    n = n + 1;
                }
            },
            _ => {
                assert(a@.len() != b@.len());
                return false;
            },
        }
    }
}

/// Two texts, one behind the other.
pub fn join2(a: &str, b: &str) -> (r: String)
    ensures
        r@ == a@ + b@,
{
    let mut r = a.to_owned();
    r.append(b);
    r
}

/// Three texts, one behind the other.
pub fn join3(a: &str, b: &str, c: &str) -> (r: String)
    ensures
        r@ == a@ + b@ + c@,
{
    let mut r = join2(a, b);
    r.append(c);
    r
}

/// Four texts, one behind the other.
pub fn join4(a: &str, b: &str, c: &str, d: &str) -> (r: String)
    ensures
        r@ == a@ + b@ + c@ + d@,
{
    let mut r = join3(a, b, c);
    r.append(d);
    r
}

/// Five texts, one behind the other.
pub fn join5(a: &str, b: &str, c: &str, d: &str, e: &str) -> (r: String)
    ensures
        r@ == a@ + b@ + c@ + d@ + e@,
{
    let mut r = join4(a, b, c, d);
    r.append(e);
    r
}

/// The words of a list with `sep` between them.
pub open spec fn separated(words: Seq<Seq<char>>, sep: Seq<char>) -> Seq<char>
    decreases words.len(),
{
    if words.len() == 0 {
        Seq::empty()
    } else if words.len() == 1 {
        words[0]
    } else {
        separated(words.drop_last(), sep) + sep + words.last()
    }
}

/// The texts of a list of strings.
pub open spec fn texts(v: Seq<String>) -> Seq<Seq<char>> {
    v.map_values(|s: String| s@)
}

/// The words of a list with `sep` between them.
pub fn join_list(words: &Vec<String>, sep: &str) -> (r: String)
    ensures
        r@ == separated(texts(words@), sep@),
{
    let ghost ws = texts(words@);
    if words.len() == 0 {
        return String::new();
    }
    let mut r = words[0].clone();
    let mut i: usize = 1;
    assert(ws.subrange(0, 1) =~= seq![ws[0]]);
    while i < words.len()
        invariant
            1 <= i <= words@.len(),
            ws == texts(words@),
            r@ == separated(ws.subrange(0, i as int), sep@),
        decreases words@.len() - i,
    {
        assert(ws.subrange(0, i + 1).drop_last() =~= ws.subrange(0, i as int));
        assert(ws.subrange(0, i + 1).last() == words@[i as int]@);
        r.append(sep);
        r.append(words[i].as_str());
        i = i + 1;
    }
    assert(ws.subrange(0, i as int) =~= ws);
    r
}

// ---------------------------------------------------------------------------
// Order
// ---------------------------------------------------------------------------

/// Strict lexicographic order by code point, the order of Rust strings.
pub open spec fn before(a: Seq<char>, b: Seq<char>) -> bool
    decreases a.len(),
{
    if b.len() == 0 {
        false
    } else if a.len() == 0 {
        true
    } else if a[0] == b[0] {
        before(a.drop_first(), b.drop_first())
    } else {
        (a[0] as int) < (b[0] as int)
    }
}

/// No text comes before itself.
pub proof fn before_irreflexive(a: Seq<char>)
    ensures
        !before(a, a),
    decreases a.len(),
{
    if a.len() > 0 {
        before_irreflexive(a.drop_first());
    }
}

/// The order is transitive.
pub proof fn before_transitive(a: Seq<char>, b: Seq<char>, c: Seq<char>)
    requires
        before(a, b),
        before(b, c),
    ensures
        before(a, c),
    decreases a.len(),
{
    if a.len() > 0 && a[0] == b[0] && b[0] == c[0] {
        before_transitive(a.drop_first(), b.drop_first(), c.drop_first());
    }
}

/// Of two different texts, one comes before the other.
pub proof fn before_total(a: Seq<char>, b: Seq<char>)
    ensures
        before(a, b) || a == b || before(b, a),
    decreases a.len(),
{
    if a.len() > 0 && b.len() > 0 && a[0] == b[0] {
        before_total(a.drop_first(), b.drop_first());
        if a.drop_first() == b.drop_first() {
            assert(a =~= seq![a[0]] + a.drop_first());
            assert(b =~= seq![b[0]] + b.drop_first());
        }
    } else if a.len() == 0 && b.len() == 0 {
        assert(a =~= b);
    }
}

/// Whether the texts of `s` ascend strictly.
pub open spec fn ascending_texts(s: Seq<Seq<char>>) -> bool {
    forall|i: int, j: int| 0 <= i < j < s.len() ==> before(#[trigger] s[i], #[trigger] s[j])
}

/// A strictly ascending sequence of texts is determined by the texts it holds.
pub proof fn ascending_texts_determined(s: Seq<Seq<char>>, t: Seq<Seq<char>>)
    requires
        ascending_texts(s),
        ascending_texts(t),
        forall|x: Seq<char>| #[trigger] s.contains(x) <==> t.contains(x),
    ensures
        s == t,
    decreases s.len(),
{
    if s.len() == 0 {
        if t.len() > 0 {
            assert(t.contains(t[0]));
            assert(s.contains(t[0]));
        }
        assert(s =~= t);
    } else {
        assert(s.contains(s.last()));
        assert(t.contains(s.last()));
        let j = choose|j: int| 0 <= j < t.len() && t[j] == s.last();
        assert(t.contains(t.last()));
        assert(s.contains(t.last()));
        let i = choose|i: int| 0 <= i < s.len() && s[i] == t.last();
        if j < t.len() - 1 {
            assert(before(t[j], t[t.len() - 1]));
            if i < s.len() - 1 {
                assert(before(s[i], s[s.len() - 1]));
                before_transitive(t.last(), s.last(), t.last());
            }
            before_irreflexive(t.last());
        }
        assert(s.last() == t.last());
        let s2 = s.drop_last();
        let t2 = t.drop_last();
        before_irreflexive(s.last());
        assert forall|x: Seq<char>| #[trigger] s2.contains(x) <==> t2.contains(x) by {
            if s2.contains(x) {
                let k = choose|k: int| 0 <= k < s2.len() && s2[k] == x;
                assert(s[k] == x);
                assert(before(s[k], s[s.len() - 1]));
                assert(s.contains(x));
                let m = choose|m: int| 0 <= m < t.len() && t[m] == x;
                assert(t2[m] == x);
            }
            if t2.contains(x) {
                let k = choose|k: int| 0 <= k < t2.len() && t2[k] == x;
                assert(t[k] == x);
                assert(before(t[k], t[t.len() - 1]));
                assert(t.contains(x));
                assert(s.contains(x));
                let m = choose|m: int| 0 <= m < s.len() && s[m] == x;
                assert(s2[m] == x);
            }
        }
        ascending_texts_determined(s2, t2);
        assert(s =~= s2.push(s.last()));
        assert(t =~= t2.push(t.last()));
    }
}

/// Whether `a` comes strictly before `b`.
pub fn text_before(a: &str, b: &str) -> (r: bool)
    ensures
        r == before(a@, b@),
{
    let mut x = a.chars();
    let mut y = b.chars();
    let ghost mut n: int = 0;
    assert(a@.skip(0) =~= a@);
    assert(b@.skip(0) =~= b@);
    loop
        invariant
            0 <= n <= a@.len(),
            n <= b@.len(),
            before(a@, b@) == before(a@.skip(n), b@.skip(n)),
            vstd::std_specs::iter::IteratorSpec::remaining(&x) == a@.skip(n),
            vstd::std_specs::iter::IteratorSpec::remaining(&y) == b@.skip(n),
        decreases a@.len() - n,
    {
        match (x.next(), y.next()) {
            (_, None) => {
                return false;
            },
            (None, Some(_)) => {
                return true;
            },
            (Some(c), Some(d)) => {
                if c != d {
                    return c < d;
                }
                proof {
                    assert(a@.skip(n).drop_first() =~= a@.skip(n + 1));
                    assert(b@.skip(n).drop_first() =~= b@.skip(n + 1));
                    n = n + 1;
                }
            },
        }
    }
}

// ---------------------------------------------------------------------------
// Search
// ---------------------------------------------------------------------------

/// Whether `p` occurs in `s` at position `i`.
pub open spec fn occurs_at(s: Seq<char>, p: Seq<char>, i: int) -> bool {
    0 <= i && i + p.len() <= s.len() && s.subrange(i, i + p.len()) == p
}

/// Whether `p` occurs in `s`.
pub open spec fn occurs_in(s: Seq<char>, p: Seq<char>) -> bool {
    exists|i: int| occurs_at(s, p, i)
}

/// Whether `p` occurs in `cs` at position `i`.
pub fn matches_at(cs: &Vec<char>, p: &str, i: usize) -> (r: bool)
    requires
        i <= cs@.len(),
    ensures
        r == occurs_at(cs@, p@, i as int),
{
    let mut k: usize = i;
    for c in it: p.chars()
        invariant
            it.seq() == p@,
            i <= k <= cs@.len(),
            k == i + it.index(),
            cs@.subrange(i as int, k as int) == p@.subrange(0, it.index() as int),
    {
        if k >= cs.len() {
            return false;
        }
        if cs[k] != c {
            assert(i + p@.len() <= cs@.len() ==> cs@.subrange(i as int, i + p@.len())[k - i] == cs@[k as int]);
            return false;
        }
        k = k + 1;
        assert(cs@.subrange(i as int, k as int) =~= cs@.subrange(i as int, k - 1).push(c));
        assert(p@.subrange(0, it.index() + 1) =~= p@.subrange(0, it.index() as int).push(c));
    }
    assert(p@.subrange(0, p@.len() as int) =~= p@);
    true
}

/// Whether `p` occurs somewhere in `s`.
pub fn contains_text(s: &str, p: &str) -> (r: bool)
    ensures
        r == occurs_in(s@, p@),
{
    let cs = chars_of(s);
    let mut i: usize = 0;
    loop
        invariant
            cs@ == s@,
            0 <= i <= cs@.len(),
            forall|j: int| 0 <= j < i ==> !occurs_at(s@, p@, j),
        decreases cs@.len() - i,
    {
        if matches_at(&cs, p, i) {
            return true;
        }
        if i >= cs.len() {
            return false;
        }
        i = i + 1;
    }
}

/// Whether `s` starts with `p`.
pub fn starts_with(s: &str, p: &str) -> (r: bool)
    ensures
        r == occurs_at(s@, p@, 0),
{
    let cs = chars_of(s);
    matches_at(&cs, p, 0)
}

// ---------------------------------------------------------------------------
// White space
// ---------------------------------------------------------------------------

/// The characters with Unicode's `White_Space` property.
pub open spec fn is_space(c: char) -> bool {
    ||| '\t' <= c <= '\r'
    ||| c == ' '
    ||| c == '\u{85}'
    ||| c == '\u{a0}'
    ||| c == '\u{1680}'
    ||| '\u{2000}' <= c <= '\u{200a}'
    ||| c == '\u{2028}'
    ||| c == '\u{2029}'
    ||| c == '\u{202f}'
    ||| c == '\u{205f}'
    ||| c == '\u{3000}'
}

/// Whether `c` is white space.
pub fn space(c: char) -> (r: bool)
    ensures
        r == is_space(c),
{
    ('\t' <= c && c <= '\r') || c == ' ' || c == '\u{85}' || c == '\u{a0}' || c == '\u{1680}' || (
    '\u{2000}' <= c && c <= '\u{200a}') || c == '\u{2028}' || c == '\u{2029}' || c == '\u{202f}' || c
        == '\u{205f}' || c == '\u{3000}'
}

/// `s` without the white space at its end.
pub open spec fn trimmed_end(s: Seq<char>) -> Seq<char>
    decreases s.len(),
{
    if s.len() > 0 && is_space(s.last()) {
        trimmed_end(s.drop_last())
    } else {
        s
    }
}

/// `s` without the white space at its start.
pub open spec fn trimmed_start(s: Seq<char>) -> Seq<char>
    decreases s.len(),
{
    if s.len() > 0 && is_space(s[0]) {
        trimmed_start(s.drop_first())
    } else {
        s
    }
}

/// `s` without the white space around it.
pub open spec fn trimmed(s: Seq<char>) -> Seq<char> {
    trimmed_end(trimmed_start(s))
}

/// Trimming keeps what occurs in a text, unless that starts or ends with white space itself.
pub proof fn trimming_keeps(s: Seq<char>, p: Seq<char>)
    requires
        occurs_in(s, p),
        p.len() > 0,
        !is_space(p[0]),
        !is_space(p.last()),
    ensures
        occurs_in(trimmed(s), p),
{
    trimming_start_keeps(s, p);
    trimming_end_keeps(trimmed_start(s), p);
}

/// So does trimming the start.
proof fn trimming_start_keeps(s: Seq<char>, p: Seq<char>)
    requires
        occurs_in(s, p),
        p.len() > 0,
        !is_space(p[0]),
    ensures
        occurs_in(trimmed_start(s), p),
    decreases s.len(),
{
    let i = choose|i: int| occurs_at(s, p, i);
    if s.len() > 0 && is_space(s[0]) {
        assert(s.subrange(i, i + p.len())[0] == s[i]);
        let t = s.drop_first();
        assert(t.subrange(i - 1, i - 1 + p.len()) =~= s.subrange(i, i + p.len()));
        assert(occurs_at(t, p, i - 1));
        trimming_start_keeps(t, p);
    }
}

/// So does trimming the end.
proof fn trimming_end_keeps(s: Seq<char>, p: Seq<char>)
    requires
        occurs_in(s, p),
        p.len() > 0,
        !is_space(p.last()),
    ensures
        occurs_in(trimmed_end(s), p),
    decreases s.len(),
{
    let i = choose|i: int| occurs_at(s, p, i);
    if s.len() > 0 && is_space(s.last()) {
        assert(s.subrange(i, i + p.len()).last() == s[i + p.len() - 1]);
        let t = s.drop_last();
        assert(t.subrange(i, i + p.len()) =~= s.subrange(i, i + p.len()));
        assert(occurs_at(t, p, i));
        trimming_end_keeps(t, p);
    }
}

/// What occurs in a text occurs in a longer one.
pub proof fn occurs_behind(a: Seq<char>, s: Seq<char>, p: Seq<char>)
    requires
        occurs_in(s, p),
    ensures
        occurs_in(a + s, p),
{
    let i = choose|i: int| occurs_at(s, p, i);
    let at = a.len() + i;
    assert((a + s).subrange(at, at + p.len()) =~= s.subrange(i, i + p.len()));
    assert(occurs_at(a + s, p, at));
}

/// Where the text without trailing white space ends, in the characters from `from` on.
fn end_of_text(cs: &Vec<char>, from: usize) -> (to: usize)
    requires
        from <= cs@.len(),
    ensures
        from <= to <= cs@.len(),
        cs@.subrange(from as int, to as int) == trimmed_end(cs@.skip(from as int)),
{
    let mut to: usize = cs.len();
    assert(cs@.subrange(from as int, to as int) =~= cs@.skip(from as int));
    while to > from && space(cs[to - 1])
        invariant
            from <= to <= cs@.len(),
            trimmed_end(cs@.subrange(from as int, to as int)) == trimmed_end(
                cs@.skip(from as int),
            ),
        ensures
            from <= to <= cs@.len(),
            to == from || !is_space(cs@[to - 1]),
            trimmed_end(cs@.subrange(from as int, to as int)) == trimmed_end(
                cs@.skip(from as int),
            ),
        decreases to,
    {
        assert(cs@.subrange(from as int, to as int).drop_last() =~= cs@.subrange(
            from as int,
            to - 1,
        ));
        to = to - 1;
    }
    to
}

/// `s` without the white space at its end.
pub fn trim_end(s: &str) -> (r: String)
    ensures
        r@ == trimmed_end(s@),
{
    let cs = chars_of(s);
    let to = end_of_text(&cs, 0);
    assert(cs@.skip(0) =~= s@);
    slice_text(&cs, 0, to)
}

/// `s` without the white space around it.
pub fn trim(s: &str) -> (r: String)
    ensures
        r@ == trimmed(s@),
{
    let cs = chars_of(s);
    let mut from: usize = 0;
    assert(cs@.skip(0) =~= s@);
    while from < cs.len() && space(cs[from])
        invariant
            cs@ == s@,
            from <= cs@.len(),
            trimmed_start(cs@.skip(from as int)) == trimmed_start(s@),
        ensures
            from <= cs@.len(),
            from == cs@.len() || !is_space(cs@[from as int]),
            trimmed_start(cs@.skip(from as int)) == trimmed_start(s@),
        decreases cs@.len() - from,
    {
        assert(cs@.skip(from as int).drop_first() =~= cs@.skip(from + 1));
        from = from + 1;
    }
    let to = end_of_text(&cs, from);
    slice_text(&cs, from, to)
}

// ---------------------------------------------------------------------------
// Decimal numbers
// ---------------------------------------------------------------------------

/// The character of the decimal digit `d`.
pub open spec fn digit_char(d: nat) -> char {
    if d == 0 {
        '0'
    } else if d == 1 {
        '1'
    } else if d == 2 {
        '2'
    } else if d == 3 {
        '3'
    } else if d == 4 {
        '4'
    } else if d == 5 {
        '5'
    } else if d == 6 {
        '6'
    } else if d == 7 {
        '7'
    } else if d == 8 {
        '8'
    } else {
        '9'
    }
}

/// Whether `c` is an ASCII decimal digit.
pub open spec fn is_digit(c: char) -> bool {
    '0' <= c <= '9'
}

/// The value of an ASCII decimal digit.
pub open spec fn digit_value(c: char) -> nat {
    if c == '0' {
        0
    } else if c == '1' {
        1
    } else if c == '2' {
        2
    } else if c == '3' {
        3
    } else if c == '4' {
        4
    } else if c == '5' {
        5
    } else if c == '6' {
        6
    } else if c == '7' {
        7
    } else if c == '8' {
        8
    } else {
        9
    }
}

/// `n` in decimal, without leading zeros.
pub open spec fn decimal(n: nat) -> Seq<char>
    decreases n,
{
    if n < 10 {
        seq![digit_char(n)]
    } else {
        decimal(n / 10).push(digit_char(n % 10))
    }
}

/// Whether every character of `s` is an ASCII digit.
pub open spec fn all_digits(s: Seq<char>) -> bool {
    forall|i: int| 0 <= i < s.len() ==> is_digit(#[trigger] s[i])
}

/// The number that a run of digits stands for.
pub open spec fn digits_value(s: Seq<char>) -> nat
    decreases s.len(),
{
    if s.len() == 0 {
        0
    } else {
        10 * digits_value(s.drop_last()) + digit_value(s.last())
    }
}

/// Reading back the decimal form of a number gives the number.
pub proof fn decimal_reads_back(n: nat)
    ensures
        decimal(n).len() > 0,
        all_digits(decimal(n)),
        digits_value(decimal(n)) == n,
    decreases n,
{
    if n < 10 {
        assert(decimal(n).drop_last() =~= Seq::<char>::empty());
        assert(digits_value(Seq::<char>::empty()) == 0);
    } else {
        decimal_reads_back(n / 10);
        let d = decimal(n / 10);
        assert(d.push(digit_char(n % 10)).drop_last() =~= d);
        assert forall|i: int| 0 <= i < decimal(n).len() implies is_digit(
            #[trigger] decimal(n)[i],
        ) by {
            if i < d.len() {
                assert(decimal(n)[i] == d[i]);
            }
        }
    }
}

/// Extending a run of digits never makes its value smaller.
proof fn digits_value_grows(s: Seq<char>, n: int)
    requires
        0 <= n <= s.len(),
    ensures
        digits_value(s.subrange(0, n)) <= digits_value(s),
    decreases s.len() - n,
{
    if n == s.len() {
        assert(s.subrange(0, n) =~= s);
    } else {
        digits_value_grows(s, n + 1);
        assert(s.subrange(0, n + 1).drop_last() =~= s.subrange(0, n));
    }
}

/// The character of the decimal digit `d`.
fn digit(d: u64) -> (c: char)
    requires
        d < 10,
    ensures
        c == digit_char(d as nat),
{
    match d {
        0 => '0',
        1 => '1',
        2 => '2',
        3 => '3',
        4 => '4',
        5 => '5',
        6 => '6',
        7 => '7',
        8 => '8',
        _ => '9',
    }
}

/// The value of the digit `c`.
pub fn value_of_digit(c: char) -> (d: u64)
    requires
        is_digit(c),
    ensures
        d == digit_value(c),
        d < 10,
{
    match c {
        '0' => 0,
        '1' => 1,
        '2' => 2,
        '3' => 3,
        '4' => 4,
        '5' => 5,
        '6' => 6,
        '7' => 7,
        '8' => 8,
        _ => 9,
    }
}

/// `n` in decimal.
pub fn decimal_text(n: u64) -> (r: String)
    ensures
        r@ == decimal(n as nat),
    decreases n,
{
    if n < 10 {
        let mut r = String::new();
        push_char(&mut r, digit(n));
        assert(r@ =~= seq![digit_char(n as nat)]);
        r
    } else {
        let mut r = decimal_text(n / 10);
        push_char(&mut r, digit(n % 10));
        r
    }
}

/// What `s` denotes as an unsigned number of at most `u64::MAX`: one or more ASCII digits.
pub open spec fn number(s: Seq<char>) -> Option<u64> {
    if s.len() > 0 && all_digits(s) && digits_value(s) <= u64::MAX {
        Some(digits_value(s) as u64)
    } else {
        None
    }
}

/// Reads the characters at `from..to` as an unsigned number.
pub fn read_number(cs: &Vec<char>, from: usize, to: usize) -> (r: Option<u64>)
    requires
        from <= to <= cs@.len(),
    ensures
        r == number(cs@.subrange(from as int, to as int)),
{
    let ghost s = cs@.subrange(from as int, to as int);
    if from == to {
        return None;
    }
    let mut n: u64 = 0;
    let mut i: usize = from;
    while i < to
        invariant
            from <= i <= to <= cs@.len(),
            s == cs@.subrange(from as int, to as int),
            all_digits(s.subrange(0, i - from)),
            n == digits_value(s.subrange(0, i - from)),
        decreases to - i,
    {
        let c = cs[i];
        assert(s[i - from] == c);
        if !('0' <= c && c <= '9') {
            return None;
        }
        let d = value_of_digit(c);
        proof {
            assert(s.subrange(0, i + 1 - from).drop_last() =~= s.subrange(0, i - from));
            digits_value_grows(s, i + 1 - from);
        }
        let m: u64 = match n.checked_mul(10) {
            Some(m) => m,
            None => {
                return None;
            },
        };
        n = match m.checked_add(d) {
            Some(v) => v,
            None => {
                return None;
            },
        };
        i = i + 1;
    }
    assert(s.subrange(0, to - from) =~= s);
    Some(n)
}

/// What `s` denotes as a `u64` in the syntax of Rust's integer parser: an optional `+`
/// and one or more ASCII digits.
pub open spec fn unsigned(s: Seq<char>) -> Option<u64> {
    if s.len() > 0 && s[0] == '+' {
        number(s.drop_first())
    } else {
        number(s)
    }
}

/// Reads `s` as a `u64`.
pub fn parse_unsigned(s: &str) -> (r: Option<u64>)
    ensures
        r == unsigned(s@),
{
    let cs = chars_of(s);
    let n: usize = cs.len();
    if n > 0 && cs[0] == '+' {
        assert(cs@.subrange(1, n as int) =~= s@.drop_first());
        read_number(&cs, 1, n)
    } else {
        assert(cs@.subrange(0, n as int) =~= s@);
        read_number(&cs, 0, n)
    }
}

/// What `s` denotes as an `i32` in the syntax of Rust's integer parser: an optional sign
/// and one or more ASCII digits.
pub open spec fn signed(s: Seq<char>) -> Option<i32> {
    if s.len() > 0 && s[0] == '-' {
        match number(s.drop_first()) {
            Some(n) if n <= 0x8000_0000 => Some((-n) as i32),
            _ => None,
        }
    } else {
        match unsigned(s) {
            Some(n) if n <= 0x7fff_ffff => Some(n as i32),
            _ => None,
        }
    }
}

/// Reads `s` as an `i32`.
pub fn parse_signed(s: &str) -> (r: Option<i32>)
    ensures
        r == signed(s@),
{
    let cs = chars_of(s);
    let n: usize = cs.len();
    if n > 0 && cs[0] == '-' {
        assert(cs@.subrange(1, n as int) =~= s@.drop_first());
        match read_number(&cs, 1, n) {
            Some(v) => {
                if v <= 0x8000_0000 {
                    Some((-(v as i64)) as i32)
                } else {
                    None
                }
            },
            None => None,
        }
    } else {
        match parse_unsigned(s) {
            Some(v) => {
                if v <= 0x7fff_ffff {
                    Some(v as i32)
                } else {
                    None
                }
            },
            None => None,
        }
    }
}

// ---------------------------------------------------------------------------
// Laws
// ---------------------------------------------------------------------------

/// Whether a text has nothing in it but white space.
pub open spec fn is_blank(s: Seq<char>) -> bool {
    forall|i: int| 0 <= i < s.len() ==> is_space(#[trigger] s[i])
}

/// What is cut off in front.
proof fn start_cut(s: Seq<char>) -> (a: int)
    ensures
        0 <= a <= s.len(),
        trimmed_start(s) == s.subrange(a, s.len() as int),
        is_blank(s.subrange(0, a)),
        a < s.len() ==> !is_space(s[a]),
    decreases s.len(),
{
    if s.len() > 0 && is_space(s[0]) {
        let t = s.drop_first();
        let b = start_cut(t);
        assert(t.subrange(b, t.len() as int) =~= s.subrange(b + 1, s.len() as int));
        assert(is_blank(s.subrange(0, b + 1))) by {
            let u = s.subrange(0, b + 1);
            assert forall|i: int| 0 <= i < u.len() implies is_space(#[trigger] u[i]) by {
                if i > 0 {
                    assert(t.subrange(0, b)[i - 1] == u[i]);
                }
            }
        }
        b + 1
    } else {
        assert(s.subrange(0, s.len() as int) =~= s);
        0
    }
}

/// What is cut off behind.
proof fn end_cut(s: Seq<char>) -> (b: int)
    ensures
        0 <= b <= s.len(),
        trimmed_end(s) == s.subrange(0, b),
        is_blank(s.subrange(b, s.len() as int)),
        b > 0 ==> !is_space(s[b - 1]),
    decreases s.len(),
{
    if s.len() > 0 && is_space(s.last()) {
        let t = s.drop_last();
        let b = end_cut(t);
        assert(t.subrange(0, b) =~= s.subrange(0, b));
        assert(is_blank(s.subrange(b, s.len() as int))) by {
            let u = s.subrange(b, s.len() as int);
            assert forall|i: int| 0 <= i < u.len() implies is_space(#[trigger] u[i]) by {
                if i < u.len() - 1 {
                    assert(t.subrange(b, t.len() as int)[i] == u[i]);
                }
            }
        }
        b
    } else {
        assert(s.subrange(0, s.len() as int) =~= s);
        s.len() as int
    }
}

/// Trimming takes white space off both ends, all of it, and nothing else.
pub proof fn trimming_takes_off_the_ends(s: Seq<char>)
    ensures
        exists|a: int, b: int|
            {
                &&& 0 <= a <= b <= s.len()
                &&& trimmed(s) == #[trigger] s.subrange(a, b)
                &&& is_blank(s.subrange(0, a))
                &&& is_blank(s.subrange(b, s.len() as int))
                &&& a < b ==> !is_space(s[a]) && !is_space(s[b - 1])
            },
{
    let a = start_cut(s);
    let t = trimmed_start(s);
    let c = end_cut(t);
    let b = a + c;
    assert(t.subrange(0, c) =~= s.subrange(a, b));
    assert(t.subrange(c, t.len() as int) =~= s.subrange(b, s.len() as int));
    if a < b {
        assert(t[0] == s[a]);
        assert(t[c - 1] == s[b - 1]);
    }
}

/// A text is trimmed down to nothing exactly if it is blank.
pub proof fn only_blank_texts_trim_to_nothing(s: Seq<char>)
    ensures
        trimmed(s).len() == 0 <==> is_blank(s),
{
    let a = start_cut(s);
    let t = trimmed_start(s);
    let c = end_cut(t);
    if is_blank(s) {
        if a < s.len() {
            assert(is_space(s[a]));
        }
    } else {
        let i = choose|i: int| 0 <= i < s.len() && !is_space(s[i]);
        if i < a {
            assert(is_space(s.subrange(0, a)[i]));
        }
        assert(t[i - a] == s[i]);
        if c <= i - a {
            assert(is_space(t.subrange(c, t.len() as int)[i - a - c]));
        }
    }
}

/// Trimming a second time changes nothing, nor does white space that is put around a text.
pub proof fn trimming_is_idempotent(s: Seq<char>)
    ensures
        trimmed(trimmed(s)) == trimmed(s),
{
    let a = start_cut(s);
    let t = trimmed_start(s);
    let c = end_cut(t);
    let u = trimmed(s);
    if u.len() > 0 {
        assert(u[0] == t[0] && t[0] == s[a]);
        assert(u.last() == t[c - 1]);
    }
}

/// The blank, the tabulators and the line ends of a keyboard are white space; what a keyboard
/// prints is not.
pub proof fn printed_characters_are_no_space(c: char)
    ensures
        (c == ' ' || c == '\t' || c == '\n' || c == '\r') ==> is_space(c),
        '!' <= c <= '~' ==> !is_space(c),
{
}

/// A text comes before another where they part: at the first character in which they differ, or
/// where it ends and the other goes on.
pub proof fn order_is_by_first_difference(a: Seq<char>, b: Seq<char>)
    ensures
        before(a, b) <==> exists|k: int|
            {
                &&& 0 <= k <= a.len()
                &&& k < b.len()
                &&& a.subrange(0, k) == #[trigger] b.subrange(0, k)
                &&& k == a.len() || (a[k] as int) < (b[k] as int)
            },
    decreases a.len(),
{
    if a.len() > 0 && b.len() > 0 && a[0] == b[0] {
        let x = a.drop_first();
        let y = b.drop_first();
        order_is_by_first_difference(x, y);
        if before(x, y) {
            let k = choose|k: int|
                {
                    &&& 0 <= k <= x.len()
                    &&& k < y.len()
                    &&& x.subrange(0, k) == #[trigger] y.subrange(0, k)
                    &&& k == x.len() || (x[k] as int) < (y[k] as int)
                };
            assert(a.subrange(0, k + 1) =~= seq![a[0]] + x.subrange(0, k));
            assert(b.subrange(0, k + 1) =~= seq![b[0]] + y.subrange(0, k));
            assert(a.subrange(0, k + 1) == b.subrange(0, k + 1));
        }
        if exists|k: int|
            {
                &&& 0 <= k <= a.len()
                &&& k < b.len()
                &&& a.subrange(0, k) == #[trigger] b.subrange(0, k)
                &&& k == a.len() || (a[k] as int) < (b[k] as int)
            } {
            let k = choose|k: int|
                {
                    &&& 0 <= k <= a.len()
                    &&& k < b.len()
                    &&& a.subrange(0, k) == #[trigger] b.subrange(0, k)
                    &&& k == a.len() || (a[k] as int) < (b[k] as int)
                };
            assert(k > 0);
            assert(x.subrange(0, k - 1) =~= a.subrange(0, k).drop_first());
            assert(y.subrange(0, k - 1) =~= b.subrange(0, k).drop_first());
            assert(x.subrange(0, k - 1) == y.subrange(0, k - 1));
        }
    } else {
        if before(a, b) {
            assert(a.subrange(0, 0) =~= b.subrange(0, 0));
        }
        if exists|k: int|
            {
                &&& 0 <= k <= a.len()
                &&& k < b.len()
                &&& a.subrange(0, k) == #[trigger] b.subrange(0, k)
                &&& k == a.len() || (a[k] as int) < (b[k] as int)
            } {
            let k = choose|k: int|
                {
                    &&& 0 <= k <= a.len()
                    &&& k < b.len()
                    &&& a.subrange(0, k) == #[trigger] b.subrange(0, k)
                    &&& k == a.len() || (a[k] as int) < (b[k] as int)
                };
            if k > 0 {
                assert(a.subrange(0, k)[0] == b.subrange(0, k)[0]);
            }
        }
    }
}

/// A text occurs in another exactly if the other is made of it with something in front and
/// something behind.
pub proof fn occurring_is_standing_between(s: Seq<char>, p: Seq<char>)
    ensures
        occurs_in(s, p) <==> exists|a: Seq<char>, b: Seq<char>| s == #[trigger] (a + p + b),
{
    if occurs_in(s, p) {
        let i = choose|i: int| occurs_at(s, p, i);
        let a = s.subrange(0, i);
        let b = s.subrange(i + p.len(), s.len() as int);
        assert(s.subrange(i, i + p.len()) == p);
        assert(s =~= a + s.subrange(i, i + p.len()) + b);
        assert(s == a + p + b);
    }
    if exists|a: Seq<char>, b: Seq<char>| s == #[trigger] (a + p + b) {
        let (a, b) = choose|a: Seq<char>, b: Seq<char>| s == #[trigger] (a + p + b);
        assert(s.subrange(a.len() as int, a.len() + p.len() as int) =~= p);
        assert(occurs_at(s, p, a.len() as int));
    }
}

/// Words that are put into a row can be put together in stretches.
pub proof fn rows_join(x: Seq<Seq<char>>, y: Seq<Seq<char>>, sep: Seq<char>)
    requires
        x.len() > 0,
        y.len() > 0,
    ensures
        separated(x + y, sep) == separated(x, sep) + sep + separated(y, sep),
    decreases y.len(),
{
    let all = x + y;
    if y.len() == 1 {
        assert(all.drop_last() =~= x);
        assert(all.last() == y[0]);
    } else {
        let z = y.drop_last();
        rows_join(x, z, sep);
        assert(all.drop_last() =~= x + z);
        assert(all.last() == y.last());
        assert(separated(x, sep) + sep + separated(z, sep) + sep + y.last() =~= separated(x, sep)
            + sep + (separated(z, sep) + sep + y.last()));
    }
}

/// A row of one word is the word; one of none is empty.
pub proof fn short_rows(w: Seq<char>, sep: Seq<char>)
    ensures
        separated(seq![w], sep) == w,
        separated(Seq::<Seq<char>>::empty(), sep) == Seq::<char>::empty(),
{
}

/// The digits are the characters that follow `0`, and mean how far they follow it.
pub proof fn digits_count_up(d: nat)
    requires
        d < 10,
    ensures
        digit_char(d) as int == '0' as int + d,
        digit_value(digit_char(d)) == d,
        is_digit(digit_char(d)),
        !is_digit('/'),
        !is_digit(':'),
{
}

/// The decimal digits of a number start with a zero only if the number is zero.
pub proof fn numbers_have_no_leading_zero(n: nat)
    ensures
        decimal(n)[0] == '0' <==> n == 0,
        decimal(n).len() > 0,
    decreases n,
{
    if n >= 10 {
        numbers_have_no_leading_zero(n / 10);
    }
}

/// A number reads back, with a plus sign in front too; what has another character in it than
/// digits is no number.
pub proof fn numbers_read_back(n: u64, s: Seq<char>)
    ensures
        number(decimal(n as nat)) == Some(n),
        unsigned(decimal(n as nat)) == Some(n),
        unsigned(seq!['+'] + decimal(n as nat)) == Some(n),
        s.len() == 0 || (exists|i: int| 0 <= i < s.len() && !('0' <= #[trigger] s[i] <= '9'))
            ==> number(s) is None,
{
    decimal_reads_back(n as nat);
    let d = decimal(n as nat);
    assert((seq!['+'] + d).drop_first() =~= d);
    assert(is_digit(d[0]));
    if exists|i: int| 0 <= i < s.len() && !('0' <= #[trigger] s[i] <= '9') {
        let i = choose|i: int| 0 <= i < s.len() && !('0' <= #[trigger] s[i] <= '9');
        assert(!is_digit(s[i]));
    }
}

/// A number of 32 bits reads back, with its sign.
pub proof fn signed_numbers_read_back(n: i32)
    ensures
        n >= 0 ==> signed(decimal(n as nat)) == Some(n),
        n < 0 ==> signed(seq!['-'] + decimal((-n) as nat)) == Some(n),
{
    if n >= 0 {
        numbers_read_back(n as u64, Seq::empty());
        decimal_reads_back(n as nat);
        assert(is_digit(decimal(n as nat)[0]));
    } else {
        let m = (-n) as nat;
        numbers_read_back(m as u64, Seq::empty());
        assert((seq!['-'] + decimal(m)).drop_first() =~= decimal(m));
        assert(number(decimal(m)) == Some(m as u64));
        assert((-(m as u64)) as i32 == n);
    }
}

/// A zero in front of digits changes nothing of their value, and a digit behind them makes them
/// count ten times as much.
pub proof fn places_count_tenfold(s: Seq<char>, d: nat)
    requires
        d < 10,
    ensures
        digits_value(seq!['0'] + s) == digits_value(s),
        digits_value(s.push(digit_char(d))) == 10 * digits_value(s) + d,
    decreases s.len(),
{
    assert(s.push(digit_char(d)).drop_last() =~= s);
    digits_count_up(d);
    let t = seq!['0'] + s;
    if s.len() == 0 {
        assert(t.drop_last() =~= s);
        assert(digits_value(s) == 0);
    } else {
        places_count_tenfold(s.drop_last(), d);
        assert(t.drop_last() =~= seq!['0'] + s.drop_last());
        assert(t.last() == s.last());
    }
}

/// White space in front of a text is cut off in front.
proof fn padding_in_front(a: Seq<char>, t: Seq<char>)
    requires
        is_blank(a),
        t.len() == 0 || !is_space(t[0]),
    ensures
        trimmed_start(a + t) == t,
    decreases a.len(),
{
    if a.len() == 0 {
        assert(a + t =~= t);
    } else {
        let rest = a.drop_first();
        assert(is_space(a[0]));
        assert forall|i: int| 0 <= i < rest.len() implies is_space(#[trigger] rest[i]) by {
            assert(is_space(a[i + 1]));
        }
        padding_in_front(rest, t);
        assert((a + t).drop_first() =~= rest + t);
        assert((a + t)[0] == a[0]);
    }
}

/// White space behind a text is cut off behind.
proof fn padding_behind(t: Seq<char>, b: Seq<char>)
    requires
        is_blank(b),
        t.len() == 0 || !is_space(t.last()),
    ensures
        trimmed_end(t + b) == t,
    decreases b.len(),
{
    if b.len() == 0 {
        assert(t + b =~= t);
    } else {
        let rest = b.drop_last();
        assert(is_space(b[b.len() - 1]));
        assert forall|i: int| 0 <= i < rest.len() implies is_space(#[trigger] rest[i]) by {
            assert(is_space(b[i]));
        }
        padding_behind(t, rest);
        assert((t + b).drop_last() =~= t + rest);
        assert((t + b).last() == b.last());
    }
}

/// A text that has no white space at its ends comes out of trimming as it is, whatever white space
/// is put around it.
pub proof fn padding_is_trimmed(a: Seq<char>, s: Seq<char>, b: Seq<char>)
    requires
        is_blank(a),
        is_blank(b),
        s.len() > 0,
        !is_space(s[0]),
        !is_space(s[s.len() - 1]),
    ensures
        trimmed(a + s + b) == s,
        trimmed_end(s + b) == s,
{
    assert(a + s + b =~= a + (s + b));
    assert((s + b)[0] == s[0]);
    padding_in_front(a, s + b);
    padding_behind(s, b);
}

/// A text loses nothing but white space at its end, all of it, when its end is trimmed; nothing is
/// left exactly if it is blank.
pub proof fn trimming_the_end_takes_off_the_end(s: Seq<char>)
    ensures
        trimmed_end(s).len() == 0 <==> is_blank(s),
        exists|b: int|
            {
                &&& 0 <= b <= s.len()
                &&& trimmed_end(s) == #[trigger] s.subrange(0, b)
                &&& is_blank(s.subrange(b, s.len() as int))
                &&& b > 0 ==> !is_space(s[b - 1])
            },
{
    let b = end_cut(s);
    if b == 0 {
        assert(s.subrange(0, s.len() as int) =~= s);
    } else {
        assert(!is_space(s[b - 1]));
    }
}

/// The white space of Unicode, character by character.
pub open spec fn white_space() -> Seq<int> {
    seq![
        0x9,
        0xa,
        0xb,
        0xc,
        0xd,
        0x20,
        0x85,
        0xa0,
        0x1680,
        0x2000,
        0x2001,
        0x2002,
        0x2003,
        0x2004,
        0x2005,
        0x2006,
        0x2007,
        0x2008,
        0x2009,
        0x200a,
        0x2028,
        0x2029,
        0x202f,
        0x205f,
        0x3000,
    ]
}

/// White space is what Unicode takes for it, and nothing else.
pub proof fn white_space_is_that_of_unicode(c: char)
    ensures
        is_space(c) <==> white_space().contains(c as int),
{
    let n = c as int;
    let w = white_space();
    if is_space(c) {
        let i: int = if 0x9 <= n <= 0xd {
            n - 0x9
        } else if n == 0x20 {
            5
        } else if n == 0x85 {
            6
        } else if n == 0xa0 {
            7
        } else if n == 0x1680 {
            8
        } else if 0x2000 <= n <= 0x200a {
            n - 0x2000 + 9
        } else if n == 0x2028 {
            20
        } else if n == 0x2029 {
            21
        } else if n == 0x202f {
            22
        } else if n == 0x205f {
            23
        } else {
            24
        };
        assert(w[i] == n);
    }
}

} // verus!
