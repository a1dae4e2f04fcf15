//! Character-level helpers: trimming, splitting on a separator and decimal
//! numbers, each stated over `Seq<char>`.
use vstd::prelude::*;

verus! {

/// Relies on `str::chars` collected into a `Vec`: the characters of `s`, in order.
#[verifier::external_body]
pub(crate) fn chars_of(s: &str) -> (r: Vec<char>)
    ensures
        r@ == s@,
{
    s.chars().collect()
}

/// Relies on `String: FromIterator<&char>`: the string made of the characters
/// `v[a..b]`, in order.
#[verifier::external_body]
pub(crate) fn string_of_range(v: &[char], a: usize, b: usize) -> (r: String)
    requires
        a <= b <= v@.len(),
    ensures
        r@ == v@.subrange(a as int, b as int),
{
    v[a..b].iter().collect()
}

pub(crate) fn string_of(v: &[char]) -> (r: String)
    ensures
        r@ == v@,
{
    let r = string_of_range(v, 0, v.len());
    assert(v@.subrange(0, v@.len() as int) =~= v@);
    r
}

/// The whitespace that trimming removes.
pub open spec fn is_space(c: char) -> bool {
    c == ' ' || c == '\t' || c == '\n' || c == '\r' || c == '\x0B' || c == '\x0C'
}

pub open spec fn trim_start(s: Seq<char>) -> Seq<char>
    decreases s.len(),
{
    if s.len() > 0 && is_space(s[0]) {
        trim_start(s.drop_first())
    } else {
        s
    }
}

pub open spec fn trim_end(s: Seq<char>) -> Seq<char>
    decreases s.len(),
{
    if s.len() > 0 && is_space(s.last()) {
        trim_end(s.drop_last())
    } else {
        s
    }
}

/// `s` without leading and trailing whitespace.
pub open spec fn trim(s: Seq<char>) -> Seq<char> {
    trim_end(trim_start(s))
}

/// A text with no whitespace at either end.
pub open spec fn is_trimmed(s: Seq<char>) -> bool {
    s.len() > 0 ==> !is_space(s[0]) && !is_space(s.last())
}

pub fn is_space_char(c: char) -> (r: bool)
    ensures
        r == is_space(c),
{
    c == ' ' || c == '\t' || c == '\n' || c == '\r' || c == '\x0B' || c == '\x0C'
}

/// The bounds of `trim(s[lo..hi])` inside `s`.
pub fn trim_span(s: &Vec<char>, lo: usize, hi: usize) -> (r: (usize, usize))
    requires
        lo <= hi <= s@.len(),
    ensures
        lo <= r.0 <= r.1 <= hi,
        s@.subrange(r.0 as int, r.1 as int) == trim(s@.subrange(lo as int, hi as int)),
{
    let mut a: usize = lo;
    while a < hi && is_space_char(s[a])
        invariant
            lo <= a <= hi <= s@.len(),
            trim_start(s@.subrange(lo as int, hi as int)) == trim_start(
                s@.subrange(a as int, hi as int),
            ),
        decreases hi - a,
    {
        assert(s@.subrange(a as int, hi as int).drop_first() =~= s@.subrange(
            a + 1,
            hi as int,
        ));
        a = a + 1;
    }
    proof {
        if a < hi {
            assert(s@.subrange(a as int, hi as int)[0] == s@[a as int]);
        }
    }
    let mut b: usize = hi;
    while b > a && is_space_char(s[b - 1])
        invariant
            lo <= a <= b <= hi <= s@.len(),
            trim(s@.subrange(lo as int, hi as int)) == trim_end(s@.subrange(a as int, b as int)),
        decreases b - a,
    {
        assert(s@.subrange(a as int, b as int).drop_last() =~= s@.subrange(
            a as int,
            b - 1,
        ));
        b = b - 1;
    }
    proof {
        if b > a {
            assert(s@.subrange(a as int, b as int).last() == s@[b - 1]);
        }
    }
    (a, b)
}

/// Trimming a text that has no whitespace at either end keeps it.
pub proof fn lemma_trim_trimmed(s: Seq<char>)
    requires
        is_trimmed(s),
    ensures
        trim(s) == s,
{
}

/// Index of the first `c` in `s`, or `s.len()` where there is none.
pub open spec fn find_char(s: Seq<char>, c: char) -> nat
    decreases s.len(),
{
    if s.len() == 0 {
        0
    } else if s[0] == c {
        0
    } else {
        1 + find_char(s.drop_first(), c)
    }
}

/// `s` cut at each `c`, into at most `n` pieces: the last piece keeps the rest.
pub open spec fn split_n(s: Seq<char>, c: char, n: nat) -> Seq<Seq<char>>
    decreases s.len(),
{
    let i = find_char(s, c) as int;
    if n <= 1 || i >= s.len() {
        seq![s]
    } else {
        seq![s.subrange(0, i as int)] + split_n(s.subrange(i + 1 as int, s.len() as int), c, (n - 1) as nat)
    }
}

/// At most `n` pieces come out.
pub proof fn lemma_split_n_len(s: Seq<char>, c: char, n: nat)
    requires
        n >= 1,
    ensures
        1 <= split_n(s, c, n).len() <= n,
    decreases s.len(),
{
    let i = find_char(s, c) as int;
    if n > 1 && i < s.len() {
        lemma_split_n_len(s.subrange(i + 1, s.len() as int), c, (n - 1) as nat);
    }
}

proof fn lemma_find_char(s: Seq<char>, c: char, i: int)
    requires
        0 <= i <= s.len(),
        forall|j: int| 0 <= j < i ==> s[j] != c,
        i == s.len() || s[i] == c,
    ensures
        find_char(s, c) == i,
    decreases i,
{
    if i > 0 {
        lemma_find_char(s.drop_first(), c, i - 1);
    }
}

/// The spans of `split_n(s[lo..hi], c, n)` inside `s`.
pub fn split_spans(s: &Vec<char>, lo: usize, hi: usize, c: char, n: usize) -> (r: Vec<(usize, usize)>)
    requires
        lo <= hi <= s@.len(),
        n >= 1,
    ensures
        r@.len() == split_n(s@.subrange(lo as int, hi as int), c, n as nat).len(),
        forall|j: int|
            0 <= j < r@.len() ==> lo <= (#[trigger] r@[j]).0 <= r@[j].1 <= hi && s@.subrange(
                r@[j].0 as int,
                r@[j].1 as int,
            ) == split_n(s@.subrange(lo as int, hi as int), c, n as nat)[j],
{
    let ghost whole = split_n(s@.subrange(lo as int, hi as int), c, n as nat);
    let mut r: Vec<(usize, usize)> = Vec::new();
    let mut st: usize = lo;
    let mut i: usize = lo;
    while i < hi && r.len() + 1 < n
        invariant
            lo <= st <= i <= hi <= s@.len(),
            r@.len() < n,
            forall|j: int| st <= j < i ==> s@[j] != c,
            whole == Seq::new(
                r@.len() as nat,
                |j: int| s@.subrange(r@[j].0 as int, r@[j].1 as int),
            ) + split_n(s@.subrange(st as int, hi as int), c, (n - r@.len()) as nat),
            forall|j: int| 0 <= j < r@.len() ==> lo <= (#[trigger] r@[j]).0 <= r@[j].1 <= hi,
        decreases hi - i,
    {
        if s[i] == c {
            let ghost rest = s@.subrange(st as int, hi as int);
            proof {
                lemma_find_char(rest, c, i - st);
                assert(rest.subrange(0, i - st) =~= s@.subrange(st as int, i as int));
                assert(rest.subrange(i - st + 1, rest.len() as int) =~= s@.subrange(
                    i + 1,
                    hi as int,
                ));
            }
            let ghost old_r = r@;
            r.push((st, i));
            proof {
                assert(Seq::new(
                    r@.len() as nat,
                    |j: int| s@.subrange(r@[j].0 as int, r@[j].1 as int),
                ) =~= Seq::new(
                    old_r.len() as nat,
                    |j: int| s@.subrange(old_r[j].0 as int, old_r[j].1 as int),
                ) + seq![s@.subrange(st as int, i as int)]);
                assert((n - old_r.len()) as nat - 1 == (n - r@.len()) as nat);
            }
            st = i + 1;
            i = i + 1;
            proof {
                assert(whole =~= Seq::new(
                    r@.len() as nat,
                    |j: int| s@.subrange(r@[j].0 as int, r@[j].1 as int),
                ) + split_n(s@.subrange(st as int, hi as int), c, (n - r@.len()) as nat));
            }
        } else {
            i = i + 1;
        }
    }
    let ghost rest = s@.subrange(st as int, hi as int);
    proof {
        if r@.len() + 1 < n {
            lemma_find_char(rest, c, hi - st);
        }
        assert(split_n(rest, c, (n - r@.len()) as nat) == seq![rest]);
    }
    let ghost old_r = r@;
    r.push((st, hi));
    proof {
        assert(whole =~= Seq::new(
            r@.len() as nat,
            |j: int| s@.subrange(r@[j].0 as int, r@[j].1 as int),
        ));
        assert forall|j: int| 0 <= j < r@.len() implies lo <= (#[trigger] r@[j]).0 <= r@[j].1
            <= hi && s@.subrange(r@[j].0 as int, r@[j].1 as int) == whole[j] by {
            if j < old_r.len() {
                assert(r@[j] == old_r[j]);
            }
        }
    }
    r
}

/// `s` cut at every `c`.
pub open spec fn split_all(s: Seq<char>, c: char) -> Seq<Seq<char>>
    decreases s.len(),
{
    let i = find_char(s, c) as int;
    if i >= s.len() {
        seq![s]
    } else {
        seq![s.subrange(0, i as int)] + split_all(s.subrange(i + 1 as int, s.len() as int), c)
    }
}

/// `s` holds no `c`.
pub open spec fn lacks(s: Seq<char>, c: char) -> bool {
    forall|i: int| 0 <= i < s.len() ==> s[i] != c
}

proof fn lemma_find_char_bound(s: Seq<char>, c: char)
    ensures
        find_char(s, c) <= s.len(),
        forall|j: int| 0 <= j < find_char(s, c) ==> s[j] != c,
        find_char(s, c) < s.len() ==> s[find_char(s, c) as int] == c,
    decreases s.len(),
{
    if s.len() > 0 && s[0] != c {
        lemma_find_char_bound(s.drop_first(), c);
        assert forall|j: int| 0 <= j < find_char(s, c) implies s[j] != c by {
            if j > 0 {
                assert(s[j] == s.drop_first()[j - 1]);
            }
        }
    }
}

/// A text without `c` is one piece.
pub proof fn lemma_split_all_single(s: Seq<char>, c: char)
    requires
        lacks(s, c),
    ensures
        split_all(s, c) == seq![s],
{
    lemma_find_char(s, c, s.len() as int);
}

/// Cutting `x`, `c`, `y` at every `c` gives the pieces of `x`, then those of `y`.
pub proof fn lemma_split_all_concat(x: Seq<char>, y: Seq<char>, c: char)
    ensures
        split_all(x + seq![c] + y, c) == split_all(x, c) + split_all(y, c),
    decreases x.len(),
{
    let s = x + seq![c] + y;
    lemma_find_char_bound(x, c);
    let j = find_char(x, c) as int;
    if j < x.len() {
        lemma_find_char(s, c, j);
        let x2 = x.subrange(j + 1, x.len() as int);
        assert(s.subrange(0, j) =~= x.subrange(0, j));
        assert(s.subrange(j + 1, s.len() as int) =~= x2 + seq![c] + y);
        lemma_split_all_concat(x2, y, c);
        assert(split_all(x, c) == seq![x.subrange(0, j)] + split_all(x2, c));
        assert(split_all(s, c) =~= split_all(x, c) + split_all(y, c));
    } else {
        lemma_find_char(s, c, j);
        assert(s.subrange(0, j) =~= x);
        assert(s.subrange(j + 1, s.len() as int) =~= y);
        lemma_find_char(x, c, j);
        assert(split_all(x, c) == seq![x]);
    }
}

/// Cutting `a`, `c`, `rest` into at most `n` pieces, where `a` has no `c`.
pub proof fn lemma_split_n_cons(a: Seq<char>, rest: Seq<char>, c: char, n: nat)
    requires
        n >= 2,
        lacks(a, c),
    ensures
        split_n(a + seq![c] + rest, c, n) == seq![a] + split_n(rest, c, (n - 1) as nat),
{
    let s = a + seq![c] + rest;
    lemma_find_char(s, c, a.len() as int);
    assert(s.subrange(0, a.len() as int) =~= a);
    assert(s.subrange(a.len() + 1 as int, s.len() as int) =~= rest);
}

/// The spans of `split_all(s[lo..hi], c)` inside `s`.
pub fn split_all_spans(s: &Vec<char>, lo: usize, hi: usize, c: char) -> (r: Vec<(usize, usize)>)
    requires
        lo <= hi <= s@.len(),
    ensures
        r@.len() == split_all(s@.subrange(lo as int, hi as int), c).len(),
        forall|j: int|
            0 <= j < r@.len() ==> lo <= (#[trigger] r@[j]).0 <= r@[j].1 <= hi && s@.subrange(
                r@[j].0 as int,
                r@[j].1 as int,
            ) == split_all(s@.subrange(lo as int, hi as int), c)[j],
{
    let ghost whole = split_all(s@.subrange(lo as int, hi as int), c);
    let mut r: Vec<(usize, usize)> = Vec::new();
    let mut st: usize = lo;
    let mut i: usize = lo;
    while i < hi
        invariant
            lo <= st <= i <= hi <= s@.len(),
            forall|j: int| st <= j < i ==> s@[j] != c,
            whole == Seq::new(
                r@.len() as nat,
                |j: int| s@.subrange(r@[j].0 as int, r@[j].1 as int),
            ) + split_all(s@.subrange(st as int, hi as int), c),
            forall|j: int| 0 <= j < r@.len() ==> lo <= (#[trigger] r@[j]).0 <= r@[j].1 <= hi,
        decreases hi - i,
    {
        if s[i] == c {
            let ghost rest = s@.subrange(st as int, hi as int);
            proof {
                lemma_find_char(rest, c, i - st);
                assert(rest.subrange(0, i - st) =~= s@.subrange(st as int, i as int));
                assert(rest.subrange(i - st + 1, rest.len() as int) =~= s@.subrange(
                    i + 1,
                    hi as int,
                ));
            }
            let ghost old_r = r@;
            r.push((st, i));
            proof {
                assert(Seq::new(
                    r@.len() as nat,
                    |j: int| s@.subrange(r@[j].0 as int, r@[j].1 as int),
                ) =~= Seq::new(
                    old_r.len() as nat,
                    |j: int| s@.subrange(old_r[j].0 as int, old_r[j].1 as int),
                ) + seq![s@.subrange(st as int, i as int)]);
            }
            st = i + 1;
            i = i + 1;
            proof {
                assert(whole =~= Seq::new(
                    r@.len() as nat,
                    |j: int| s@.subrange(r@[j].0 as int, r@[j].1 as int),
                ) + split_all(s@.subrange(st as int, hi as int), c));
            }
        } else {
            i = i + 1;
        }
    }
    let ghost rest = s@.subrange(st as int, hi as int);
    proof {
        lemma_find_char(rest, c, hi - st);
        assert(split_all(rest, c) == seq![rest]);
    }
    let ghost old_r = r@;
    r.push((st, hi));
    proof {
        assert(whole =~= Seq::new(
            r@.len() as nat,
            |j: int| s@.subrange(r@[j].0 as int, r@[j].1 as int),
        ));
        assert forall|j: int| 0 <= j < r@.len() implies lo <= (#[trigger] r@[j]).0 <= r@[j].1
            <= hi && s@.subrange(r@[j].0 as int, r@[j].1 as int) == whole[j] by {
            if j < old_r.len() {
                assert(r@[j] == old_r[j]);
            }
        }
    }
    r
}

pub open spec fn is_digit(c: char) -> bool {
    48 <= (c as u32) <= 57
}

pub open spec fn digit_value(c: char) -> int {
    (c as u32) - 48
}

pub open spec fn all_digits(s: Seq<char>) -> bool {
    forall|i: int| 0 <= i < s.len() ==> is_digit(#[trigger] s[i])
}

/// The number that the decimal digits `s` write.
pub open spec fn decimal_value(s: Seq<char>) -> int
    decreases s.len(),
{
    if s.len() == 0 {
        0
    } else {
        decimal_value(s.drop_last()) * 10 + digit_value(s.last())
    }
}

/// `t` without one leading `+`.
pub open spec fn unsigned_part(t: Seq<char>) -> Seq<char> {
    if t.len() > 0 && t[0] == '+' {
        t.drop_first()
    } else {
        t
    }
}

/// An optional `+` followed by one or more decimal digits, read as a number.
pub open spec fn parse_decimal(t: Seq<char>) -> Option<int> {
    let d = unsigned_part(t);
    if d.len() > 0 && all_digits(d) {
        Some(decimal_value(d))
    } else {
        None
    }
}

proof fn lemma_digit_char(d: int)
    requires
        0 <= d < 10,
    ensures
        is_digit(digit_char(d)),
        digit_value(digit_char(d)) == d,
        digit_char(d) != '+',
{
    assert(('0' as u32) == 48);
    assert(('9' as u32) == 57);
}

pub open spec fn digit_char(d: int) -> char {
    if d == 0 {
        '0'
    } else if d == 1 {
        '1'
    } else if d == 2 {
        '2'
    } else if d == 3 {
        '3'
    } else if d == 4 {
        '4'
    } else if d == 5 {
        '5'
    } else if d == 6 {
        '6'
    } else if d == 7 {
        '7'
    } else if d == 8 {
        '8'
    } else {
        '9'
    }
}

/// The shortest decimal writing of `n`.
pub open spec fn decimal_text(n: nat) -> Seq<char>
    decreases n,
{
    if n < 10 {
        seq![digit_char(n as int)]
    } else {
        decimal_text(n / 10).push(digit_char((n % 10) as int))
    }
}

fn digit_char_of(d: u128) -> (r: char)
    requires
        d < 10,
    ensures
        r == digit_char(d as int),
{
    if d == 0 {
        '0'
    } else if d == 1 {
        '1'
    } else if d == 2 {
        '2'
    } else if d == 3 {
        '3'
    } else if d == 4 {
        '4'
    } else if d == 5 {
        '5'
    } else if d == 6 {
        '6'
    } else if d == 7 {
        '7'
    } else if d == 8 {
        '8'
    } else {
        '9'
    }
}

/// The decimal digits of `n`.
pub fn decimal_chars(n: u128) -> (r: Vec<char>)
    ensures
        r@ == decimal_text(n as nat),
    decreases n,
{
    if n < 10 {
        let mut v: Vec<char> = Vec::new();
        v.push(digit_char_of(n));
        v
    } else {
        let mut v = decimal_chars(n / 10);
        v.push(digit_char_of(n % 10));
        v
    }
}

proof fn lemma_decimal_monotone(s: Seq<char>, k: int)
    requires
        0 <= k <= s.len(),
        all_digits(s),
    ensures
        decimal_value(s.subrange(0, k)) <= decimal_value(s),
        0 <= decimal_value(s),
    decreases s.len(),
{
    if s.len() > 0 {
        assert(all_digits(s.drop_last()));
        if k < s.len() {
            assert(s.drop_last().subrange(0, k) =~= s.subrange(0, k));
            lemma_decimal_monotone(s.drop_last(), k);
        } else {
            assert(s.subrange(0, k) =~= s);
            lemma_decimal_monotone(s.drop_last(), 0);
        }
    }
}

/// Reads `s[lo..hi]` as a decimal number no larger than `max`.
pub fn parse_number(s: &Vec<char>, lo: usize, hi: usize, max: u64) -> (r: Option<u64>)
    requires
        lo <= hi <= s@.len(),
    ensures
        r == (match parse_decimal(s@.subrange(lo as int, hi as int)) {
            Some(v) => if v <= max {
                Some(v as u64)
            } else {
                None
            },
            None => None,
        }),
        r matches Some(x) ==> parse_decimal(s@.subrange(lo as int, hi as int)) == Some(x as int),
{
    let ghost t = s@.subrange(lo as int, hi as int);
    let mut a: usize = lo;
    if lo < hi && s[lo] == '+' {
        a = lo + 1;
    }
    let ghost d = s@.subrange(a as int, hi as int);
    assert(d =~= unsigned_part(t));
    if a == hi {
        return None;
    }
    let mut v: u128 = 0;
    let mut i: usize = a;
    while i < hi
        invariant
            a <= i <= hi <= s@.len(),
            t == s@.subrange(lo as int, hi as int),
            d == unsigned_part(t),
            d == s@.subrange(a as int, hi as int),
            all_digits(s@.subrange(a as int, i as int)),
            v == decimal_value(s@.subrange(a as int, i as int)),
            v <= max,
        decreases hi - i,
    {
        let c = s[i];
        if !((c as u32) >= 48 && (c as u32) <= 57) {
            assert(d[i - a] == c);
            assert(!is_digit(d[i - a]));
            assert(!all_digits(d));
            assert(parse_decimal(t) is None);
            return None;
        }
        assert(s@.subrange(a as int, i + 1).drop_last() =~= s@.subrange(a as int, i as int));
        assert(s@.subrange(a as int, i + 1).last() == c);
        assert(all_digits(s@.subrange(a as int, i + 1)));
        let nv: u128 = v * 10 + ((c as u32) - 48) as u128;
        if nv > max as u128 {
            proof {
                if all_digits(d) {
                    assert(d.subrange(0, i + 1 - a) =~= s@.subrange(a as int, i + 1));
                    lemma_decimal_monotone(d, i + 1 - a);
                    assert(decimal_value(d) > max);
                }
                assert(!(parse_decimal(t) matches Some(w) && w <= max));
            }
            return None;
        }
        v = nv;
        i = i + 1;
    }
    assert(s@.subrange(a as int, i as int) =~= d);
    Some(v as u64)
}

/// Reading the decimal writing of `n` gives `n` back.
pub proof fn lemma_decimal_round_trip(n: nat)
    ensures
        all_digits(decimal_text(n)),
        decimal_text(n).len() > 0,
        decimal_text(n)[0] != '+',
        decimal_value(decimal_text(n)) == n,
        parse_decimal(decimal_text(n)) == Some(n as int),
    decreases n,
{
    lemma_digit_char((n % 10) as int);
    let t = decimal_text(n);
    if n < 10 {
        assert(n % 10 == n);
        assert(t.drop_last() =~= Seq::<char>::empty());
        assert(t.last() == digit_char(n as int));
        assert(decimal_value(t.drop_last()) == 0);
        assert(decimal_value(t) == n);
    } else {
        lemma_decimal_round_trip(n / 10);
        assert(t.drop_last() =~= decimal_text(n / 10));
        assert(t.last() == digit_char((n % 10) as int));
        assert(decimal_value(t) == decimal_value(decimal_text(n / 10)) * 10 + digit_value(t.last()));
        assert(decimal_value(decimal_text(n / 10)) == n / 10);
        assert(digit_value(t.last()) == n % 10);
        let q = decimal_value(decimal_text(n / 10));
        let d = digit_value(t.last());
        assert(q * 10 + d == n) by (nonlinear_arith)
            requires
                q == n / 10,
                d == n % 10,
        ;
        assert(decimal_value(t) == n);
        assert(t[0] == decimal_text(n / 10)[0]);
        assert forall|i: int| 0 <= i < t.len() implies is_digit(#[trigger] t[i]) by {
            if i < t.len() - 1 {
                assert(t[i] == decimal_text(n / 10)[i]);
            }
        }
    }
}

/// Whether the text `a` equals the text `b`, character for character.
pub fn same_text(a: &str, b: &str) -> (r: bool)
    ensures
        r == (a@ == b@),
{
    let n = a.unicode_len();
    if n != b.unicode_len() {
        return false;
    }
    let mut i: usize = 0;
    while i < n
        invariant
            n == a@.len() == b@.len(),
            i <= n,
            forall|j: int| 0 <= j < i ==> a@[j] == b@[j],
        decreases n - i,
    {
        if a.get_char(i) != b.get_char(i) {
            return false;
        }
        i = i + 1;
    }
    assert(a@ =~= b@);
    true
}

} // verus!
