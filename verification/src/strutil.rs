//! Verified text utilities: decimal rendering and zero-padding of
//! ordinals, substring search, decimal-number parsing, and textual
//! replacement with its round-trip law. The fusion batcher's file names
//! and entry-point renaming, and the loop's log recovery, are built on
//! these.

use vstd::prelude::*;

verus! {

/// The character for one decimal digit.
pub open spec fn digit_char(d: int) -> char {
    if d == 0 {
        '0'
    } else if d == 1 {
        '1'
    } else if d == 2 {
        '2'
    } else if d == 3 {
        '3'
    } else if d == 4 {
        '4'
    } else if d == 5 {
        '5'
    } else if d == 6 {
        '6'
    } else if d == 7 {
        '7'
    } else if d == 8 {
        '8'
    } else {
        '9'
    }
}

/// The decimal rendering of `n`, most significant digit first, no sign and
/// no leading zeros (`0` itself is rendered as "0").
pub open spec fn dec_digits(n: nat) -> Seq<char>
    decreases n,
{
    if n < 10 {
        seq![digit_char(n as int)]
    } else {
        dec_digits(n / 10) + seq![digit_char((n % 10) as int)]
    }
}

/// `s` left-padded with '0' up to `width` characters; `s` unchanged when it
/// is already at least that long.
pub open spec fn zero_pad(s: Seq<char>, width: nat) -> Seq<char> {
    if s.len() >= width {
        s
    } else {
        Seq::new((width - s.len()) as nat, |i: int| '0') + s
    }
}

/// No two strings of the sequence are equal.
pub open spec fn distinct_strings(s: Seq<String>) -> bool {
    forall|i: int, j: int|
        0 <= i < s.len() && 0 <= j < s.len() && i != j ==> s[i]@ != s[j]@
}

/// Character-wise equality of two string slices.
pub fn str_eq(a: &str, b: &str) -> (r: bool)
    ensures
        r == (a@ == b@),
{
    let owned_a: String = a.to_owned();
    let owned_b: String = b.to_owned();
    owned_a == owned_b
}

/// The single-character string for digit `d`.
pub fn digit_str(d: u64) -> (r: &'static str)
    requires
        d < 10,
    ensures
        r@ == seq![digit_char(d as int)],
        r@.len() == 1,
{
    proof {
        reveal_strlit("0");
        reveal_strlit("1");
        reveal_strlit("2");
        reveal_strlit("3");
        reveal_strlit("4");
        reveal_strlit("5");
        reveal_strlit("6");
        reveal_strlit("7");
        reveal_strlit("8");
        reveal_strlit("9");
    }
    if d == 0 {
        "0"
    } else if d == 1 {
        "1"
    } else if d == 2 {
        "2"
    } else if d == 3 {
        "3"
    } else if d == 4 {
        "4"
    } else if d == 5 {
        "5"
    } else if d == 6 {
        "6"
    } else if d == 7 {
        "7"
    } else if d == 8 {
        "8"
    } else {
        "9"
    }
}

/// The decimal rendering of `n` as an owned string.
pub fn u64_to_dec(n: u64) -> (r: String)
    ensures
        r@ == dec_digits(n as nat),
    decreases n,
{
    if n < 10 {
        let s: String = String::from_str(digit_str(n));
        s
    } else {
        let mut s: String = u64_to_dec(n / 10);
        s.append(digit_str(n % 10));
        s
    }
}

/// The decimal rendering of `n`, left-padded with zeros to at least `width`
/// characters.
pub fn u64_to_dec_padded(n: u64, width: usize) -> (r: String)
    ensures
        r@ == zero_pad(dec_digits(n as nat), width as nat),
{
    let digits: String = u64_to_dec(n);
    let len: usize = digits.as_str().unicode_len();
    if len >= width {
        digits
    } else {
        let mut out: String = String::new();
        let mut i: usize = 0;
        while i < width - len
            invariant
                len < width,
                i <= width - len,
                out@ =~= Seq::new(i as nat, |j: int| '0'),
            decreases width - len - i,
        {
            out.append(digit_str(0));
            proof {
                assert(out@ =~= Seq::new((i + 1) as nat, |j: int| '0'));
            }
            i = i + 1;
        }
        out.append(digits.as_str());
        proof {
            assert(out@ =~= zero_pad(dec_digits(n as nat), width as nat));
        }
        out
    }
}

/// Whether `pat` occurs in `s` at position `i`.
pub open spec fn occurs_at(s: Seq<char>, pat: Seq<char>, i: int) -> bool {
    0 <= i && i + pat.len() <= s.len() && s.subrange(i, i + pat.len()) == pat
}

/// Whether `pat` occurs anywhere in `s`.
pub open spec fn contains_seq(s: Seq<char>, pat: Seq<char>) -> bool {
    exists|i: int| occurs_at(s, pat, i)
}

/// Whether `w` is a prefix of `x`.
pub open spec fn is_prefix(w: Seq<char>, x: Seq<char>) -> bool {
    w.len() <= x.len() && x.take(w.len() as int) == w
}

/// `s` with every occurrence of `pat` replaced by `to`, scanning left to
/// right without overlap, exactly as `str::replace` does. An empty pattern
/// replaces nothing.
pub open spec fn replace_all(s: Seq<char>, pat: Seq<char>, to: Seq<char>) -> Seq<char>
    decreases s.len(),
{
    if pat.len() == 0 || s.len() < pat.len() {
        s
    } else if s.subrange(0, pat.len() as int) == pat {
        to + replace_all(s.skip(pat.len() as int), pat, to)
    } else {
        seq![s[0]] + replace_all(s.skip(1), pat, to)
    }
}

/// The position of the first occurrence of `pat` in `s`, or -1 when there
/// is none.
pub open spec fn find_at(s: Seq<char>, pat: Seq<char>) -> int
    decreases s.len(),
{
    if pat.len() == 0 {
        0
    } else if s.len() < pat.len() {
        -1
    } else if s.subrange(0, pat.len() as int) == pat {
        0
    } else {
        let r = find_at(s.skip(1), pat);
        if r < 0 {
            -1
        } else {
            1 + r
        }
    }
}

/// `find_at` is exactly the first occurrence.
pub proof fn lemma_find_at(s: Seq<char>, pat: Seq<char>)
    ensures
        find_at(s, pat) == -1 ==> (forall|i: int| !occurs_at(s, pat, i)),
        find_at(s, pat) >= 0 ==> occurs_at(s, pat, find_at(s, pat)) && (forall|j: int|
            0 <= j < find_at(s, pat) ==> !occurs_at(s, pat, j)),
    decreases s.len(),
{
    if pat.len() == 0 {
        assert(s.subrange(0, 0) =~= pat);
    } else if s.len() < pat.len() {
        assert forall|i: int| !occurs_at(s, pat, i) by {}
    } else if s.subrange(0, pat.len() as int) == pat {
    } else {
        let rest = s.skip(1);
        lemma_find_at(rest, pat);
        assert forall|i: int| occurs_at(s, pat, i + 1) == occurs_at(rest, pat, i) by {
            if 0 <= i && i + pat.len() <= rest.len() {
                assert(s.subrange(i + 1, i + 1 + pat.len()) =~= rest.subrange(
                    i,
                    i + pat.len(),
                ));
            }
        }
        if find_at(s, pat) == -1 {
            assert forall|i: int| !occurs_at(s, pat, i) by {
                if i >= 1 {
                    assert(occurs_at(s, pat, i) == occurs_at(rest, pat, i - 1));
                }
            }
        } else {
            assert forall|j: int| 0 <= j < find_at(s, pat) implies !occurs_at(s, pat, j) by {
                if j >= 1 {
                    assert(occurs_at(s, pat, j) == occurs_at(rest, pat, j - 1));
                }
            }
            assert(occurs_at(s, pat, find_at(s, pat))) by {
                assert(occurs_at(s, pat, (find_at(rest, pat) + 1) as int) == occurs_at(
                    rest,
                    pat,
                    find_at(rest, pat),
                ));
            }
        }
    }
}

/// The first position of `pat` in `s`, computed.
pub fn find_sub(s: &str, pat: &str) -> (r: Option<usize>)
    requires
        pat@.len() >= 1,
    ensures
        match r {
            Some(i) => i == find_at(s@, pat@),
            None => find_at(s@, pat@) == -1,
        },
{
    proof {
        lemma_find_at(s@, pat@);
    }
    let n: usize = s.unicode_len();
    let m: usize = pat.unicode_len();
    if m > n {
        return None;
    }
    let mut i: usize = 0;
    while i <= n - m
        invariant
            1 <= m <= n,
            n == s@.len(),
            m == pat@.len(),
            i <= n - m + 1,
            forall|j: int| 0 <= j < i ==> !occurs_at(s@, pat@, j),
        decreases n - m + 1 - i,
    {
        let window: &str = s.substring_char(i, i + m);
        if str_eq(window, pat) {
            proof {
                assert(s@.subrange(i as int, i as int + m) =~= window@);
                assert(occurs_at(s@, pat@, i as int));
                lemma_find_at(s@, pat@);
            }
            return Some(i);
        }
        i = i + 1;
    }
    proof {
        assert forall|j: int| !occurs_at(s@, pat@, j) by {}
        lemma_find_at(s@, pat@);
    }
    None
}

/// The numeric value of a decimal digit, or -1 for any other character.
pub open spec fn digit_char_val(c: char) -> int {
    if c == '0' {
        0
    } else if c == '1' {
        1
    } else if c == '2' {
        2
    } else if c == '3' {
        3
    } else if c == '4' {
        4
    } else if c == '5' {
        5
    } else if c == '6' {
        6
    } else if c == '7' {
        7
    } else if c == '8' {
        8
    } else if c == '9' {
        9
    } else {
        -1
    }
}

/// Whether `c` is a decimal digit.
pub open spec fn is_digit_char(c: char) -> bool {
    digit_char_val(c) >= 0
}

/// The value of a run of decimal digits, most significant first.
pub open spec fn dec_value(s: Seq<char>) -> int
    decreases s.len(),
{
    if s.len() == 0 {
        0
    } else {
        dec_value(s.drop_last()) * 10 + digit_char_val(s.last())
    }
}

/// The length of the run of decimal digits starting at position `i`.
pub open spec fn digit_run_len(s: Seq<char>, i: int) -> nat
    decreases s.len() - i,
{
    if i < 0 || i >= s.len() || !is_digit_char(s[i]) {
        0
    } else {
        1 + digit_run_len(s, i + 1)
    }
}

/// The length of the run of spaces starting at position `i`.
pub open spec fn space_run_len(s: Seq<char>, i: int) -> nat
    decreases s.len() - i,
{
    if i < 0 || i >= s.len() || s[i] != ' ' {
        0
    } else {
        1 + space_run_len(s, i + 1)
    }
}

/// A scan that stopped at the first non-digit measured exactly the digit
/// run.
proof fn lemma_digit_run_measured(s: Seq<char>, start: int, i: int)
    requires
        0 <= start <= i <= s.len(),
        forall|j: int| start <= j < i ==> is_digit_char(#[trigger] s[j]),
        i == s.len() || !is_digit_char(s[i]),
    ensures
        digit_run_len(s, start) == i - start,
    decreases i - start,
{
    if start < i {
        lemma_digit_run_measured(s, start + 1, i);
    }
}

/// Same, for spaces.
proof fn lemma_space_run_measured(s: Seq<char>, start: int, i: int)
    requires
        0 <= start <= i <= s.len(),
        forall|j: int| start <= j < i ==> #[trigger] s[j] == ' ',
        i == s.len() || s[i] != ' ',
    ensures
        space_run_len(s, start) == i - start,
    decreases i - start,
{
    if start < i {
        lemma_space_run_measured(s, start + 1, i);
    }
}

/// The value of a digit run never drops when the run is extended.
proof fn lemma_dec_value_extend(s: Seq<char>, start: int, m1: int, m2: int)
    requires
        0 <= start <= m1 <= m2 <= s.len(),
        forall|j: int| start <= j < m2 ==> is_digit_char(#[trigger] s[j]),
    ensures
        0 <= dec_value(s.subrange(start, m1)) <= dec_value(s.subrange(start, m2)),
    decreases m2 - m1,
{
    if m1 == m2 {
        lemma_dec_value_nonneg(s.subrange(start, m1));
    } else {
        lemma_dec_value_extend(s, start, m1, m2 - 1);
        assert(s.subrange(start, m2).drop_last() =~= s.subrange(start, m2 - 1));
        assert(s.subrange(start, m2).last() == s[m2 - 1]);
        let prev = dec_value(s.subrange(start, m2 - 1));
        assert(prev * 10 >= prev) by (nonlinear_arith)
            requires prev >= 0
        ;
    }
}

/// A run of digits has a non-negative value.
proof fn lemma_dec_value_nonneg(s: Seq<char>)
    requires
        forall|j: int| 0 <= j < s.len() ==> is_digit_char(#[trigger] s[j]),
    ensures
        dec_value(s) >= 0,
    decreases s.len(),
{
    if s.len() > 0 {
        lemma_dec_value_nonneg(s.drop_last());
        let prev = dec_value(s.drop_last());
        assert(prev * 10 >= prev) by (nonlinear_arith)
            requires prev >= 0
        ;
    }
}

/// The digit value of `c`, computed.
pub fn digit_of(c: char) -> (r: Option<usize>)
    ensures
        match r {
            Some(d) => is_digit_char(c) && d == digit_char_val(c),
            None => !is_digit_char(c),
        },
{
    match c {
        '0' => Some(0),
        '1' => Some(1),
        '2' => Some(2),
        '3' => Some(3),
        '4' => Some(4),
        '5' => Some(5),
        '6' => Some(6),
        '7' => Some(7),
        '8' => Some(8),
        '9' => Some(9),
        _ => None,
    }
}

/// The position right after the spaces that start at `start`.
pub fn skip_spaces(s: &str, start: usize) -> (r: usize)
    requires
        start <= s@.len(),
    ensures
        r == start + space_run_len(s@, start as int),
        r <= s@.len(),
{
    let n: usize = s.unicode_len();
    let mut i: usize = start;
    while i < n
        invariant
            start <= i <= n,
            n == s@.len(),
            forall|j: int| start <= j < i ==> #[trigger] s@[j] == ' ',
        decreases n - i,
    {
        let c: char = s.get_char(i);
        if c != ' ' {
            proof {
                lemma_space_run_measured(s@, start as int, i as int);
            }
            return i;
        }
        i = i + 1;
    }
    proof {
        lemma_space_run_measured(s@, start as int, n as int);
    }
    n
}

/// Parse the decimal number that starts at `start`: the value of the
/// maximal digit run there, or nothing when no digit starts there or the
/// value does not fit the machine.
pub fn parse_usize_prefix(s: &str, start: usize) -> (r: Option<usize>)
    requires
        start <= s@.len(),
    ensures
        ({
            let k = digit_run_len(s@, start as int);
            match r {
                Some(v) => k >= 1 && v == dec_value(
                    s@.subrange(start as int, start as int + k),
                ),
                None => k == 0 || dec_value(s@.subrange(start as int, start as int + k))
                    > usize::MAX,
            }
        }),
{
    let n: usize = s.unicode_len();
    let mut i: usize = start;
    let mut val: usize = 0;
    while i < n
        invariant
            start <= i <= n,
            n == s@.len(),
            forall|j: int| start <= j < i ==> is_digit_char(#[trigger] s@[j]),
            val == dec_value(s@.subrange(start as int, i as int)),
        decreases n - i,
    {
        let c: char = s.get_char(i);
        match digit_of(c) {
            None => {
                proof {
                    lemma_digit_run_measured(s@, start as int, i as int);
                }
                if i == start {
                    return None;
                }
                return Some(val);
            },
            Some(d) => {
                proof {
                    assert(s@.subrange(start as int, i as int + 1).drop_last() =~= s@.subrange(
                        start as int,
                        i as int,
                    ));
                    assert(s@.subrange(start as int, i as int + 1).last() == s@[i as int]);
                }
                let scaled: usize = match val.checked_mul(10) {
                    Some(x) => x,
                    None => {
                        proof {
                            lemma_overflow_case(s@, start as int, i as int, val as int, d as int);
                        }
                        return None;
                    },
                };
                let bumped: usize = match scaled.checked_add(d) {
                    Some(x) => x,
                    None => {
                        proof {
                            lemma_overflow_case(s@, start as int, i as int, val as int, d as int);
                        }
                        return None;
                    },
                };
                val = bumped;
                i = i + 1;
            },
        }
    }
    proof {
        lemma_digit_run_measured(s@, start as int, n as int);
    }
    if i == start {
        return None;
    }
    Some(val)
}

/// When one more digit overflows the machine word, the whole run's value
/// does too.
proof fn lemma_overflow_case(s: Seq<char>, start: int, i: int, val: int, d: int)
    requires
        0 <= start <= i < s.len(),
        forall|j: int| start <= j < i ==> is_digit_char(#[trigger] s[j]),
        is_digit_char(s[i]),
        d == digit_char_val(s[i]),
        val == dec_value(s.subrange(start, i)),
        val * 10 + d > usize::MAX,
    ensures
        dec_value(s.subrange(start, start + digit_run_len(s, start))) > usize::MAX,
{
    let k = digit_run_len(s, start);
    lemma_digit_run_all(s, start);
    assert(forall|j: int| start <= j < start + k ==> is_digit_char(#[trigger] s[j]));
    assert(i < start + k) by {
        if i >= start + k {
            assert(start + k < s.len() || start + k == s.len());
            if start + k < s.len() {
                assert(!is_digit_char(s[start + k]));
                if i == start + k {
                    assert(false);
                } else {
                    assert(is_digit_char(s[start + k]));
                }
            } else {
                assert(i >= s.len());
            }
        }
    }
    assert(s.subrange(start, i + 1).drop_last() =~= s.subrange(start, i));
    assert(s.subrange(start, i + 1).last() == s[i]);
    assert(dec_value(s.subrange(start, i + 1)) == val * 10 + d);
    lemma_dec_value_extend(s, start, i + 1, start + k);
}

/// Every position of the digit run is a digit, and the run ends at a
/// non-digit or the end of the text.
proof fn lemma_digit_run_all(s: Seq<char>, start: int)
    requires
        0 <= start <= s.len(),
    ensures
        start + digit_run_len(s, start) <= s.len(),
        forall|j: int|
            start <= j < start + digit_run_len(s, start) ==> is_digit_char(#[trigger] s[j]),
        start + digit_run_len(s, start) == s.len() || !is_digit_char(
            s[start + digit_run_len(s, start)],
        ),
    decreases s.len() - start,
{
    if start < s.len() && is_digit_char(s[start]) {
        lemma_digit_run_all(s, start + 1);
    }
}

/// No nonempty proper suffix of `to` is also a prefix of `to`.
pub open spec fn no_self_overlap(to: Seq<char>) -> bool {
    forall|j: int|
        0 < j < to.len() ==> #[trigger] to.skip(j) != to.take(to.len() - j)
}

/// A string that does not contain `pat` has no tail that contains it.
proof fn lemma_not_contains_skip(s: Seq<char>, pat: Seq<char>, k: int)
    requires
        !contains_seq(s, pat),
        0 <= k <= s.len(),
    ensures
        !contains_seq(s.skip(k), pat),
{
    assert forall|i: int| !occurs_at(s.skip(k), pat, i) by {
        if occurs_at(s.skip(k), pat, i) {
            assert(s.subrange(k + i, k + i + pat.len()) =~= s.skip(k).subrange(
                i,
                i + pat.len(),
            ));
            assert(occurs_at(s, pat, k + i));
        }
    }
}

/// Replacing a pattern by a strictly longer string never shrinks the text,
/// and changes it only to something at least as long as the replacement.
proof fn lemma_replace_len(s: Seq<char>, pat: Seq<char>, to: Seq<char>)
    requires
        pat.len() >= 1,
        to.len() >= pat.len(),
    ensures
        replace_all(s, pat, to).len() >= s.len(),
        replace_all(s, pat, to) == s || replace_all(s, pat, to).len() >= to.len(),
    decreases s.len(),
{
    if s.len() < pat.len() {
    } else if s.subrange(0, pat.len() as int) == pat {
        lemma_replace_len(s.skip(pat.len() as int), pat, to);
    } else {
        lemma_replace_len(s.skip(1), pat, to);
        if replace_all(s.skip(1), pat, to) == s.skip(1) {
            assert(seq![s[0]] + s.skip(1) =~= s);
        }
    }
}

/// A proper suffix of `to` that fronts the replaced text already fronted
/// the original text: replacement inserts `to` only wholesale.
proof fn lemma_partial_prefix(s: Seq<char>, pat: Seq<char>, to: Seq<char>, j: int)
    requires
        1 <= pat.len() < to.len(),
        to.take(pat.len() as int) == pat,
        no_self_overlap(to),
        !contains_seq(s, to),
        0 < j < to.len(),
        is_prefix(to.skip(j), replace_all(s, pat, to)),
    ensures
        is_prefix(to.skip(j), s),
    decreases s.len(),
{
    let w = to.skip(j);
    let f = replace_all(s, pat, to);
    if s.len() < pat.len() {
    } else if s.subrange(0, pat.len() as int) == pat {
        let rest = replace_all(s.skip(pat.len() as int), pat, to);
        assert(f == to + rest);
        assert(w.len() < to.len());
        assert(f.take(w.len() as int) =~= to.take(w.len() as int));
        assert(to.skip(j) == to.take(to.len() - j));
        assert(false);
    } else {
        let rest = replace_all(s.skip(1), pat, to);
        assert(f == seq![s[0]] + rest);
        assert(w[0] == f[0] && f[0] == s[0]);
        if w.len() == 1 {
            assert(s.take(1) =~= seq![s[0]]);
            assert(s.take(1) =~= w);
        } else {
            assert(w.skip(1) =~= to.skip(j + 1));
            assert(is_prefix(to.skip(j + 1), rest)) by {
                assert(rest.take(w.len() - 1) =~= f.take(w.len() as int).skip(1));
                assert(f.take(w.len() as int) == w);
                assert(rest.take(w.len() - 1) =~= w.skip(1));
            }
            lemma_not_contains_skip(s, to, 1);
            lemma_partial_prefix(s.skip(1), pat, to, j + 1);
            assert(w =~= seq![w[0]] + w.skip(1));
            assert(s.take(w.len() as int) =~= seq![s[0]] + s.skip(1).take(w.len() - 1));
            assert(s.skip(1).take(w.len() - 1) == w.skip(1));
            assert(seq![s[0]] == seq![w[0]]);
            assert(s.take(w.len() as int) == w);
        }
    }
}

/// Law: the entry-point renaming is reversible. Replacing `pat` by the
/// suffixed name `to` and then stripping the suffix — replacing `to` by
/// `pat` — recovers the original text, provided the original nowhere
/// contains the suffixed name and the suffixed name does not overlap
/// itself.
pub proof fn lemma_replace_round_trip(s: Seq<char>, pat: Seq<char>, to: Seq<char>)
    requires
        1 <= pat.len() < to.len(),
        to.take(pat.len() as int) == pat,
        no_self_overlap(to),
        !contains_seq(s, to),
    ensures
        replace_all(replace_all(s, pat, to), to, pat) == s,
    decreases s.len(),
{
    let f = replace_all(s, pat, to);
    if s.len() < pat.len() {
        assert(f == s);
        assert(replace_all(s, to, pat) == s);
    } else if s.subrange(0, pat.len() as int) == pat {
        let tail = s.skip(pat.len() as int);
        let rest = replace_all(tail, pat, to);
        assert(f == to + rest);
        lemma_not_contains_skip(s, to, pat.len() as int);
        lemma_replace_round_trip(tail, pat, to);
        assert(f.len() >= to.len());
        assert(f.subrange(0, to.len() as int) =~= to);
        assert(replace_all(f, to, pat) == pat + replace_all(f.skip(to.len() as int), to, pat));
        assert(f.skip(to.len() as int) =~= rest);
        assert(pat + tail =~= s);
    } else {
        let tail = s.skip(1);
        let rest = replace_all(tail, pat, to);
        assert(f == seq![s[0]] + rest);
        lemma_not_contains_skip(s, to, 1);
        lemma_replace_round_trip(tail, pat, to);
        lemma_replace_len(tail, pat, to);
        if f.len() < to.len() {
            assert(rest.len() < to.len());
            assert(rest == tail);
            assert(f =~= s);
            assert(replace_all(f, to, pat) == f);
        } else {
            assert(!(f.subrange(0, to.len() as int) == to)) by {
                if f.subrange(0, to.len() as int) == to {
                    assert(is_prefix(to, f)) by {
                        assert(f.take(to.len() as int) =~= f.subrange(0, to.len() as int));
                    }
                    assert(to[0] == s[0]);
                    assert(to.len() >= 2);
                    assert(is_prefix(to.skip(1), rest)) by {
                        assert(rest.take(to.len() - 1) =~= f.take(to.len() as int).skip(1));
                        assert(f.take(to.len() as int) == to);
                        assert(rest.take(to.len() - 1) =~= to.skip(1));
                    }
                    lemma_partial_prefix(tail, pat, to, 1);
                    assert(to =~= seq![to[0]] + to.skip(1));
                    assert(s.take(to.len() as int) =~= seq![s[0]] + tail.take(to.len() - 1));
                    assert(tail.take(to.len() - 1) == to.skip(1));
                    assert(seq![s[0]] == seq![to[0]]);
                    assert(s.take(to.len() as int) == to);
                    assert(occurs_at(s, to, 0)) by {
                        assert(s.subrange(0, to.len() as int) =~= s.take(to.len() as int));
                    }
                    assert(false);
                }
            }
            assert(replace_all(f, to, pat) == seq![f[0]] + replace_all(f.skip(1), to, pat));
            assert(f.skip(1) =~= rest);
            assert(f[0] == s[0]);
            assert(seq![s[0]] + tail =~= s);
        }
    }
}

/// `s` with every occurrence of `pat` replaced by `to`, computed.
pub fn replace_all_exec(s: &str, pat: &str, to: &str) -> (r: String)
    requires
        pat@.len() >= 1,
    ensures
        r@ == replace_all(s@, pat@, to@),
{
    let n: usize = s.unicode_len();
    let p: usize = pat.unicode_len();
    let mut out: String = String::new();
    let mut i: usize = 0;
    proof {
        assert(s@.skip(0) =~= s@);
        assert(Seq::<char>::empty() + replace_all(s@, pat@, to@) =~= replace_all(
            s@,
            pat@,
            to@,
        ));
    }
    while i < n
        invariant
            i <= n,
            n == s@.len(),
            p == pat@.len(),
            p >= 1,
            replace_all(s@, pat@, to@) == out@ + replace_all(s@.skip(i as int), pat@, to@),
        decreases n - i,
    {
        let ghost pre = out@;
        let ghost rem = s@.skip(i as int);
        if p <= n - i {
            let window: &str = s.substring_char(i, i + p);
            if str_eq(window, pat) {
                proof {
                    assert(rem.subrange(0, p as int) =~= s@.subrange(i as int, i as int + p));
                    assert(rem.skip(p as int) =~= s@.skip(i as int + p));
                    assert(replace_all(rem, pat@, to@) == to@ + replace_all(
                        s@.skip(i as int + p),
                        pat@,
                        to@,
                    ));
                }
                out.append(to);
                proof {
                    assert(out@ + replace_all(s@.skip(i as int + p), pat@, to@) =~= pre
                        + replace_all(rem, pat@, to@));
                }
                i = i + p;
            } else {
                let one: &str = s.substring_char(i, i + 1);
                proof {
                    assert(rem.subrange(0, p as int) =~= s@.subrange(i as int, i as int + p));
                    assert(rem.skip(1) =~= s@.skip(i as int + 1));
                    assert(one@ =~= seq![rem[0]]);
                    assert(replace_all(rem, pat@, to@) == seq![rem[0]] + replace_all(
                        s@.skip(i as int + 1),
                        pat@,
                        to@,
                    ));
                }
                out.append(one);
                proof {
                    assert(out@ + replace_all(s@.skip(i as int + 1), pat@, to@) =~= pre
                        + replace_all(rem, pat@, to@));
                }
                i = i + 1;
            }
        } else {
            let tail: &str = s.substring_char(i, n);
            proof {
                assert(rem.len() < p);
                assert(replace_all(rem, pat@, to@) == rem);
                assert(tail@ =~= rem);
            }
            out.append(tail);
            proof {
                assert(out@ =~= pre + replace_all(rem, pat@, to@));
                assert(s@.skip(n as int) =~= Seq::<char>::empty());
                assert(replace_all(s@.skip(n as int), pat@, to@) == s@.skip(n as int));
                assert(out@ + replace_all(s@.skip(n as int), pat@, to@) =~= out@);
            }
            i = n;
        }
    }
    proof {
        assert(s@.skip(n as int) =~= Seq::<char>::empty());
        assert(replace_all(s@.skip(n as int), pat@, to@) == s@.skip(n as int));
        assert(out@ + replace_all(s@.skip(n as int), pat@, to@) =~= out@);
        assert(s@.skip(0) =~= s@);
    }
    out
}

} // verus!
