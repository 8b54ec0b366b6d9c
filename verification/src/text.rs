//! Character-level helpers shared by the parsers of this crate.
//!
//! Text is handled as sequences of `char`s; the specifications below describe the
//! standard string operations the parsers rely on (whitespace trimming, unsigned
//! decimal parsing, decimal formatting) over `Seq<char>`.

use vstd::prelude::*;
use vstd::utf8::is_ascii_chars;

verus! {

/// Calls std's `String::push`; the contract claims that the text gains `c` at its
/// end and is otherwise unchanged.
#[verifier::external_body]
pub(crate) fn push_char(s: &mut String, c: char)
    ensures
        final(s)@ == old(s)@.push(c),
{
    s.push(c);
}

/// The characters of `s`, in order.
pub fn chars_of(s: &str) -> (r: Vec<char>)
    ensures
        r@ == s@,
{
    let mut out: Vec<char> = Vec::new();
    for c in it: s.chars()
        invariant
            out@ == it.seq().take(it.index() as int),
    {
        out.push(c);
    }
    out
}

/// A `String` holding the characters of `c@.subrange(lo, hi)`.
pub fn string_from_chars(c: &Vec<char>, lo: usize, hi: usize) -> (r: String)
    requires
        lo <= hi <= c@.len(),
    ensures
        r@ == c@.subrange(lo as int, hi as int),
{
    let mut out = String::new();
    let mut i = lo;
    while i < hi
        invariant
            lo <= i <= hi <= c@.len(),
            out@ == c@.subrange(lo as int, i as int),
        decreases hi - i,
    {
        push_char(&mut out, c[i]);
        i = i + 1;
        assert(out@ =~= c@.subrange(lo as int, i as int));
    }
    out
}

/// A `String` holding the characters of `c`.
pub fn string_of(c: &Vec<char>) -> (r: String)
    ensures
        r@ == c@,
{
    let r = string_from_chars(c, 0, c.len());
    assert(c@.subrange(0, c@.len() as int) =~= c@);
    r
}

/// Appends the characters of `t` to `s`.
pub fn push_chars(s: &mut String, t: &Vec<char>)
    ensures
        final(s)@ == old(s)@ + t@,
{
    let mut i: usize = 0;
    while i < t.len()
        invariant
            i <= t@.len(),
            s@ == old(s)@ + t@.take(i as int),
        decreases t.len() - i,
    {
        push_char(s, t[i]);
        i = i + 1;
        assert(s@ =~= old(s)@ + t@.take(i as int));
    }
    assert(t@.take(t@.len() as int) =~= t@);
}

/// Appends the characters of `t` to `s`.
pub fn push_str(s: &mut String, t: &str)
    ensures
        final(s)@ == old(s)@ + t@,
{
    let v = chars_of(t);
    push_chars(s, &v);
}

/// Whitespace as `char::is_whitespace` defines it: the Unicode `White_Space` property.
pub open spec fn is_ws(c: char) -> bool {
    let u = c as u32;
    ||| 0x09 <= u <= 0x0D
    ||| u == 0x20
    ||| u == 0x85
    ||| u == 0xA0
    ||| u == 0x1680
    ||| 0x2000 <= u <= 0x200A
    ||| u == 0x2028
    ||| u == 0x2029
    ||| u == 0x202F
    ||| u == 0x205F
    ||| u == 0x3000
}

/// Executable [`is_ws`].
pub fn is_whitespace(c: char) -> (r: bool)
    ensures
        r == is_ws(c),
{
    let u = c as u32;
    (0x09 <= u && u <= 0x0D) || u == 0x20 || u == 0x85 || u == 0xA0 || u == 0x1680 || (0x2000
        <= u && u <= 0x200A) || u == 0x2028 || u == 0x2029 || u == 0x202F || u == 0x205F || u
        == 0x3000
}

/// `s` without its leading whitespace.
pub open spec fn trim_start_ws(s: Seq<char>) -> Seq<char>
    decreases s.len(),
{
    if s.len() > 0 && is_ws(s[0]) {
        trim_start_ws(s.drop_first())
    } else {
        s
    }
}

/// `s` without its trailing whitespace.
pub open spec fn trim_end_ws(s: Seq<char>) -> Seq<char>
    decreases s.len(),
{
    if s.len() > 0 && is_ws(s.last()) {
        trim_end_ws(s.drop_last())
    } else {
        s
    }
}

/// `s` without leading and trailing whitespace (`str::trim`).
pub open spec fn trim_ws(s: Seq<char>) -> Seq<char> {
    trim_end_ws(trim_start_ws(s))
}

/// The bounds of `trim_ws(c@.subrange(lo, hi))` inside `c`.
pub fn trim_bounds(c: &Vec<char>, lo: usize, hi: usize) -> (r: (usize, usize))
    requires
        lo <= hi <= c@.len(),
    ensures
        lo <= r.0 <= r.1 <= hi,
        c@.subrange(r.0 as int, r.1 as int) == trim_ws(c@.subrange(lo as int, hi as int)),
{
    let mut a = lo;
    while a < hi && is_whitespace(c[a])
        invariant
            lo <= a <= hi <= c@.len(),
            trim_start_ws(c@.subrange(a as int, hi as int)) == trim_start_ws(
                c@.subrange(lo as int, hi as int),
            ),
        decreases hi - a,
    {
        assert(c@.subrange(a as int, hi as int).drop_first() =~= c@.subrange(
            a + 1,
            hi as int,
        ));
        a = a + 1;
    }
    let mut b = hi;
    while b > a && is_whitespace(c[b - 1])
        invariant
            lo <= a <= b <= hi <= c@.len(),
            trim_end_ws(c@.subrange(a as int, b as int)) == trim_end_ws(
                c@.subrange(a as int, hi as int),
            ),
        decreases b - a,
    {
        assert(c@.subrange(a as int, b as int).drop_last() =~= c@.subrange(
            a as int,
            b - 1,
        ));
        b = b - 1;
    }
    (a, b)
}

/// An ASCII decimal digit.
pub open spec fn is_digit(c: char) -> bool {
    '0' <= c <= '9'
}

/// The value of a decimal digit (0 for any other character).
pub open spec fn digit_value(c: char) -> nat {
    if is_digit(c) {
        (c as u32 - '0' as u32) as nat
    } else {
        0
    }
}

/// Every character of `s` is a decimal digit.
pub open spec fn all_digits(s: Seq<char>) -> bool {
    forall|i: int| 0 <= i < s.len() ==> is_digit(#[trigger] s[i])
}

/// The number that the decimal digits `s` denote.
pub open spec fn digits_value(s: Seq<char>) -> nat
    decreases s.len(),
{
    if s.len() == 0 {
        0
    } else {
        digits_value(s.drop_last()) * 10 + digit_value(s.last())
    }
}

/// What parsing `s` as an unsigned integer type whose largest value is `max` gives
/// (`u8`/`u16`/`u32`/`usize::from_str`): an optional `+`, then at least one decimal
/// digit, and a value no larger than `max`.
pub open spec fn parse_uint(s: Seq<char>, max: nat) -> Option<nat> {
    let d = if s.len() > 0 && s[0] == '+' {
        s.drop_first()
    } else {
        s
    };
    if d.len() == 0 || !all_digits(d) || digits_value(d) > max {
        None
    } else {
        Some(digits_value(d))
    }
}

/// A prefix of a digit string never denotes more than the whole string.
pub proof fn lemma_digits_value_prefix(s: Seq<char>, j: int)
    requires
        0 <= j <= s.len(),
    ensures
        digits_value(s.take(j)) <= digits_value(s),
    decreases s.len() - j,
{
    if j < s.len() {
        lemma_digits_value_prefix(s, j + 1);
        assert(s.take(j + 1).drop_last() =~= s.take(j));
    } else {
        assert(s.take(j) =~= s);
    }
}

/// Executable [`parse_uint`] on `c@.subrange(lo, hi)`.
pub fn parse_uint_chars(c: &Vec<char>, lo: usize, hi: usize, max: usize) -> (r: Option<usize>)
    requires
        lo <= hi <= c@.len(),
        max >= 9,
    ensures
        match r {
            Some(v) => parse_uint(c@.subrange(lo as int, hi as int), max as nat) == Some(v as nat),
            None => parse_uint(c@.subrange(lo as int, hi as int), max as nat) is None,
        },
{
    let ghost s = c@.subrange(lo as int, hi as int);
    let mut start = lo;
    if lo < hi && c[lo] == '+' {
        start = lo + 1;
    }
    let ghost d = c@.subrange(start as int, hi as int);
    assert(d =~= (if s.len() > 0 && s[0] == '+' {
        s.drop_first()
    } else {
        s
    }));
    if start == hi {
        return None;
    }
    let mut acc: usize = 0;
    let mut i = start;
    while i < hi
        invariant
            start <= i <= hi <= c@.len(),
            d == c@.subrange(start as int, hi as int),
            s == c@.subrange(lo as int, hi as int),
            d == (if s.len() > 0 && s[0] == '+' {
                s.drop_first()
            } else {
                s
            }),
            d.len() > 0,
            max >= 9,
            acc as nat == digits_value(d.take(i - start)),
            all_digits(d.take(i - start)),
            acc <= max,
        decreases hi - i,
    {
        let ch = c[i];
        if !('0' <= ch && ch <= '9') {
            assert(!is_digit(d[i - start]));
            assert(!all_digits(d));
            assert(parse_uint(s, max as nat) is None);
            return None;
        }
        let dv = (ch as u32 - '0' as u32) as usize;
        assert(d.take(i - start + 1).drop_last() =~= d.take(i - start));
        assert(d.take(i - start + 1).last() == ch);
        assert(digit_value(ch) == dv);
        assert(digits_value(d.take(i - start + 1)) == acc * 10 + dv);
        if acc > (max - dv) / 10 {
            proof {
                assert(acc * 10 + dv > max) by (nonlinear_arith)
                    requires
                        acc > (max - dv) / 10,
                        dv <= 9,
                        max >= 9,
                ;
                lemma_digits_value_prefix(d, i - start + 1);
                assert(parse_uint(s, max as nat) is None);
            }
            return None;
        }
        assert(acc * 10 + dv <= max) by (nonlinear_arith)
            requires
                acc <= (max - dv) / 10,
                dv <= 9,
                max >= 9,
        ;
        acc = acc * 10 + dv;
        i = i + 1;
        assert(all_digits(d.take(i - start))) by {
            assert forall|k: int| 0 <= k < d.take(i - start).len() implies is_digit(
                #[trigger] d.take(i - start)[k],
            ) by {
                if k < i - 1 - start {
                    assert(d.take(i - start)[k] == d.take(i - 1 - start)[k]);
                }
            }
        }
    }
    assert(d.take(hi - start) =~= d);
    Some(acc)
}

/// The character of a decimal digit `n < 10`.
pub open spec fn digit_char(n: nat) -> char {
    ((n + 48) as u8) as char
}

/// A digit character denotes its digit.
pub proof fn lemma_digit_char(n: nat)
    requires
        n < 10,
    ensures
        is_digit(digit_char(n)),
        digit_value(digit_char(n)) == n,
        digit_char(n) != '+',
        '\0' <= digit_char(n) <= '\u{7f}',
{
    assert(((n + 48) as u8) as char as u32 == n + 48);
}

/// The decimal representation of `n` without leading zeros (`n.to_string()`).
pub open spec fn decimal(n: nat) -> Seq<char>
    decreases n,
{
    if n < 10 {
        seq![digit_char(n)]
    } else {
        decimal(n / 10).push(digit_char(n % 10))
    }
}

/// The decimal representation of `n` is a digit string denoting `n`.
pub proof fn lemma_decimal(n: nat)
    ensures
        decimal(n).len() > 0,
        all_digits(decimal(n)),
        digits_value(decimal(n)) == n,
        decimal(n)[0] != '+',
        is_ascii_chars(decimal(n)),
    decreases n,
{
    lemma_digit_char(n % 10);
    if n < 10 {
        assert(decimal(n).drop_last() =~= Seq::<char>::empty());
        assert(digits_value(Seq::<char>::empty()) == 0);
        assert(decimal(n).last() == digit_char(n));
    } else {
        lemma_decimal(n / 10);
        let p = decimal(n / 10);
        let s = decimal(n);
        assert(s.drop_last() =~= p);
        assert(s.last() == digit_char(n % 10));
        assert(digits_value(s) == digits_value(p) * 10 + digit_value(digit_char(n % 10)));
        assert(digits_value(s) == n);
        assert(all_digits(s)) by {
            assert forall|i: int| 0 <= i < s.len() implies is_digit(#[trigger] s[i]) by {
                if i < p.len() {
                    assert(s[i] == p[i]);
                }
            }
        }
        assert(is_ascii_chars(s)) by {
            assert forall|i: int| 0 <= i < s.len() implies '\0' <= #[trigger] s[i] <= '\u{7f}' by {
                if i < p.len() {
                    assert(s[i] == p[i]);
                }
            }
        }
    }
}

/// The decimal representation of `n` (`n.to_string()`), as characters.
pub fn decimal_chars(n: u64) -> (r: Vec<char>)
    ensures
        r@ == decimal(n as nat),
    decreases n,
{
    if n < 10 {
        let mut v: Vec<char> = Vec::new();
        v.push(((n as u8) + 48u8) as char);
        assert(v@ =~= decimal(n as nat));
        v
    } else {
        let mut v = decimal_chars(n / 10);
        v.push((((n % 10) as u8) + 48u8) as char);
        v
    }
}

/// Appends the decimal representation of `n` to `s`.
pub fn push_decimal(s: &mut String, n: u64)
    ensures
        final(s)@ == old(s)@ + decimal(n as nat),
{
    let v = decimal_chars(n);
    push_chars(s, &v);
}

/// `s` starts with `p`.
pub open spec fn has_prefix(s: Seq<char>, p: Seq<char>) -> bool {
    p.len() <= s.len() && s.take(p.len() as int) == p
}

/// `s` ends with `p`.
pub open spec fn has_suffix(s: Seq<char>, p: Seq<char>) -> bool {
    p.len() <= s.len() && s.skip(s.len() - p.len()) == p
}

/// `c@.subrange(at, ..)` starts with `p`.
pub fn matches_at(c: &Vec<char>, at: usize, p: &Vec<char>) -> (r: bool)
    requires
        at <= c@.len(),
    ensures
        r == has_prefix(c@.skip(at as int), p@),
{
    if p.len() > c.len() - at {
        return false;
    }
    let mut i: usize = 0;
    while i < p.len()
        invariant
            at + p@.len() <= c@.len(),
            c@.len() <= usize::MAX,
            i <= p@.len(),
            forall|k: int| 0 <= k < i ==> c@[at + k] == p@[k],
        decreases p.len() - i,
    {
        if c[at + i] != p[i] {
            assert(c@.skip(at as int).take(p@.len() as int)[i as int] != p@[i as int]);
            return false;
        }
        i = i + 1;
    }
    assert(c@.skip(at as int).take(p@.len() as int) =~= p@);
    true
}

/// The first index `i >= from` at which `s.skip(i)` starts with `p`, if any.
pub open spec fn find_from(s: Seq<char>, p: Seq<char>, from: int) -> Option<int>
    decreases s.len() + 1 - from,
{
    if from < 0 || from + p.len() > s.len() {
        None
    } else if has_prefix(s.skip(from), p) {
        Some(from)
    } else {
        find_from(s, p, from + 1)
    }
}

/// Executable [`find_from`].
pub fn find_chars(c: &Vec<char>, p: &Vec<char>, from: usize) -> (r: Option<usize>)
    requires
        from <= c@.len(),
    ensures
        match r {
            Some(i) => find_from(c@, p@, from as int) == Some(i as int),
            None => find_from(c@, p@, from as int) is None,
        },
{
    if p.len() > c.len() || from > c.len() - p.len() {
        return None;
    }
    let last = c.len() - p.len();
    let mut i = from;
    loop
        invariant
            from <= i <= last,
            last + p@.len() == c@.len(),
            find_from(c@, p@, i as int) == find_from(c@, p@, from as int),
        decreases last - i,
    {
        if matches_at(c, i, p) {
            return Some(i);
        }
        if i == last {
            assert(find_from(c@, p@, i + 1) is None);
            return None;
        }
        i = i + 1;
    }
}

/// The largest index `i` with `s[i] == ch`, if any.
pub open spec fn rfind_char(s: Seq<char>, ch: char) -> Option<int>
    decreases s.len(),
{
    if s.len() == 0 {
        None
    } else if s.last() == ch {
        Some(s.len() - 1)
    } else {
        rfind_char(s.drop_last(), ch)
    }
}

/// Executable [`rfind_char`] on `c@.subrange(lo, hi)`, as an index relative to `lo`.
pub fn rfind_char_in(c: &Vec<char>, lo: usize, hi: usize, ch: char) -> (r: Option<usize>)
    requires
        lo <= hi <= c@.len(),
    ensures
        match r {
            Some(i) => rfind_char(c@.subrange(lo as int, hi as int), ch) == Some(i as int),
            None => rfind_char(c@.subrange(lo as int, hi as int), ch) is None,
        },
{
    let mut j = hi;
    while j > lo
        invariant
            lo <= j <= hi <= c@.len(),
            rfind_char(c@.subrange(lo as int, j as int), ch) == rfind_char(
                c@.subrange(lo as int, hi as int),
                ch,
            ),
        decreases j - lo,
    {
        assert(c@.subrange(lo as int, j as int).drop_last() =~= c@.subrange(lo as int, j - 1));
        if c[j - 1] == ch {
            return Some(j - 1 - lo);
        }
        j = j - 1;
    }
    None
}

/// A copy of `c@.subrange(lo, hi)`.
pub fn sub_vec(c: &Vec<char>, lo: usize, hi: usize) -> (r: Vec<char>)
    requires
        lo <= hi <= c@.len(),
    ensures
        r@ == c@.subrange(lo as int, hi as int),
{
    let mut out: Vec<char> = Vec::new();
    let mut i = lo;
    while i < hi
        invariant
            lo <= i <= hi <= c@.len(),
            out@ == c@.subrange(lo as int, i as int),
        decreases hi - i,
    {
        out.push(c[i]);
        i = i + 1;
        assert(out@ =~= c@.subrange(lo as int, i as int));
    }
    out
}

/// `c` with ASCII upper-case letters mapped to lower case (`char::to_ascii_lowercase`).
pub open spec fn ascii_lower_char(c: char) -> char {
    if 'A' <= c <= 'Z' {
        ((c as u32 + 32) as u8) as char
    } else {
        c
    }
}

/// `s` with ASCII upper-case letters mapped to lower case (`str::to_ascii_lowercase`).
pub open spec fn ascii_lower(s: Seq<char>) -> Seq<char> {
    s.map_values(|c: char| ascii_lower_char(c))
}

/// Executable [`ascii_lower`].
pub fn to_ascii_lower(c: &Vec<char>) -> (r: Vec<char>)
    ensures
        r@ == ascii_lower(c@),
{
    let mut out: Vec<char> = Vec::new();
    let mut i: usize = 0;
    while i < c.len()
        invariant
            i <= c@.len(),
            out@ == ascii_lower(c@.take(i as int)),
        decreases c.len() - i,
    {
        let ch = c[i];
        let lc = if 'A' <= ch && ch <= 'Z' {
            ((ch as u8) + 32) as char
        } else {
            ch
        };
        assert('A' <= ch <= 'Z' ==> (ch as u8) as u32 == ch as u32);
        out.push(lc);
        i = i + 1;
        assert(out@ =~= ascii_lower(c@.take(i as int)));
    }
    assert(c@.take(c@.len() as int) =~= c@);
    out
}

/// `s` contains `p` as a contiguous subsequence (`str::contains`).
pub open spec fn contains_seq(s: Seq<char>, p: Seq<char>) -> bool {
    find_from(s, p, 0) is Some
}

/// Executable [`contains_seq`].
pub fn contains_chars(c: &Vec<char>, p: &Vec<char>) -> (r: bool)
    ensures
        r == contains_seq(c@, p@),
{
    find_chars(c, p, 0).is_some()
}

/// `s` ends with `p`.
pub fn ends_with_chars(c: &Vec<char>, p: &Vec<char>) -> (r: bool)
    ensures
        r == has_suffix(c@, p@),
{
    if p.len() > c.len() {
        return false;
    }
    let r = matches_at(c, c.len() - p.len(), p);
    assert(c@.skip(c@.len() - p@.len()).take(p@.len() as int) =~= c@.skip(c@.len() - p@.len()));
    r
}

/// The index of the first character of `s` at or after `i` that is not a decimal
/// digit, or `s.len()` when there is none.
pub open spec fn digit_run_end(s: Seq<char>, i: int) -> int
    decreases s.len() - i,
{
    if i >= s.len() {
        s.len() as int
    } else if !is_digit(s[i]) {
        i
    } else {
        digit_run_end(s, i + 1)
    }
}

/// Executable [`digit_run_end`] from index 0.
pub fn digit_run(c: &Vec<char>) -> (r: usize)
    ensures
        r as int == digit_run_end(c@, 0),
        r <= c@.len(),
{
    let mut i: usize = 0;
    while i < c.len() && '0' <= c[i] && c[i] <= '9'
        invariant
            i <= c@.len(),
            digit_run_end(c@, i as int) == digit_run_end(c@, 0),
        decreases c.len() - i,
    {
        i = i + 1;
    }
    i
}

/// `s` without its trailing `'.'` characters (`trim_end_matches('.')`).
pub open spec fn trim_end_dots(s: Seq<char>) -> Seq<char>
    decreases s.len(),
{
    if s.len() > 0 && s.last() == '.' {
        trim_end_dots(s.drop_last())
    } else {
        s
    }
}


/// The index of the first `c` at or after `i` in `s`, or `s.len()` when there is none.
pub open spec fn next_char(s: Seq<char>, c: char, i: int) -> int
    decreases s.len() - i,
{
    if i < 0 || i >= s.len() {
        s.len() as int
    } else if s[i] == c {
        i
    } else {
        next_char(s, c, i + 1)
    }
}

/// Where [`next_char`] lands, and that it passes over no `c`.
pub proof fn lemma_next_char(s: Seq<char>, c: char, i: int)
    requires
        0 <= i <= s.len(),
    ensures
        i <= next_char(s, c, i) <= s.len(),
        next_char(s, c, i) < s.len() ==> s[next_char(s, c, i)] == c,
        forall|j: int| i <= j < next_char(s, c, i) ==> s[j] != c,
    decreases s.len() - i,
{
    if i < s.len() && s[i] != c {
        lemma_next_char(s, c, i + 1);
    }
}

/// The pieces of `s.skip(i)` between the occurrences of `sep`, as `str::split`
/// with a `char` gives them (an empty text gives one empty piece).
pub open spec fn split_from(s: Seq<char>, sep: char, i: int) -> Seq<Seq<char>>
    decreases s.len() + 1 - i,
{
    if i < 0 || i > s.len() {
        Seq::empty()
    } else {
        let k = next_char(s, sep, i);
        if k >= s.len() {
            seq![s.subrange(i, s.len() as int)]
        } else {
            proof {
                lemma_next_char(s, sep, i);
            }
            seq![s.subrange(i, k)] + split_from(s, sep, k + 1)
        }
    }
}

/// The pieces of `s` between the occurrences of `sep`.
pub open spec fn split_char(s: Seq<char>, sep: char) -> Seq<Seq<char>> {
    split_from(s, sep, 0)
}

/// Splits `s` at every `sep` (`str::split` with a `char`).
pub fn split_on(s: &str, sep: char) -> (r: Vec<String>)
    ensures
        r@.len() == split_char(s@, sep).len(),
        forall|j: int| 0 <= j < r@.len() ==> #[trigger] r@[j]@ == split_char(s@, sep)[j],
{
    let c = chars_of(s);
    let mut out: Vec<String> = Vec::new();
    let mut i: usize = 0;
    loop
        invariant
            i <= c@.len(),
            c@ == s@,
            out@.len() + split_from(c@, sep, i as int).len() == split_char(c@, sep).len(),
            forall|j: int| 0 <= j < out@.len() ==> #[trigger] out@[j]@ == split_char(c@, sep)[j],
            forall|j: int|
                0 <= j < split_from(c@, sep, i as int).len() ==> #[trigger] split_from(c@, sep, i as int)[j]
                    == split_char(c@, sep)[out@.len() + j],
        decreases c@.len() + 1 - i,
    {
        let mut k = i;
        while k < c.len() && c[k] != sep
            invariant
                i <= k <= c@.len(),
                next_char(c@, sep, k as int) == next_char(c@, sep, i as int),
            decreases c.len() - k,
        {
            k = k + 1;
        }
        proof {
            lemma_next_char(c@, sep, i as int);
        }
        let piece = string_from_chars(&c, i, k);
        let ghost rest = split_from(c@, sep, i as int);
        assert(rest[0] == piece@);
        assert(split_char(c@, sep)[out@.len() as int] == piece@);
        out.push(piece);
        if k >= c.len() {
            assert(rest.len() == 1);
            return out;
        }
        assert(rest =~= seq![c@.subrange(i as int, k as int)] + split_from(c@, sep, k + 1));
        assert forall|j: int| 0 <= j < split_from(c@, sep, k + 1).len() implies #[trigger] split_from(c@, sep, k + 1)[j]
            == split_char(c@, sep)[out@.len() + j] by {
            assert(split_from(c@, sep, k + 1)[j] == rest[j + 1]);
        }
        i = k + 1;
    }
}

} // verus!
