//! Character-level text utilities shared by the command line, the HTTP reader
//! and the host string handles: Unicode white space, trimming, decimal
//! numbers and string comparison.
use vstd::prelude::*;
use vstd::string::*;

verus! {

/// The Unicode `White_Space` property, which is what `char::is_whitespace`
/// tests.
pub open spec fn is_ws(c: char) -> bool {
    let v = c as u32;
    ||| 0x09 <= v <= 0x0D
    ||| v == 0x20
    ||| v == 0x85
    ||| v == 0xA0
    ||| v == 0x1680
    ||| 0x2000 <= v <= 0x200A
    ||| v == 0x2028
    ||| v == 0x2029
    ||| v == 0x202F
    ||| v == 0x205F
    ||| v == 0x3000
}

/// Executable white-space test.
pub fn is_whitespace(c: char) -> (r: bool)
    ensures
        r == is_ws(c),
{
    let v = c as u32;
    (0x09 <= v && v <= 0x0D) || v == 0x20 || v == 0x85 || v == 0xA0 || v == 0x1680 || (0x2000
        <= v && v <= 0x200A) || v == 0x2028 || v == 0x2029 || v == 0x202F || v == 0x205F || v
        == 0x3000
}

/// Index of the first non-white-space character at or after `i`
/// (`s.len()` when there is none).
pub open spec fn skip_ws(s: Seq<char>, i: int) -> int
    decreases s.len() - i,
{
    if i < 0 || i >= s.len() {
        if i < 0 { 0 } else { s.len() as int }
    } else if is_ws(s[i]) {
        skip_ws(s, i + 1)
    } else {
        i
    }
}

/// Index of the first white-space character at or after `i`
/// (`s.len()` when there is none).
pub open spec fn next_ws(s: Seq<char>, i: int) -> int
    decreases s.len() - i,
{
    if i < 0 || i >= s.len() {
        if i < 0 { 0 } else { s.len() as int }
    } else if is_ws(s[i]) {
        i
    } else {
        next_ws(s, i + 1)
    }
}

/// End of the last non-white-space character among the first `j` characters
/// (0 when there is none).
pub open spec fn trim_end_at(s: Seq<char>, j: int) -> int
    decreases j,
{
    if j <= 0 || j > s.len() {
        0
    } else if is_ws(s[j - 1]) {
        trim_end_at(s, j - 1)
    } else {
        j
    }
}

/// `s` without its leading and trailing white space, as `str::trim` gives it.
pub open spec fn trimmed(s: Seq<char>) -> Seq<char> {
    let a = skip_ws(s, 0);
    let b = trim_end_at(s, s.len() as int);
    if b <= a {
        Seq::empty()
    } else {
        s.subrange(a, b)
    }
}

pub proof fn lemma_skip_ws_bounds(s: Seq<char>, i: int)
    requires
        0 <= i <= s.len(),
    ensures
        i <= skip_ws(s, i) <= s.len(),
        skip_ws(s, i) < s.len() ==> !is_ws(s[skip_ws(s, i)]),
        forall|k: int| i <= k < skip_ws(s, i) ==> is_ws(#[trigger] s[k]),
    decreases s.len() - i,
{
    if i < s.len() && is_ws(s[i]) {
        lemma_skip_ws_bounds(s, i + 1);
    }
}

pub proof fn lemma_next_ws_bounds(s: Seq<char>, i: int)
    requires
        0 <= i <= s.len(),
    ensures
        i <= next_ws(s, i) <= s.len(),
        next_ws(s, i) < s.len() ==> is_ws(s[next_ws(s, i)]),
        forall|k: int| i <= k < next_ws(s, i) ==> !is_ws(#[trigger] s[k]),
    decreases s.len() - i,
{
    if i < s.len() && !is_ws(s[i]) {
        lemma_next_ws_bounds(s, i + 1);
    }
}

pub proof fn lemma_trim_end_bounds(s: Seq<char>, j: int)
    requires
        0 <= j <= s.len(),
    ensures
        0 <= trim_end_at(s, j) <= j,
        trim_end_at(s, j) > 0 ==> !is_ws(s[trim_end_at(s, j) - 1]),
        forall|k: int| trim_end_at(s, j) <= k < j ==> is_ws(#[trigger] s[k]),
    decreases j,
{
    if j > 0 && is_ws(s[j - 1]) {
        lemma_trim_end_bounds(s, j - 1);
    }
}

/// Index of the first non-white-space character of `s` at or after `from`.
pub fn skip_whitespace(s: &[char], from: usize) -> (r: usize)
    requires
        from <= s@.len(),
    ensures
        r == skip_ws(s@, from as int),
{
    let mut i = from;
    while i < s.len() && is_whitespace(s[i])
        invariant
            from <= i <= s@.len(),
            skip_ws(s@, i as int) == skip_ws(s@, from as int),
        decreases s@.len() - i,
    {
        i = i + 1;
    }
    i
}

/// Index of the first white-space character of `s` at or after `from`.
pub fn find_whitespace(s: &[char], from: usize) -> (r: usize)
    requires
        from <= s@.len(),
    ensures
        r == next_ws(s@, from as int),
{
    let mut i = from;
    while i < s.len() && !is_whitespace(s[i])
        invariant
            from <= i <= s@.len(),
            next_ws(s@, i as int) == next_ws(s@, from as int),
        decreases s@.len() - i,
    {
        i = i + 1;
    }
    i
}

/// The characters of `s[from..to]`.
pub fn slice_chars(s: &[char], from: usize, to: usize) -> (r: Vec<char>)
    requires
        from <= to <= s@.len(),
    ensures
        r@ == s@.subrange(from as int, to as int),
{
    let mut r: Vec<char> = Vec::new();
    let mut i = from;
    while i < to
        invariant
            from <= i <= to <= s@.len(),
            r@ == s@.subrange(from as int, i as int),
        decreases to - i,
    {
        r.push(s[i]);
        i = i + 1;
        assert(r@ =~= s@.subrange(from as int, i as int));
    }
    r
}

/// `s` with leading and trailing white space removed, like `str::trim`.
pub fn trim_chars(s: &[char]) -> (r: Vec<char>)
    ensures
        r@ == trimmed(s@),
{
    let a = skip_whitespace(s, 0);
    let mut b = s.len();
    while b > 0 && is_whitespace(s[b - 1])
        invariant
            b <= s@.len(),
            trim_end_at(s@, b as int) == trim_end_at(s@, s@.len() as int),
        decreases b,
    {
        b = b - 1;
    }
    if b <= a {
        Vec::new()
    } else {
        slice_chars(s, a, b)
    }
}

/// The characters of a string.
pub fn to_chars(s: &str) -> (v: Vec<char>)
    ensures
        v@ == s@,
{
    let mut v: Vec<char> = Vec::new();
    for c in it: s.chars()
        invariant
            v@ == it.seq().take(it.index() as int),
    {
        v.push(c);
    }
    v
}

/// Whether `s` begins with `prefix`.
pub fn starts_with(s: &[char], prefix: &[char]) -> (r: bool)
    ensures
        r == (prefix@.len() <= s@.len() && s@.subrange(0, prefix@.len() as int) == prefix@),
{
    if prefix.len() > s.len() {
        return false;
    }
    let mut i: usize = 0;
    while i < prefix.len()
        invariant
            prefix@.len() <= s@.len(),
            i <= prefix@.len(),
            forall|k: int| 0 <= k < i ==> s@[k] == prefix@[k],
        decreases prefix@.len() - i,
    {
        if s[i] != prefix[i] {
            assert(s@.subrange(0, prefix@.len() as int)[i as int] != prefix@[i as int]);
            return false;
        }
        i = i + 1;
    }
    assert(s@.subrange(0, prefix@.len() as int) =~= prefix@);
    true
}

/// Whether two character sequences are equal.
pub fn chars_eq(a: &[char], b: &[char]) -> (r: bool)
    ensures
        r == (a@ == b@),
{
    if a.len() != b.len() {
        return false;
    }
    let r = starts_with(a, b);
    proof {
        if a@ == b@ {
            assert(a@.subrange(0, b@.len() as int) =~= b@);
        }
        if r {
            assert(a@.subrange(0, b@.len() as int) =~= a@);
        }
    }
    r
}

/// Whether a string equals the character sequence `b`.
pub fn str_is(a: &str, b: &[char]) -> (r: bool)
    ensures
        r == (a@ == b@),
{
    let ac = to_chars(a);
    chars_eq(ac.as_slice(), b)
}

/// Whether two strings are equal.
pub fn str_eq(a: &str, b: &str) -> (r: bool)
    ensures
        r == (a@ == b@),
{
    let bc = to_chars(b);
    str_is(a, bc.as_slice())
}

/// Whether a string begins with the string `prefix`.
pub fn str_starts_with(s: &str, prefix: &str) -> (r: bool)
    ensures
        r == (prefix@.len() <= s@.len() && s@.subrange(0, prefix@.len() as int) == prefix@),
{
    let sc = to_chars(s);
    let pc = to_chars(prefix);
    starts_with(sc.as_slice(), pc.as_slice())
}

/* Decimal numbers */

pub open spec fn is_digit(c: char) -> bool {
    '0' <= c && c <= '9'
}

pub open spec fn digit_value(c: char) -> int {
    c as int - '0' as int
}

/// The value of a run of decimal digits, most significant first.
pub open spec fn digits_value(ds: Seq<char>) -> int
    decreases ds.len(),
{
    if ds.len() == 0 {
        0
    } else {
        digits_value(ds.drop_last()) * 10 + digit_value(ds.last())
    }
}

pub open spec fn all_digits(ds: Seq<char>) -> bool {
    forall|i: int| 0 <= i < ds.len() ==> is_digit(#[trigger] ds[i])
}

/// The digits that an unsigned `FromStr` reads: an optional leading `+`
/// followed by at least one character.
pub open spec fn unsigned_digits(s: Seq<char>) -> Option<Seq<char>> {
    if s.len() == 0 {
        None
    } else if s[0] == '+' {
        if s.len() == 1 {
            None
        } else {
            Some(s.drop_first())
        }
    } else {
        Some(s)
    }
}

/// What `str::parse` gives for an unsigned integer type whose largest value
/// is `max`: the number when `s` is an optional `+` and decimal digits whose
/// value is at most `max`, and nothing otherwise.
pub open spec fn parse_unsigned(s: Seq<char>, max: int) -> Option<int> {
    match unsigned_digits(s) {
        Some(ds) => if all_digits(ds) && digits_value(ds) <= max {
            Some(digits_value(ds))
        } else {
            None
        },
        None => None,
    }
}

pub proof fn lemma_digits_value_nonneg(ds: Seq<char>)
    requires
        all_digits(ds),
    ensures
        digits_value(ds) >= 0,
    decreases ds.len(),
{
    if ds.len() > 0 {
        assert(all_digits(ds.drop_last()));
        lemma_digits_value_nonneg(ds.drop_last());
        assert(is_digit(ds[ds.len() - 1]));
    }
}

/// A longer run of digits is worth at least as much as any of its prefixes.
pub proof fn lemma_digits_value_prefix(ds: Seq<char>, n: int)
    requires
        all_digits(ds),
        0 <= n <= ds.len(),
    ensures
        digits_value(ds.take(n)) <= digits_value(ds),
    decreases ds.len() - n,
{
    if n < ds.len() {
        let t = ds.take(n + 1);
        assert(t.drop_last() =~= ds.take(n));
        assert(all_digits(ds.take(n)));
        lemma_digits_value_nonneg(ds.take(n));
        assert(is_digit(ds[n]));
        assert(t.last() == ds[n]);
        assert(digits_value(ds.take(n)) <= digits_value(t)) by (nonlinear_arith)
            requires
                digits_value(t) == digits_value(ds.take(n)) * 10 + digit_value(ds[n]),
                digits_value(ds.take(n)) >= 0,
                digit_value(ds[n]) >= 0,
        ;
        lemma_digits_value_prefix(ds, n + 1);
    } else {
        assert(ds.take(n) =~= ds);
    }
}

/// Parses an unsigned decimal number no larger than `max`, as
/// `str::parse::<u16>` or `str::parse::<usize>` does.
pub fn parse_decimal(s: &[char], max: usize) -> (r: Option<usize>)
    ensures
        match r {
            Some(v) => parse_unsigned(s@, max as int) == Some(v as int),
            None => parse_unsigned(s@, max as int) is None,
        },
{
    if s.len() == 0 {
        return None;
    }
    let start: usize = if s[0] == '+' {
        1
    } else {
        0
    };
    if start == 1 && s.len() == 1 {
        return None;
    }
    let ghost ds = s@.subrange(start as int, s@.len() as int);
    assert(unsigned_digits(s@) == Some(ds)) by {
        if start == 1 {
            assert(ds =~= s@.drop_first());
        } else {
            assert(ds =~= s@);
        }
    }
    let mut acc: usize = 0;
    let mut i = start;
    while i < s.len()
        invariant
            start <= i <= s@.len(),
            ds == s@.subrange(start as int, s@.len() as int),
            unsigned_digits(s@) == Some(ds),
            all_digits(ds.take(i - start)),
            acc as int == digits_value(ds.take(i - start)),
            acc <= max,
        decreases s@.len() - i,
    {
        let c = s[i];
        if !('0' <= c && c <= '9') {
            assert(ds[i - start] == c);
            return None;
        }
        let d = (c as u32 - '0' as u32) as usize;
        let ghost t = ds.take(i - start + 1);
        assert(t.drop_last() =~= ds.take(i - start));
        assert(t.last() == c);
        assert(all_digits(t)) by {
            assert forall|k: int| 0 <= k < t.len() implies is_digit(#[trigger] t[k]) by {
                if k < t.len() - 1 {
                    assert(t[k] == ds.take(i - start)[k]);
                }
            }
        }
        match acc.checked_mul(10) {
            None => {
                proof {
                    lemma_digits_value_nonneg(ds.take(i - start));
                    assert(digits_value(t) > max) by (nonlinear_arith)
                        requires
                            acc * 10 > usize::MAX,
                            digits_value(t) == acc * 10 + d,
                            d >= 0,
                            max <= usize::MAX,
                    ;
                    self::lemma_overflow_is_final(ds, i - start + 1, max as int);
                }
                return None;
            },
            Some(m) => match m.checked_add(d) {
                None => {
                    proof {
                        assert(digits_value(t) == m + d);
                        self::lemma_overflow_is_final(ds, i - start + 1, max as int);
                    }
                    return None;
                },
                Some(v) => {
                    if v > max {
                        proof {
                            assert(digits_value(t) == v);
                            self::lemma_overflow_is_final(ds, i - start + 1, max as int);
                        }
                        return None;
                    }
                    acc = v;
                },
            },
        }
        i = i + 1;
    }
    assert(ds.take(i - start) =~= ds);
    Some(acc)
}

/// Once the digits read so far are worth more than `max`, the whole number
/// cannot be parsed.
proof fn lemma_overflow_is_final(ds: Seq<char>, n: int, max: int)
    requires
        0 <= n <= ds.len(),
        digits_value(ds.take(n)) > max,
    ensures
        !(all_digits(ds) && digits_value(ds) <= max),
{
    if all_digits(ds) {
        lemma_digits_value_prefix(ds, n);
    }
}

/// The character of a digit value below ten.
pub open spec fn digit_char(d: int) -> char {
    if d == 0 {
        '0'
    } else if d == 1 {
        '1'
    } else if d == 2 {
        '2'
    } else if d == 3 {
        '3'
    } else if d == 4 {
        '4'
    } else if d == 5 {
        '5'
    } else if d == 6 {
        '6'
    } else if d == 7 {
        '7'
    } else if d == 8 {
        '8'
    } else {
        '9'
    }
}

/// The decimal representation of `n`, most significant digit first, without
/// leading zeros.
pub open spec fn decimal(n: nat) -> Seq<char>
    decreases n,
{
    if n < 10 {
        seq![digit_char(n as int)]
    } else {
        decimal(n / 10) + seq![digit_char((n % 10) as int)]
    }
}

/// The one-character string of a digit.
fn digit_str(d: usize) -> (r: &'static str)
    requires
        d < 10,
    ensures
        r@ == seq![digit_char(d as int)],
{
    proof {
        reveal_strlit("0");
        reveal_strlit("1");
        reveal_strlit("2");
        reveal_strlit("3");
        reveal_strlit("4");
        reveal_strlit("5");
        reveal_strlit("6");
        reveal_strlit("7");
        reveal_strlit("8");
        reveal_strlit("9");
    }
    if d == 0 {
        "0"
    } else if d == 1 {
        "1"
    } else if d == 2 {
        "2"
    } else if d == 3 {
        "3"
    } else if d == 4 {
        "4"
    } else if d == 5 {
        "5"
    } else if d == 6 {
        "6"
    } else if d == 7 {
        "7"
    } else if d == 8 {
        "8"
    } else {
        "9"
    }
}

/// Appends the decimal representation of `n` to `out`, as `format!("{}", n)`
/// writes it.
pub fn push_decimal(out: &mut String, n: usize)
    ensures
        final(out)@ == old(out)@ + decimal(n as nat),
    decreases n,
{
    if n >= 10 {
        push_decimal(out, n / 10);
    }
    let d = n % 10;
    out.append(digit_str(d));
    proof {
        if n < 10 {
            assert(d == n);
        }
    }
    assert(final(out)@ =~= old(out)@ + decimal(n as nat)) by {
        if n >= 10 {
            assert(decimal(n as nat) == decimal((n / 10) as nat) + seq![
                digit_char((n % 10) as int),
            ]);
        }
    }
}

/// The decimal representation of a number as a string.
pub fn decimal_string(n: usize) -> (r: String)
    ensures
        r@ == decimal(n as nat),
{
    let mut r = String::new();
    push_decimal(&mut r, n);
    assert(r@ =~= decimal(n as nat));
    r
}

/// What `decimal` writes is read back as the same number by
/// `parse_unsigned`, whatever the type's largest value, when the number fits.
pub proof fn lemma_decimal_parses_back(n: nat, max: int)
    requires
        n <= max,
    ensures
        parse_unsigned(decimal(n), max) == Some(n as int),
{
    lemma_decimal_digits(n);
    let s = decimal(n);
    assert(s.len() > 0);
    assert(is_digit(s[0]));
    assert(s[0] != '+');
    assert(unsigned_digits(s) == Some(s));
}

pub proof fn lemma_decimal_digits(n: nat)
    ensures
        all_digits(decimal(n)),
        digits_value(decimal(n)) == n,
        decimal(n).len() > 0,
    decreases n,
{
    if n < 10 {
        let s = decimal(n);
        assert(s.drop_last() =~= Seq::<char>::empty());
        assert(digit_value(digit_char(n as int)) == n);
        assert(digits_value(s.drop_last()) == 0);
        assert(digits_value(s) == digits_value(s.drop_last()) * 10 + digit_value(s.last()));
    } else {
        lemma_decimal_digits(n / 10);
        let s = decimal(n);
        let d = (n % 10) as int;
        assert(s.drop_last() =~= decimal(n / 10));
        assert(s.last() == digit_char(d));
        assert(digit_value(digit_char(d)) == d);
        assert(all_digits(s)) by {
            assert forall|k: int| 0 <= k < s.len() implies is_digit(#[trigger] s[k]) by {
                if k < s.len() - 1 {
                    assert(s[k] == decimal(n / 10)[k]);
                }
            }
        }
        assert((n / 10) * 10 + n % 10 == n) by (nonlinear_arith);
        assert(digits_value(s) == digits_value(s.drop_last()) * 10 + digit_value(s.last()));
        assert(digits_value(s.drop_last()) == n / 10);
    }
}

/* Substrings */

/// Whether `p` occurs in `s` starting at index `i`.
pub open spec fn occurs_at(s: Seq<char>, p: Seq<char>, i: int) -> bool {
    0 <= i && i + p.len() <= s.len() && s.subrange(i, i + p.len()) == p
}

/// Whether `p` occurs in `s`, as `str::contains` tests.
pub open spec fn contains(s: Seq<char>, p: Seq<char>) -> bool {
    exists|i: int| occurs_at(s, p, i)
}

/// Whether `p` occurs in `s` starting at index `i`.
fn matches_at(s: &[char], p: &[char], i: usize) -> (r: bool)
    requires
        i + p@.len() <= s@.len(),
    ensures
        r == occurs_at(s@, p@, i as int),
{
    let n = s.len();
    let mut k: usize = 0;
    while k < p.len()
        invariant
            n == s@.len(),
            i + p@.len() <= s@.len(),
            k <= p@.len(),
            forall|j: int| 0 <= j < k ==> s@[i + j] == p@[j],
        decreases p@.len() - k,
    {
        assert(i + k < s@.len());
        if s[i + k] != p[k] {
            assert(s@.subrange(i as int, i + p@.len())[k as int] != p@[k as int]);
            return false;
        }
        k = k + 1;
    }
    assert(s@.subrange(i as int, i + p@.len()) =~= p@);
    true
}

/// Whether `p` occurs in `s`.
pub fn contains_chars(s: &[char], p: &[char]) -> (r: bool)
    ensures
        r == contains(s@, p@),
{
    if p.len() > s.len() {
        return false;
    }
    if p.len() == 0 {
        assert(s@.subrange(0, 0) =~= p@);
        assert(occurs_at(s@, p@, 0));
        return true;
    }
    let n = s.len();
    let last = n - p.len();
    let mut i: usize = 0;
    while i <= last
        invariant
            n == s@.len(),
            p@.len() > 0,
            last == s@.len() - p@.len(),
            i <= last + 1,
            forall|j: int| 0 <= j < i ==> !occurs_at(s@, p@, j),
        decreases last + 1 - i,
    {
        if matches_at(s, p, i) {
            return true;
        }
        i = i + 1;
    }
    assert forall|j: int| !occurs_at(s@, p@, j) by {
        if 0 <= j && j + p@.len() <= s@.len() {
            assert(j <= last);
        }
    }
    false
}

/// Whether a string contains another.
pub fn str_contains(s: &str, p: &str) -> (r: bool)
    ensures
        r == contains(s@, p@),
{
    let sc = to_chars(s);
    let pc = to_chars(p);
    contains_chars(sc.as_slice(), pc.as_slice())
}

} // verus!
