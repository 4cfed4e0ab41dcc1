//! Decimal integers in text: trimming, parsing and formatting, with the
//! behaviour of std's `str::trim`, `isize::from_str` and `to_string`.

use vstd::prelude::*;

use crate::chars::push_char;

verus! {

/// The Unicode `White_Space` characters, which `char::is_whitespace`
/// recognizes.
pub open spec fn is_white_space(c: char) -> bool {
    ('\t' <= c && c <= '\r') || c == ' ' || c == '\u{85}' || c == '\u{a0}' || c == '\u{1680}' || (
    '\u{2000}' <= c && c <= '\u{200a}') || c == '\u{2028}' || c == '\u{2029}' || c == '\u{202f}'
        || c == '\u{205f}' || c == '\u{3000}'
}

/// Whether a character is Unicode white space.
pub fn is_whitespace(c: char) -> (res: bool)
    ensures
        res == is_white_space(c),
{
    ('\t' <= c && c <= '\r') || c == ' ' || c == '\u{85}' || c == '\u{a0}' || c == '\u{1680}' || (
    '\u{2000}' <= c && c <= '\u{200a}') || c == '\u{2028}' || c == '\u{2029}' || c == '\u{202f}'
        || c == '\u{205f}' || c == '\u{3000}'
}

/// `s` without its leading white space.
pub open spec fn trim_front(s: Seq<char>) -> Seq<char>
    decreases s.len(),
{
    if s.len() > 0 && is_white_space(s[0]) {
        trim_front(s.drop_first())
    } else {
        s
    }
}

/// `s` without its trailing white space.
pub open spec fn trim_back(s: Seq<char>) -> Seq<char>
    decreases s.len(),
{
    if s.len() > 0 && is_white_space(s.last()) {
        trim_back(s.drop_last())
    } else {
        s
    }
}

/// `s` without leading and trailing white space.
pub open spec fn trimmed(s: Seq<char>) -> Seq<char> {
    trim_back(trim_front(s))
}

/// Why a text is not a decimal integer, as std's `IntErrorKind` says.
#[derive(Clone, Copy, Debug, PartialEq, Eq, Structural)]
pub enum IntErrorKind {
    /// The text is empty.
    Empty,
    /// The text holds a character that is not a digit where one is needed.
    InvalidDigit,
    /// The number is too large for the type.
    PosOverflow,
    /// The number is too small for the type.
    NegOverflow,
}

pub open spec fn is_digit(c: char) -> bool {
    '0' <= c && c <= '9'
}

pub open spec fn digit_value(c: char) -> int {
    (c as int) - ('0' as int)
}

/// Reads the digits `ds[i..]` onto the value `v` read so far; a negative
/// number subtracts its digits.
pub open spec fn read_digits(ds: Seq<char>, i: int, v: int, neg: bool) -> Result<int, IntErrorKind>
    decreases ds.len() - i,
{
    if i >= ds.len() || i < 0 {
        Ok(v)
    } else if !is_digit(ds[i]) {
        Err(IntErrorKind::InvalidDigit)
    } else {
        let w = if neg {
            v * 10 - digit_value(ds[i])
        } else {
            v * 10 + digit_value(ds[i])
        };
        if w > isize::MAX {
            Err(IntErrorKind::PosOverflow)
        } else if w < isize::MIN {
            Err(IntErrorKind::NegOverflow)
        } else {
            read_digits(ds, i + 1, w, neg)
        }
    }
}

/// The `isize` that a text denotes: an optional sign and decimal digits.
pub open spec fn parse_isize_spec(s: Seq<char>) -> Result<int, IntErrorKind> {
    if s.len() == 0 {
        Err(IntErrorKind::Empty)
    } else if s == seq!['+'] || s == seq!['-'] {
        Err(IntErrorKind::InvalidDigit)
    } else if s[0] == '-' {
        read_digits(s, 1, 0, true)
    } else if s[0] == '+' {
        read_digits(s, 1, 0, false)
    } else {
        read_digits(s, 0, 0, false)
    }
}

/// The decimal digits of a natural number.
pub open spec fn decimal(n: nat) -> Seq<char>
    decreases n,
{
    if n < 10 {
        seq![(('0' as nat) + n) as char]
    } else {
        decimal(n / 10).push((('0' as nat) + n % 10) as char)
    }
}

/// The decimal text of an integer, with a `'-'` when it is negative.
pub open spec fn signed_decimal(n: int) -> Seq<char> {
    if n < 0 {
        seq!['-'] + decimal((-n) as nat)
    } else {
        decimal(n as nat)
    }
}

/// The bounds of the white space around `s`: `s[a..b]` is the trimmed text.
pub fn trim_bounds(s: &Vec<char>) -> (res: (usize, usize))
    ensures
        res.0 <= res.1 <= s@.len(),
        s@.subrange(res.0 as int, res.1 as int) == trimmed(s@),
{
    let mut a: usize = 0;
    assert(s@.subrange(0, s@.len() as int) =~= s@);
    while a < s.len() && is_whitespace(s[a])
        invariant
            0 <= a <= s@.len(),
            trim_front(s@) == trim_front(s@.subrange(a as int, s@.len() as int)),
        decreases s@.len() - a,
    {
        proof {
            let t = s@.subrange(a as int, s@.len() as int);
            assert(t.drop_first() =~= s@.subrange(a + 1, s@.len() as int));
        }
        a = a + 1;
    }
    let ghost f = s@.subrange(a as int, s@.len() as int);
    assert(trim_front(f) == f);
    let mut b: usize = s.len();
    while b > a && is_whitespace(s[b - 1])
        invariant
            a <= b <= s@.len(),
            trim_back(f) == trim_back(s@.subrange(a as int, b as int)),
            f == s@.subrange(a as int, s@.len() as int),
        decreases b,
    {
        proof {
            let t = s@.subrange(a as int, b as int);
            assert(t.drop_last() =~= s@.subrange(a as int, b - 1));
        }
        b = b - 1;
    }
    (a, b)
}

/// Parses an `isize` from `s[from..to]`, as `isize::from_str` does.
pub fn parse_isize(s: &Vec<char>, from: usize, to: usize) -> (res: Result<isize, IntErrorKind>)
    requires
        from <= to <= s@.len(),
    ensures
        match res {
            Ok(v) => parse_isize_spec(s@.subrange(from as int, to as int)) == Ok::<int, IntErrorKind>(
                v as int,
            ),
            Err(k) => parse_isize_spec(s@.subrange(from as int, to as int)) == Err::<int, IntErrorKind>(
                k,
            ),
        },
{
    let ghost t = s@.subrange(from as int, to as int);
    if from == to {
        return Err(IntErrorKind::Empty);
    }
    if to - from == 1 && (s[from] == '+' || s[from] == '-') {
        assert(t =~= seq![s@[from as int]]);
        return Err(IntErrorKind::InvalidDigit);
    }
    proof {
        if t == seq!['+'] || t == seq!['-'] {
            assert(t.len() == 1);
        }
    }
    assert(t[0] == s@[from as int]);
    let neg = s[from] == '-';
    let mut i: usize = if s[from] == '-' || s[from] == '+' {
        from + 1
    } else {
        from
    };
    let ghost start = i - from;
    let mut v: isize = 0;
    assert(parse_isize_spec(t) == read_digits(t, start, 0, neg));
    while i < to
        invariant
            from <= i <= to <= s@.len(),
            t == s@.subrange(from as int, to as int),
            read_digits(t, start, 0, neg) == read_digits(t, i - from, v as int, neg),
            neg ==> v <= 0,
            !neg ==> v >= 0,
            parse_isize_spec(t) == read_digits(t, start, 0, neg),
        decreases to - i,
    {
        let c = s[i];
        assert(t[i - from] == c);
        if !(c >= '0' && c <= '9') {
            return Err(IntErrorKind::InvalidDigit);
        }
        let d = (c as u32 - '0' as u32) as isize;
        assert(d == digit_value(c));
        let m = v.checked_mul(10);
        match m {
            None => {
                if neg {
                    assert(v * 10 - d < isize::MIN);
                    return Err(IntErrorKind::NegOverflow);
                } else {
                    assert(v * 10 + d > isize::MAX);
                    return Err(IntErrorKind::PosOverflow);
                }
            },
            Some(m) => {
                if neg {
                    match m.checked_sub(d) {
                        None => {
                            return Err(IntErrorKind::NegOverflow);
                        },
                        Some(w) => {
                            v = w;
                        },
                    }
                } else {
                    match m.checked_add(d) {
                        None => {
                            return Err(IntErrorKind::PosOverflow);
                        },
                        Some(w) => {
                            v = w;
                        },
                    }
                }
            },
        }
        i = i + 1;
    }
    assert(parse_isize_spec(t) == read_digits(t, start, 0, neg));
    Ok(v)
}

/// The decimal text of a `usize`.
pub fn format_usize(n: usize) -> (res: String)
    ensures
        res@ == decimal(n as nat),
    decreases n,
{
    if n < 10 {
        let mut s = String::new();
        let c = char_of_digit(n as u32);
        push_char(&mut s, c);
        assert(s@ =~= decimal(n as nat));
        s
    } else {
        let mut s = format_usize(n / 10);
        let c = char_of_digit((n % 10) as u32);
        push_char(&mut s, c);
        s
    }
}

/// The decimal text of an `isize`.
pub fn format_isize(n: isize) -> (res: String)
    ensures
        res@ == signed_decimal(n as int),
{
    if n < 0 {
        let m: usize = if n == isize::MIN {
            (isize::MAX as usize) + 1
        } else {
            (-n) as usize
        };
        let mut s = String::new();
        push_char(&mut s, '-');
        let t = format_usize(m);
        crate::chars::push_string(&mut s, t.as_str());
        assert(s@ =~= signed_decimal(n as int));
        s
    } else {
        format_usize(n as usize)
    }
}

fn char_of_digit(d: u32) -> (res: char)
    requires
        d < 10,
    ensures
        res == (('0' as nat) + d) as char,
{
    if d == 0 {
        '0'
    } else if d == 1 {
        '1'
    } else if d == 2 {
        '2'
    } else if d == 3 {
        '3'
    } else if d == 4 {
        '4'
    } else if d == 5 {
        '5'
    } else if d == 6 {
        '6'
    } else if d == 7 {
        '7'
    } else if d == 8 {
        '8'
    } else {
        '9'
    }
}

// ---------------------------------------------------------------------
// Formatting then parsing gives the number back
// ---------------------------------------------------------------------

proof fn lemma_read_digits_push(s: Seq<char>, c: char, i: int, v: int, neg: bool)
    requires
        0 <= i <= s.len(),
    ensures
        read_digits(s.push(c), i, v, neg) == match read_digits(s, i, v, neg) {
            Ok(w) => read_digits(seq![c], 0, w, neg),
            Err(e) => Err(e),
        },
    decreases s.len() - i,
{
    let t = s.push(c);
    if i == s.len() {
        assert(t[i] == c);
        assert(seq![c][0] == c);
        if is_digit(c) {
            let w = if neg {
                v * 10 - digit_value(c)
            } else {
                v * 10 + digit_value(c)
            };
            assert(read_digits(t, i + 1, w, neg) == Ok::<int, IntErrorKind>(w));
            assert(read_digits(seq![c], 1, w, neg) == Ok::<int, IntErrorKind>(w));
        }
    } else {
        assert(t[i] == s[i]);
        if is_digit(s[i]) {
            let w = if neg {
                v * 10 - digit_value(s[i])
            } else {
                v * 10 + digit_value(s[i])
            };
            if isize::MIN <= w <= isize::MAX {
                lemma_read_digits_push(s, c, i + 1, w, neg);
            }
        }
    }
}

proof fn lemma_read_digits_shift(p: Seq<char>, d: Seq<char>, i: int, v: int, neg: bool)
    requires
        0 <= i <= d.len(),
    ensures
        read_digits(p + d, p.len() + i, v, neg) == read_digits(d, i, v, neg),
    decreases d.len() - i,
{
    if i < d.len() {
        assert((p + d)[p.len() + i] == d[i]);
        if is_digit(d[i]) {
            let w = if neg {
                v * 10 - digit_value(d[i])
            } else {
                v * 10 + digit_value(d[i])
            };
            if isize::MIN <= w <= isize::MAX {
                lemma_read_digits_shift(p, d, i + 1, w, neg);
            }
        }
    }
}

proof fn lemma_decimal_shape(m: nat)
    ensures
        decimal(m).len() > 0,
        forall|j: int| 0 <= j < decimal(m).len() ==> is_digit(#[trigger] decimal(m)[j]),
    decreases m,
{
    if m >= 10 {
        lemma_decimal_shape(m / 10);
        let d = decimal(m / 10);
        assert forall|j: int| 0 <= j < decimal(m).len() implies is_digit(#[trigger] decimal(m)[j]) by {
            if j < d.len() {
                assert(decimal(m)[j] == d[j]);
            }
        }
    }
}

proof fn lemma_read_decimal(m: nat, neg: bool)
    requires
        !neg ==> m <= isize::MAX,
        neg ==> m <= -(isize::MIN as int),
    ensures
        read_digits(decimal(m), 0, 0, neg) == Ok::<int, IntErrorKind>(
            if neg {
                -(m as int)
            } else {
                m as int
            },
        ),
    decreases m,
{
    let c = (('0' as nat) + m % 10) as char;
    assert(digit_value(c) == m % 10);
    let r: int = if neg {
        -(m as int)
    } else {
        m as int
    };
    if m < 10 {
        assert(decimal(m) == seq![c]);
        assert(read_digits(seq![c], 1, r, neg) == Ok::<int, IntErrorKind>(r));
    } else {
        let q = m / 10;
        assert(q * 10 + m % 10 == m) by (nonlinear_arith)
            requires
                q == m / 10,
        ;
        lemma_read_decimal(q, neg);
        lemma_decimal_shape(q);
        lemma_read_digits_push(decimal(q), c, 0, 0, neg);
        assert(decimal(m) == decimal(q).push(c));
        assert(read_digits(seq![c], 1, r, neg) == Ok::<int, IntErrorKind>(r));
    }
}

proof fn lemma_trimmed_digits(s: Seq<char>)
    requires
        s.len() > 0,
        !is_white_space(s[0]),
        !is_white_space(s.last()),
    ensures
        trimmed(s) == s,
{
}

/// Formatting an `isize` in decimal and reading it back, white space
/// trimmed, gives the number again.
pub proof fn lemma_parse_signed_decimal(n: int)
    requires
        isize::MIN <= n <= isize::MAX,
    ensures
        trimmed(signed_decimal(n)) == signed_decimal(n),
        parse_isize_spec(signed_decimal(n)) == Ok::<int, IntErrorKind>(n),
{
    if n < 0 {
        let m = (-n) as nat;
        let d = decimal(m);
        lemma_decimal_shape(m);
        lemma_read_decimal(m, true);
        let s = seq!['-'] + d;
        assert(s[0] == '-');
        assert(s.last() == d.last());
        assert(is_digit(d[d.len() - 1]));
        lemma_trimmed_digits(s);
        lemma_read_digits_shift(seq!['-'], d, 0, 0, true);
        assert(s != seq!['+'] && s != seq!['-']) by {
            assert(s.len() >= 2);
        }
    } else {
        let m = n as nat;
        let d = decimal(m);
        lemma_decimal_shape(m);
        lemma_read_decimal(m, false);
        assert(is_digit(d[0]));
        assert(is_digit(d[d.len() - 1]));
        lemma_trimmed_digits(d);
        assert(d != seq!['+'] && d != seq!['-']) by {
            if d.len() == 1 {
                assert(d[0] != '+' && d[0] != '-');
            }
        }
    }
}

} // verus!
