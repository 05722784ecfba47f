//! Facts about source bytes: classes of characters, runs of a class, line
//! numbers and decimal values.
use vstd::prelude::*;

verus! {

pub const TAB: u8 = 9;
pub const NEWLINE: u8 = 10;
pub const FORM_FEED: u8 = 12;
pub const CARRIAGE_RETURN: u8 = 13;
pub const SPACE: u8 = 32;
pub const BANG: u8 = 33;
pub const AMPERSAND: u8 = 38;
pub const OPEN_PAREN: u8 = 40;
pub const CLOSE_PAREN: u8 = 41;
pub const STAR: u8 = 42;
pub const PLUS: u8 = 43;
pub const MINUS: u8 = 45;
pub const SLASH: u8 = 47;
pub const DIGIT_ZERO: u8 = 48;
pub const DIGIT_NINE: u8 = 57;
pub const COLON: u8 = 58;
pub const SEMICOLON: u8 = 59;
pub const LESS: u8 = 60;
pub const EQUAL: u8 = 61;
pub const GREATER: u8 = 62;
pub const UNDERSCORE: u8 = 95;
pub const OPEN_BRACE: u8 = 123;
pub const PIPE: u8 = 124;
pub const CLOSE_BRACE: u8 = 125;

/// `0`–`9`.
pub open spec fn is_digit_spec(c: u8) -> bool {
    48 <= c <= 57
}

/// `A`–`Z` and `a`–`z`.
pub open spec fn is_alpha_spec(c: u8) -> bool {
    (65 <= c <= 90) || (97 <= c <= 122)
}

/// What `u8::is_ascii_whitespace` accepts: tab, newline, form feed,
/// carriage return and space.
pub open spec fn is_ascii_whitespace_spec(c: u8) -> bool {
    c == 9 || c == 10 || c == 12 || c == 13 || c == 32
}

/// Bytes 9 to 13 and the space.
pub open spec fn is_blank_spec(c: u8) -> bool {
    (9 <= c <= 13) || c == 32
}

/// A byte that may continue an identifier: a letter, a digit or `_`.
pub open spec fn is_ident_continue_spec(c: u8) -> bool {
    is_alpha_spec(c) || is_digit_spec(c) || c == 95
}

pub fn is_digit(c: u8) -> (r: bool)
    ensures
        r == is_digit_spec(c),
{
    48 <= c && c <= 57
}

pub fn is_alpha(c: u8) -> (r: bool)
    ensures
        r == is_alpha_spec(c),
{
    (65 <= c && c <= 90) || (97 <= c && c <= 122)
}

pub fn is_ascii_whitespace(c: u8) -> (r: bool)
    ensures
        r == is_ascii_whitespace_spec(c),
{
    c == 9 || c == 10 || c == 12 || c == 13 || c == 32
}

pub fn is_blank(c: u8) -> (r: bool)
    ensures
        r == is_blank_spec(c),
{
    (9 <= c && c <= 13) || c == 32
}

pub fn is_ident_continue(c: u8) -> (r: bool)
    ensures
        r == is_ident_continue_spec(c),
{
    is_alpha(c) || is_digit(c) || c == 95
}

/// A class of bytes.
#[derive(PartialEq, Eq, Structural)]
pub enum ByteClass {
    Digit,
    Alpha,
    IdentContinue,
    AsciiWhitespace,
    Blank,
}

/// Whether `c` is in class `k`.
pub open spec fn in_class(c: u8, k: ByteClass) -> bool {
    match k {
        ByteClass::Digit => is_digit_spec(c),
        ByteClass::Alpha => is_alpha_spec(c),
        ByteClass::IdentContinue => is_ident_continue_spec(c),
        ByteClass::AsciiWhitespace => is_ascii_whitespace_spec(c),
        ByteClass::Blank => is_blank_spec(c),
    }
}

/// The first index at or after `i` whose byte is not in class `p`, or the
/// length of `s` when every byte from `i` on is.
pub open spec fn scan_while(s: Seq<u8>, i: int, p: ByteClass) -> int
    decreases s.len() - i,
{
    if i < 0 || i >= s.len() {
        if i < 0 { 0 } else { i }
    } else if in_class(s[i], p) {
        scan_while(s, i + 1, p)
    } else {
        i
    }
}

/// Every byte of `s` in `[i, j)` is in class `p`.
pub open spec fn all_in(s: Seq<u8>, i: int, j: int, p: ByteClass) -> bool {
    forall|k: int| i <= k < j ==> #[trigger] in_class(s[k], p)
}

/// `scan_while` stops at the first byte that fails `p`.
pub proof fn lemma_scan_while(s: Seq<u8>, i: int, p: ByteClass)
    requires
        0 <= i <= s.len(),
    ensures
        i <= scan_while(s, i, p) <= s.len(),
        all_in(s, i, scan_while(s, i, p), p),
        scan_while(s, i, p) < s.len() ==> !in_class(s[scan_while(s, i, p)], p),
    decreases s.len() - i,
{
    if i < s.len() && in_class(s[i], p) {
        lemma_scan_while(s, i + 1, p);
    }
}

/// The number of newline bytes among the first `n` bytes of `s`.
pub open spec fn count_newlines(s: Seq<u8>, n: int) -> nat
    decreases n,
{
    if n <= 0 || n > s.len() {
        0
    } else {
        count_newlines(s, n - 1) + if s[n - 1] == 10 { 1nat } else { 0nat }
    }
}

/// The offset at which the line holding offset `n` begins: one past the
/// last newline before `n`, or 0.
pub open spec fn line_start(s: Seq<u8>, n: int) -> int
    decreases n,
{
    if n <= 0 || n > s.len() {
        0
    } else if s[n - 1] == 10 {
        n
    } else {
        line_start(s, n - 1)
    }
}

pub proof fn lemma_count_newlines_bound(s: Seq<u8>, n: int)
    requires
        0 <= n <= s.len(),
    ensures
        count_newlines(s, n) <= n,
        0 <= line_start(s, n) <= n,
    decreases n,
{
    if n > 0 {
        lemma_count_newlines_bound(s, n - 1);
    }
}

/// The value of the decimal digits `d`, most significant first.
pub open spec fn decimal_value(d: Seq<u8>) -> nat
    decreases d.len(),
{
    if d.len() == 0 {
        0
    } else {
        decimal_value(d.drop_last()) * 10 + (d.last() - 48) as nat
    }
}

/// `a` and `b` hold the same bytes.
pub fn bytes_eq(a: &[u8], b: &[u8]) -> (r: bool)
    ensures
        r == (a@ == b@),
{
    if a.len() != b.len() {
        return false;
    }
    let mut i: usize = 0;
    while i < a.len()
        invariant
            i <= a.len(),
            a.len() == b.len(),
            forall|j: int| 0 <= j < i ==> a@[j] == b@[j],
        decreases a.len() - i,
    {
        if a[i] != b[i] {
            return false;
        }
        i += 1;
    }
    assert(a@ =~= b@);
    true
}

} // verus!

verus! {

/// A prefix of a digit string has a value no larger than the whole.
pub proof fn lemma_decimal_prefix(d: Seq<u8>, k: int)
    requires
        0 <= k <= d.len(),
        forall|i: int| 0 <= i < d.len() ==> is_digit_spec(#[trigger] d[i]),
    ensures
        decimal_value(d.subrange(0, k)) <= decimal_value(d),
    decreases d.len() - k,
{
    if k < d.len() {
        lemma_decimal_prefix(d, k + 1);
        let p = d.subrange(0, k + 1);
        assert(p.drop_last() =~= d.subrange(0, k));
    } else {
        assert(d.subrange(0, k) =~= d);
    }
}

/// The value of the decimal digits `d`, which fits a `u128`.
pub fn parse_decimal_u128(d: &[u8]) -> (v: u128)
    requires
        forall|i: int| 0 <= i < d@.len() ==> is_digit_spec(#[trigger] d@[i]),
        decimal_value(d@) <= u128::MAX,
    ensures
        v == decimal_value(d@),
{
    let mut v: u128 = 0;
    let mut i: usize = 0;
    assert(d@.subrange(0, 0) =~= Seq::<u8>::empty());
    while i < d.len()
        invariant
            i <= d@.len(),
            forall|j: int| 0 <= j < d@.len() ==> is_digit_spec(#[trigger] d@[j]),
            decimal_value(d@) <= u128::MAX,
            v == decimal_value(d@.subrange(0, i as int)),
        decreases d@.len() - i,
    {
        proof {
            lemma_decimal_prefix(d@, i + 1);
            let p = d@.subrange(0, i + 1);
            assert(p.drop_last() =~= d@.subrange(0, i as int));
            assert(p.last() == d@[i as int]);
        }
        let digit: u8 = d[i] - 48;
        v = v * 10 + digit as u128;
        i = i + 1;
    }
    assert(d@.subrange(0, d@.len() as int) =~= d@);
    v
}

/// `[i, j)` is a run of digits that a lexer reads as one integer literal:
/// no byte that continues a word stands before it, and no digit after it.
pub open spec fn literal_run(s: Seq<u8>, i: int, j: int) -> bool {
    &&& 0 <= i <= j <= s.len()
    &&& all_in(s, i, j, ByteClass::Digit)
    &&& (i == 0 || !is_ident_continue_spec(s[i - 1]))
    &&& (j == s.len() || !is_digit_spec(s[j]))
}

/// Every integer literal of `s` has a value that fits a `u128`.
pub open spec fn literals_fit(s: Seq<u8>) -> bool {
    forall|i: int, j: int| literal_run(s, i, j) ==> #[trigger] decimal_value(s.subrange(i, j)) <= u128::MAX
}

} // verus!

verus! {

/// The digits of a decimal numeral: `s` without a leading `+`.
pub open spec fn unsigned_digits(s: Seq<u8>) -> Seq<u8> {
    if s.len() > 0 && s[0] == PLUS {
        s.drop_first()
    } else {
        s
    }
}

/// `s` is the text of a `u128` in base 10: an optional `+`, then at least
/// one digit, with a value that fits.
pub open spec fn is_u128_text(s: Seq<u8>) -> bool {
    is_u128_text_digits(unsigned_digits(s))
}

/// A prefix of a digit string extended by one digit has the value of the
/// prefix times ten plus that digit.
proof fn lemma_decimal_step(d: Seq<u8>, k: int)
    requires
        0 <= k < d.len(),
    ensures
        decimal_value(d.subrange(0, k + 1)) == decimal_value(d.subrange(0, k)) * 10 + (d[k] - 48) as nat,
{
    let p = d.subrange(0, k + 1);
    assert(p.drop_last() =~= d.subrange(0, k));
}

/// The value of `s` read as a `u128` in base 10 (an optional `+`, then
/// digits), or `None` where `s` is not such a numeral or its value does not
/// fit.
pub fn parse_u128_text(s: &[u8]) -> (r: Option<u128>)
    ensures
        r == if is_u128_text(s@) { Some(decimal_value(unsigned_digits(s@)) as u128) } else { None::<u128> },
{
    let n: usize = s.len();
    let start: usize = if n > 0 && s[0] == PLUS { 1 } else { 0 };
    let ghost d = unsigned_digits(s@);
    assert(d =~= s@.subrange(start as int, n as int));
    if start == n {
        return None;
    }
    let mut v: u128 = 0;
    let mut i: usize = start;
    assert(d.subrange(0, 0) =~= Seq::<u8>::empty());
    while i < n
        invariant
            start <= i <= n,
            n == s@.len(),
            d == s@.subrange(start as int, n as int),
            d == unsigned_digits(s@),
            forall|j: int| 0 <= j < i - start ==> is_digit_spec(#[trigger] d[j]),
            v == decimal_value(d.subrange(0, i - start)),
        decreases n - i,
    {
        let c: u8 = s[i];
        assert(d[i - start] == c);
        if !is_digit(c) {
            return None;
        }
        proof {
            lemma_decimal_step(d, i - start);
        }
        let digit: u128 = (c - 48) as u128;
        match v.checked_mul(10) {
            Some(t) => match t.checked_add(digit) {
                Some(w) => {
                    v = w;
                },
                None => {
                    proof {
                        assert forall|j: int| 0 <= j < i - start + 1 implies is_digit_spec(#[trigger] d[j]) by {
                            if j == i - start {
                                assert(d[j] == c);
                            }
                        }
                        lemma_big_prefix(d, i - start + 1);
                    }
                    return None;
                },
            },
            None => {
                proof {
                    assert forall|j: int| 0 <= j < i - start + 1 implies is_digit_spec(#[trigger] d[j]) by {
                        if j == i - start {
                            assert(d[j] == c);
                        }
                    }
                    lemma_big_prefix(d, i - start + 1);
                }
                return None;
            },
        }
        i = i + 1;
    }
    assert(d.subrange(0, n - start) =~= d);
    Some(v)
}

/// A digit prefix of `d` that does not fit a `u128` means that `d` does not
/// either, or that some later byte is not a digit.
proof fn lemma_big_prefix(d: Seq<u8>, k: int)
    requires
        0 < k <= d.len(),
        forall|j: int| 0 <= j < k ==> is_digit_spec(#[trigger] d[j]),
        decimal_value(d.subrange(0, k)) > u128::MAX,
    ensures
        !is_u128_text_digits(d),
{
    if is_u128_text_digits(d) {
        lemma_decimal_prefix(d, k);
    }
}

/// `d` is a nonempty digit string whose value fits a `u128`.
pub open spec fn is_u128_text_digits(d: Seq<u8>) -> bool {
    &&& d.len() > 0
    &&& forall|i: int| 0 <= i < d.len() ==> is_digit_spec(#[trigger] d[i])
    &&& decimal_value(d) <= u128::MAX
}

/// Whether every integer literal of `s` fits a `u128`: `literals_fit`,
/// computed.
pub fn check_literals_fit(s: &[u8]) -> (b: bool)
    ensures
        b == literals_fit(s@),
{
    let n: usize = s.len();
    let mut i: usize = 0;
    while i < n
        invariant
            i <= n,
            n == s@.len(),
            forall|a: int, c: int| 0 <= a < i && literal_run(s@, a, c) ==> #[trigger] decimal_value(s@.subrange(a, c)) <= u128::MAX,
        decreases n - i,
    {
        let starts = is_digit(s[i]) && (i == 0 || !is_ident_continue(s[i - 1]));
        if starts {
            let mut j: usize = i;
            while j < n && is_digit(s[j])
                invariant
                    i <= j <= n,
                    n == s@.len(),
                    all_in(s@, i as int, j as int, ByteClass::Digit),
                decreases n - j,
            {
                j = j + 1;
            }
            let run = &s[i..j];
            assert(run@ == s@.subrange(i as int, j as int));
            assert(unsigned_digits(run@) == run@);
            let fits = parse_u128_text(run).is_some();
            if !fits {
                assert(j > i) by {
                    if j == i {
                        assert(in_class(s@[i as int], ByteClass::Digit));
                    }
                }
                assert forall|k: int| 0 <= k < run@.len() implies is_digit_spec(#[trigger] run@[k]) by {
                    assert(in_class(s@[i + k], ByteClass::Digit));
                }
                assert(literal_run(s@, i as int, j as int));
                assert(!(decimal_value(s@.subrange(i as int, j as int)) <= u128::MAX));
                return false;
            }
            proof {
                assert forall|a: int, c: int| 0 <= a < j && literal_run(s@, a, c) implies
                    #[trigger] decimal_value(s@.subrange(a, c)) <= u128::MAX by {
                    if a == i {
                        if c < j {
                            assert(in_class(s@[c], ByteClass::Digit));
                        } else if c > j {
                            assert(in_class(s@[j as int], ByteClass::Digit));
                        }
                    } else if a > i {
                        if a < c {
                            assert(in_class(s@[a - 1], ByteClass::Digit));
                        } else {
                            assert(in_class(s@[a], ByteClass::Digit));
                        }
                    }
                }
            }
            i = j;
        } else {
            proof {
                assert forall|a: int, c: int| 0 <= a < i + 1 && literal_run(s@, a, c) implies
                    #[trigger] decimal_value(s@.subrange(a, c)) <= u128::MAX by {
                    if a == i {
                        if a < c {
                            assert(in_class(s@[a], ByteClass::Digit));
                        } else {
                            assert(s@.subrange(a, c) =~= Seq::<u8>::empty());
                        }
                    }
                }
            }
            i = i + 1;
        }
    }
    proof {
        assert forall|a: int, c: int| literal_run(s@, a, c) implies
            #[trigger] decimal_value(s@.subrange(a, c)) <= u128::MAX by {
            if a == n {
                assert(s@.subrange(a, c) =~= Seq::<u8>::empty());
            }
        }
    }
    true
}

} // verus!
