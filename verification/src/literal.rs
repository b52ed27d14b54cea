//! Radix-generic interpretation of numeric literals: integers in radix 2, 10
//! or 16, and reals in dotted or exponent form. A real literal is kept as
//! exact integer parts (mantissa, scale and radix); the value denoted is
//! `mantissa * radix ^ (-scale)`.

use vstd::prelude::*;
use vstd::string::StrSliceExecFns;
use vstd::string::StringExecFns;

verus! {

/// The exact parts of a real literal: the denoted value is
/// `mantissa * radix ^ (-scale)`.
#[derive(Debug, Clone, Copy, PartialEq, Eq, Structural)]
pub struct RealValue {
    pub mantissa: i64,
    pub scale: i64,
    pub radix: u32,
}

/// Why an integer literal failed to parse.
#[derive(Debug, Clone, Copy, PartialEq, Eq, Structural)]
pub enum IntParseError {
    Empty,
    InvalidDigit,
    Overflow,
}

/// Why a real literal failed to parse: its integer parts failed, or the
/// literal has neither a decimal point nor an exponent marker.
#[derive(Debug, Clone, Copy, PartialEq, Eq, Structural)]
pub enum ParseFloatError {
    IntError(IntParseError),
    MissingPoint,
}

/// The message text of an integer parse failure.
pub open spec fn int_error_text(e: IntParseError) -> Seq<char> {
    match e {
        IntParseError::Empty => "cannot parse integer from empty string"@,
        IntParseError::InvalidDigit => "invalid digit found in string"@,
        IntParseError::Overflow => "number too large to fit in target type"@,
    }
}

/// The message text of a real parse failure.
pub open spec fn float_error_text(e: ParseFloatError) -> Seq<char> {
    match e {
        ParseFloatError::IntError(ie) => int_error_text(ie),
        ParseFloatError::MissingPoint => "Missing floating point"@,
    }
}

impl IntParseError {
    /// Renders this failure's message.
    pub fn describe(&self) -> (r: String)
        ensures
            r@ == int_error_text(*self),
    {
        match self {
            IntParseError::Empty => String::from_str("cannot parse integer from empty string"),
            IntParseError::InvalidDigit => String::from_str("invalid digit found in string"),
            IntParseError::Overflow => String::from_str("number too large to fit in target type"),
        }
    }
}

impl ParseFloatError {
    /// Renders this failure's message.
    pub fn describe(&self) -> (r: String)
        ensures
            r@ == float_error_text(*self),
    {
        match self {
            ParseFloatError::IntError(ie) => ie.describe(),
            ParseFloatError::MissingPoint => String::from_str("Missing floating point"),
        }
    }
}

// ---------------------------------------------------------------------------
// The parsing model
// ---------------------------------------------------------------------------

/// Numeric value of one digit character, digits beyond 9 written as Latin
/// letters of either case; a non-digit maps above every radix.
pub open spec fn digit_value(c: char) -> u32 {
    if '0' as u32 <= c as u32 && c as u32 <= '9' as u32 {
        (c as u32 - '0' as u32) as u32
    } else if 'a' as u32 <= c as u32 && c as u32 <= 'z' as u32 {
        (c as u32 - 'a' as u32 + 10) as u32
    } else if 'A' as u32 <= c as u32 && c as u32 <= 'Z' as u32 {
        (c as u32 - 'A' as u32 + 10) as u32
    } else {
        u32::MAX
    }
}

/// Whether `c` is a digit of the given radix.
pub open spec fn is_digit_of(c: char, radix: u32) -> bool {
    digit_value(c) < radix
}

/// Whether every character is a digit of the given radix.
pub open spec fn all_digits(s: Seq<char>, radix: u32) -> bool
    decreases s.len(),
{
    s.len() == 0 || (is_digit_of(s[0], radix) && all_digits(s.drop_first(), radix))
}

/// Positional value of a digit string: each digit shifts the accumulator by
/// one radix position.
pub open spec fn digits_value(s: Seq<char>, radix: u32) -> int
    decreases s.len(),
{
    if s.len() == 0 {
        0
    } else {
        digits_value(s.drop_last(), radix) * radix + digit_value(s.last())
    }
}

/// Exact behaviour of integer parsing: an optional sign, then at least one
/// digit of the radix, and a value within the signed 64-bit range.
pub open spec fn int_from_str(s: Seq<char>, radix: u32) -> Result<i64, IntParseError> {
    let signed = s.len() > 0 && (s[0] == '+' || s[0] == '-');
    let neg = s.len() > 0 && s[0] == '-';
    let digits = if signed {
        s.drop_first()
    } else {
        s
    };
    if digits.len() == 0 {
        Err(IntParseError::Empty)
    } else if !all_digits(digits, radix) {
        Err(IntParseError::InvalidDigit)
    } else {
        let v = digits_value(digits, radix);
        if neg {
            if v <= (i64::MAX as int) + 1 {
                Ok((-v) as i64)
            } else {
                Err(IntParseError::Overflow)
            }
        } else {
            if v <= i64::MAX as int {
                Ok(v as i64)
            } else {
                Err(IntParseError::Overflow)
            }
        }
    }
}

/// Index of the first occurrence of `c`, or -1.
pub open spec fn find_first(s: Seq<char>, c: char) -> int
    decreases s.len(),
{
    if s.len() == 0 {
        -1
    } else if s[0] == c {
        0
    } else {
        let r = find_first(s.drop_first(), c);
        if r == -1 {
            -1
        } else {
            1 + r
        }
    }
}

/// Index of the first exponent marker (`e` or `E`), or -1.
pub open spec fn find_exp_marker(s: Seq<char>) -> int
    decreases s.len(),
{
    if s.len() == 0 {
        -1
    } else if s[0] == 'e' || s[0] == 'E' {
        0
    } else {
        let r = find_exp_marker(s.drop_first());
        if r == -1 {
            -1
        } else {
            1 + r
        }
    }
}

/// Exact behaviour of real parsing. A dotted literal reassembles the digits
/// around the dot into an integer mantissa scaled down by the number of
/// fractional digits. Otherwise a literal `mantissa e exponent` reads the
/// exponent in decimal, whatever the mantissa radix, and scales down by it.
/// With neither form present the literal is rejected as missing its point.
pub open spec fn real_from_str(s: Seq<char>, radix: u32) -> Result<RealValue, ParseFloatError> {
    let dot = find_first(s, '.');
    if dot >= 0 {
        let mantissa_digits = s.take(dot) + s.skip(dot + 1);
        let scale = s.len() - dot - 1;
        match int_from_str(mantissa_digits, radix) {
            Ok(m) => Ok(RealValue { mantissa: m, scale: scale as i64, radix }),
            Err(e) => Err(ParseFloatError::IntError(e)),
        }
    } else {
        let marker = find_exp_marker(s);
        if marker < 0 {
            Err(ParseFloatError::MissingPoint)
        } else {
            match int_from_str(s.take(marker), radix) {
                Err(e) => Err(ParseFloatError::IntError(e)),
                Ok(m) => match int_from_str(s.skip(marker + 1), 10) {
                    Err(e) => Err(ParseFloatError::IntError(e)),
                    Ok(x) => Ok(RealValue { mantissa: m, scale: x, radix }),
                },
            }
        }
    }
}

// ---------------------------------------------------------------------------
// Supporting lemmas
// ---------------------------------------------------------------------------

proof fn lemma_digits_value_nonneg(s: Seq<char>, radix: u32)
    ensures
        digits_value(s, radix) >= 0,
    decreases s.len(),
{
    if s.len() > 0 {
        lemma_digits_value_nonneg(s.drop_last(), radix);
        let p = digits_value(s.drop_last(), radix);
        assert(p * radix >= 0) by (nonlinear_arith)
            requires
                p >= 0,
                radix >= 0,
        ;
    }
}

proof fn lemma_digits_value_step(s: Seq<char>, i: int, radix: u32)
    requires
        0 <= i < s.len(),
    ensures
        digits_value(s.take(i + 1), radix) == digits_value(s.take(i), radix) * radix
            + digit_value(s[i]),
{
    assert(s.take(i + 1).drop_last() =~= s.take(i));
    assert(s.take(i + 1).last() == s[i]);
}

proof fn lemma_digits_value_prefix_le(s: Seq<char>, i: int, radix: u32)
    requires
        0 <= i <= s.len(),
        radix >= 2,
    ensures
        digits_value(s.take(i), radix) <= digits_value(s, radix),
    decreases s.len() - i,
{
    if i < s.len() {
        lemma_digits_value_step(s, i, radix);
        let p = digits_value(s.take(i), radix);
        lemma_digits_value_nonneg(s.take(i), radix);
        assert(p * radix >= p) by (nonlinear_arith)
            requires
                p >= 0,
                radix >= 1,
        ;
        lemma_digits_value_prefix_le(s, i + 1, radix);
    } else {
        assert(s.take(i) =~= s);
    }
}

proof fn lemma_all_digits_iff(s: Seq<char>, radix: u32)
    ensures
        all_digits(s, radix) <==> (forall|i: int| 0 <= i < s.len() ==> is_digit_of(s[i], radix)),
    decreases s.len(),
{
    if s.len() > 0 {
        lemma_all_digits_iff(s.drop_first(), radix);
        assert forall|i: int| 1 <= i < s.len() implies s.drop_first()[i - 1] == s[i] by {}
    }
}

// ---------------------------------------------------------------------------
// Executable parsing
// ---------------------------------------------------------------------------

/// Classifies one character as a digit of the radix.
fn digit_of(c: char, radix: u32) -> (r: Option<u32>)
    ensures
        r == (if is_digit_of(c, radix) {
            Some(digit_value(c))
        } else {
            None::<u32>
        }),
{
    let u = c as u32;
    let value: u32 = if u >= '0' as u32 && u <= '9' as u32 {
        u - '0' as u32
    } else if u >= 'a' as u32 && u <= 'z' as u32 {
        u - 'a' as u32 + 10
    } else if u >= 'A' as u32 && u <= 'Z' as u32 {
        u - 'A' as u32 + 10
    } else {
        u32::MAX
    };
    if value < radix {
        Some(value)
    } else {
        None
    }
}

/// Parses a signed integer literal in the given radix: an optional sign,
/// then digits. Rejects an empty digit string, a digit outside the radix,
/// and a value outside the signed 64-bit range.
#[verifier::loop_isolation(false)]
pub fn parse_i64_radix(s: &str, radix: u32) -> (r: Result<i64, IntParseError>)
    requires
        2 <= radix <= 36,
    ensures
        r == int_from_str(s@, radix),
{
    let n = s.unicode_len();
    let mut start: usize = 0;
    let mut neg = false;
    if n > 0 {
        let c0 = s.get_char(0);
        if c0 == '+' || c0 == '-' {
            start = 1;
            neg = c0 == '-';
        }
    }
    let ghost digits: Seq<char> = s@.skip(start as int);
    proof {
        assert(digits.len() == n - start);
        if start == 0 {
            assert(digits =~= s@);
        } else {
            assert(digits =~= s@.drop_first());
        }
    }
    if start >= n {
        return Err(IntParseError::Empty);
    }
    // First pass: every character must be a digit of the radix.
    let mut i: usize = start;
    while i < n
        invariant
            start <= i <= n,
            forall|j: int| 0 <= j < i - start ==> is_digit_of(digits[j], radix),
        decreases n - i,
    {
        let c = s.get_char(i);
        proof {
            assert(c == digits[i - start]);
        }
        if digit_of(c, radix).is_none() {
            proof {
                lemma_all_digits_iff(digits, radix);
                assert(!is_digit_of(digits[i - start], radix));
            }
            return Err(IntParseError::InvalidDigit);
        }
        i = i + 1;
    }
    proof {
        lemma_all_digits_iff(digits, radix);
    }
    // Second pass: positional accumulation with overflow checks.
    let mut acc: i64 = 0;
    let mut i: usize = start;
    while i < n
        invariant
            start <= i <= n,
            forall|j: int| 0 <= j < digits.len() ==> is_digit_of(digits[j], radix),
            !neg ==> acc == digits_value(digits.take(i - start), radix),
            neg ==> acc == -digits_value(digits.take(i - start), radix),
        decreases n - i,
    {
        let c = s.get_char(i);
        proof {
            assert(c == digits[i - start]);
        }
        let d = match digit_of(c, radix) {
            Some(d) => d,
            None => {
                proof {
                    assert(false);
                }
                return Err(IntParseError::InvalidDigit);
            },
        };
        proof {
            lemma_digits_value_step(digits, i - start, radix);
            lemma_digits_value_nonneg(digits.take(i - start), radix);
        }
        if !neg {
            let ghost p = digits_value(digits.take(i - start), radix);
            proof {
                assert((acc as int) * (radix as int) >= 0) by (nonlinear_arith)
                    requires
                        acc >= 0,
                        radix >= 0,
                ;
            }
            let scaled = match acc.checked_mul(radix as i64) {
                Some(v) => v,
                None => {
                    proof {
                        assert(p * radix + digit_value(digits[i - start]) > i64::MAX as int);
                        overflow_witness_pos(digits, i - start, radix);
                        lemma_all_digits_iff(digits, radix);
                    }
                    return Err(IntParseError::Overflow);
                },
            };
            acc = match scaled.checked_add(d as i64) {
                Some(v) => v,
                None => {
                    proof {
                        assert(p * radix + digit_value(digits[i - start]) > i64::MAX as int);
                        overflow_witness_pos(digits, i - start, radix);
                        lemma_all_digits_iff(digits, radix);
                    }
                    return Err(IntParseError::Overflow);
                },
            };
        } else {
            let ghost p = digits_value(digits.take(i - start), radix);
            proof {
                assert((acc as int) * (radix as int) <= 0) by (nonlinear_arith)
                    requires
                        acc <= 0,
                        radix >= 0,
                ;
                assert((acc as int) * (radix as int) == -(p * radix)) by (nonlinear_arith)
                    requires
                        acc == -p,
                ;
            }
            let scaled = match acc.checked_mul(radix as i64) {
                Some(v) => v,
                None => {
                    proof {
                        assert(p * radix + digit_value(digits[i - start]) > (i64::MAX as int) + 1);
                        overflow_witness_neg(digits, i - start, radix);
                        lemma_all_digits_iff(digits, radix);
                    }
                    return Err(IntParseError::Overflow);
                },
            };
            acc = match scaled.checked_sub(d as i64) {
                Some(v) => v,
                None => {
                    proof {
                        assert(p * radix + digit_value(digits[i - start]) > (i64::MAX as int) + 1);
                        overflow_witness_neg(digits, i - start, radix);
                        lemma_all_digits_iff(digits, radix);
                    }
                    return Err(IntParseError::Overflow);
                },
            };
        }
        i = i + 1;
    }
    proof {
        assert(digits.take(n - start) =~= digits);
        lemma_all_digits_iff(digits, radix);
    }
    Ok(acc)
}

/// Parsing from a string in a caller-chosen radix, with the exact result
/// pinned down by an associated specification.
pub trait FromStrRadix: Sized {
    type Error;

    /// The exact result that parsing yields.
    spec fn parse_spec(s: Seq<char>, radix: u32) -> Result<Self, Self::Error>;

    /// Parses `s` in the given radix.
    fn from_str_radix(s: &str, radix: u32) -> (r: Result<Self, Self::Error>)
        requires
            2 <= radix <= 36,
            s@.len() < 0x8000_0000_0000_0000,
        ensures
            r == Self::parse_spec(s@, radix),
    ;
}

impl FromStrRadix for i64 {
    type Error = IntParseError;

    open spec fn parse_spec(s: Seq<char>, radix: u32) -> Result<i64, IntParseError> {
        int_from_str(s, radix)
    }

    fn from_str_radix(s: &str, radix: u32) -> (r: Result<i64, IntParseError>) {
        parse_i64_radix(s, radix)
    }
}

impl FromStrRadix for RealValue {
    type Error = ParseFloatError;

    open spec fn parse_spec(s: Seq<char>, radix: u32) -> Result<RealValue, ParseFloatError> {
        real_from_str(s, radix)
    }

    #[verifier::loop_isolation(false)]
    fn from_str_radix(s: &str, radix: u32) -> (r: Result<RealValue, ParseFloatError>) {
        let n = s.unicode_len();
        // Locate the first decimal point, if any.
        let mut dot: Option<usize> = None;
        let mut i: usize = 0;
        while i < n
            invariant
                0 <= i <= n,
                dot is None ==> forall|j: int| 0 <= j < i ==> s@[j] != '.',
                dot matches Some(d) ==> 0 <= d < i && s@[d as int] == '.' && (forall|j: int|
                    0 <= j < d ==> s@[j] != '.'),
            decreases n - i,
        {
            if dot.is_none() && s.get_char(i) == '.' {
                dot = Some(i);
            }
            i = i + 1;
        }
        match dot {
            Some(d) => {
                proof {
                    lemma_find_first_is(s@, '.', d as int);
                }
                let pre = s.substring_char(0, d);
                let post = s.substring_char(d + 1, n);
                let mantissa_str = String::from_str(pre).concat(post);
                proof {
                    assert(mantissa_str@ =~= s@.take(d as int) + s@.skip(d as int + 1));
                }
                match parse_i64_radix(mantissa_str.as_str(), radix) {
                    Ok(m) => {
                        let scale = n - d - 1;
                        proof {
                            assert(scale < 0x8000_0000_0000_0000);
                        }
                        Ok(RealValue { mantissa: m, scale: scale as i64, radix })
                    },
                    Err(e) => Err(ParseFloatError::IntError(e)),
                }
            },
            None => {
                proof {
                    lemma_find_first_none(s@, '.');
                }
                // Locate the first exponent marker, if any.
                let mut marker: Option<usize> = None;
                let mut i: usize = 0;
                while i < n
                    invariant
                        0 <= i <= n,
                        marker is None ==> forall|j: int|
                            0 <= j < i ==> s@[j] != 'e' && s@[j] != 'E',
                        marker matches Some(k) ==> 0 <= k < i && (s@[k as int] == 'e' || s@[
                            k as int
                        ] == 'E') && (forall|j: int| 0 <= j < k ==> s@[j] != 'e' && s@[j] != 'E'),
                    decreases n - i,
                {
                    if marker.is_none() {
                        let c = s.get_char(i);
                        if c == 'e' || c == 'E' {
                            marker = Some(i);
                        }
                    }
                    i = i + 1;
                }
                match marker {
                    None => {
                        proof {
                            lemma_find_exp_none(s@);
                        }
                        Err(ParseFloatError::MissingPoint)
                    },
                    Some(k) => {
                        proof {
                            lemma_find_exp_is(s@, k as int);
                        }
                        let base = s.substring_char(0, k);
                        let exp_part = s.substring_char(k + 1, n);
                        match parse_i64_radix(base, radix) {
                            Err(e) => Err(ParseFloatError::IntError(e)),
                            Ok(m) => match parse_i64_radix(exp_part, 10) {
                                Err(e) => Err(ParseFloatError::IntError(e)),
                                Ok(x) => Ok(RealValue { mantissa: m, scale: x, radix }),
                            },
                        }
                    },
                }
            },
        }
    }
}

// ---------------------------------------------------------------------------
// The lexer-facing literal readers
// ---------------------------------------------------------------------------

/// Interprets a decimal real literal.
pub fn parse_real(s: &str) -> (r: Result<RealValue, ParseFloatError>)
    requires
        s@.len() < 0x8000_0000_0000_0000,
    ensures
        r == real_from_str(s@, 10),
{
    RealValue::from_str_radix(s, 10)
}

/// Interprets a hexadecimal real literal, skipping its two-character radix
/// prefix.
pub fn parse_real_hex(s: &str) -> (r: Result<RealValue, ParseFloatError>)
    requires
        2 <= s@.len() < 0x8000_0000_0000_0000,
    ensures
        r == real_from_str(s@.skip(2), 16),
{
    let rest = s.substring_char(2, s.unicode_len());
    RealValue::from_str_radix(rest, 16)
}

/// Interprets a binary real literal, skipping its two-character radix prefix.
pub fn parse_real_bin(s: &str) -> (r: Result<RealValue, ParseFloatError>)
    requires
        2 <= s@.len() < 0x8000_0000_0000_0000,
    ensures
        r == real_from_str(s@.skip(2), 2),
{
    let rest = s.substring_char(2, s.unicode_len());
    RealValue::from_str_radix(rest, 2)
}

/// Interprets a decimal integer literal.
pub fn parse_int(s: &str) -> (r: Result<i64, IntParseError>)
    ensures
        r == int_from_str(s@, 10),
{
    parse_i64_radix(s, 10)
}

/// Interprets a hexadecimal integer literal, skipping its two-character
/// radix prefix.
pub fn parse_int_hex(s: &str) -> (r: Result<i64, IntParseError>)
    requires
        s@.len() >= 2,
    ensures
        r == int_from_str(s@.skip(2), 16),
{
    let rest = s.substring_char(2, s.unicode_len());
    parse_i64_radix(rest, 16)
}

/// Interprets a binary integer literal, skipping its two-character radix
/// prefix.
pub fn parse_int_bin(s: &str) -> (r: Result<i64, IntParseError>)
    requires
        s@.len() >= 2,
    ensures
        r == int_from_str(s@.skip(2), 2),
{
    let rest = s.substring_char(2, s.unicode_len());
    parse_i64_radix(rest, 2)
}

/// Reads a boolean literal: exactly the lowercase word `true` is true.
pub fn parse_bool(s: &str) -> (r: bool)
    ensures
        r == (s@ == "true"@),
{
    let a = s.to_owned();
    let b = "true".to_owned();
    a == b
}

/// The character an escape sequence denotes.
pub open spec fn escape_value(c: char) -> char {
    match c {
        '\'' => '\'',
        '\\' => '\\',
        'n' => '\n',
        'f' => '\x0c',
        'r' => '\r',
        'b' => '\x08',
        'v' => '\x0b',
        _ => c,
    }
}

/// The character a quoted character literal denotes: the character after
/// the opening quote, or the value of its escape sequence.
pub open spec fn char_lit_value(s: Seq<char>) -> char {
    if s[1] == '\\' {
        escape_value(s[2])
    } else {
        s[1]
    }
}

/// Reads a quoted character literal of the token shape `'c'` or `'\c'`.
pub fn parse_char(s: &str) -> (r: char)
    requires
        s@.len() >= 2,
        s@[1] == '\\' ==> s@.len() >= 3,
    ensures
        r == char_lit_value(s@),
{
    let c1 = s.get_char(1);
    if c1 == '\\' {
        let c2 = s.get_char(2);
        match c2 {
            '\'' => '\'',
            '\\' => '\\',
            'n' => '\n',
            'f' => '\x0c',
            'r' => '\r',
            'b' => '\x08',
            'v' => '\x0b',
            c => c,
        }
    } else {
        c1
    }
}

proof fn lemma_find_first_is(s: Seq<char>, c: char, j: int)
    requires
        0 <= j < s.len(),
        s[j] == c,
        forall|i: int| 0 <= i < j ==> s[i] != c,
    ensures
        find_first(s, c) == j,
    decreases j,
{
    if j > 0 {
        let u = s.drop_first();
        assert forall|i: int| 0 <= i < j - 1 implies u[i] != c by {
            assert(u[i] == s[i + 1]);
        }
        assert(u[j - 1] == s[j]);
        lemma_find_first_is(u, c, j - 1);
    }
}

proof fn lemma_find_first_none(s: Seq<char>, c: char)
    requires
        forall|i: int| 0 <= i < s.len() ==> s[i] != c,
    ensures
        find_first(s, c) == -1,
    decreases s.len(),
{
    if s.len() > 0 {
        let u = s.drop_first();
        assert forall|i: int| 0 <= i < u.len() implies u[i] != c by {
            assert(u[i] == s[i + 1]);
        }
        lemma_find_first_none(u, c);
    }
}

proof fn lemma_find_exp_is(s: Seq<char>, j: int)
    requires
        0 <= j < s.len(),
        s[j] == 'e' || s[j] == 'E',
        forall|i: int| 0 <= i < j ==> s[i] != 'e' && s[i] != 'E',
    ensures
        find_exp_marker(s) == j,
    decreases j,
{
    if j > 0 {
        let u = s.drop_first();
        assert forall|i: int| 0 <= i < j - 1 implies u[i] != 'e' && u[i] != 'E' by {
            assert(u[i] == s[i + 1]);
        }
        assert(u[j - 1] == s[j]);
        lemma_find_exp_is(u, j - 1);
    }
}

proof fn lemma_find_exp_none(s: Seq<char>)
    requires
        forall|i: int| 0 <= i < s.len() ==> s[i] != 'e' && s[i] != 'E',
    ensures
        find_exp_marker(s) == -1,
    decreases s.len(),
{
    if s.len() > 0 {
        let u = s.drop_first();
        assert forall|i: int| 0 <= i < u.len() implies u[i] != 'e' && u[i] != 'E' by {
            assert(u[i] == s[i + 1]);
        }
        lemma_find_exp_none(u);
    }
}

/// When the checked step at digit `i` leaves the positive range, the whole
/// digit string's value does too.
proof fn overflow_witness_pos(digits: Seq<char>, i: int, radix: u32)
    requires
        0 <= i < digits.len(),
        2 <= radix <= 36,
        digits_value(digits.take(i), radix) * radix + digit_value(digits[i]) > i64::MAX as int,
    ensures
        digits_value(digits, radix) > i64::MAX as int,
{
    lemma_digits_value_step(digits, i, radix);
    lemma_digits_value_prefix_le(digits, i + 1, radix);
}

/// When the checked step at digit `i` leaves the negative range, the whole
/// digit string's value does too.
proof fn overflow_witness_neg(digits: Seq<char>, i: int, radix: u32)
    requires
        0 <= i < digits.len(),
        2 <= radix <= 36,
        digits_value(digits.take(i), radix) * radix + digit_value(digits[i]) > (i64::MAX as int)
            + 1,
    ensures
        digits_value(digits, radix) > (i64::MAX as int) + 1,
{
    lemma_digits_value_step(digits, i, radix);
    lemma_digits_value_prefix_le(digits, i + 1, radix);
}

} // verus!
