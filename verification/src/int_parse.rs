//! Parsing of integers from text, as `str::parse` and `from_str_radix` do it
//! for the primitive integer types: an optional sign, then digits of the
//! radix, with the first error met from left to right reported.
use vstd::prelude::*;
use crate::text::{decimal, digit_char, signed_decimal, trim_end, trim_start, trimmed, ws_char};

verus! {

/// Why a text is not an integer of the requested type.
#[derive(Clone, Copy, Debug, PartialEq, Eq, Structural)]
pub enum IntErrorKind {
    /// The text is empty.
    Empty,
    /// A character is not a digit of the radix, or the sign stands alone.
    InvalidDigit,
    /// The value is above the type's maximum.
    PosOverflow,
    /// The value is below the type's minimum.
    NegOverflow,
}

/// The value of `c` as a digit of `radix` (`char::to_digit`).
pub open spec fn digit_value(c: char, radix: int) -> Option<int> {
    let u = c as u32;
    let v: int = if 0x30 <= u && u <= 0x39 {
        u - 0x30
    } else if 0x61 <= u && u <= 0x7a {
        u - 0x61 + 10
    } else if 0x41 <= u && u <= 0x5a {
        u - 0x41 + 10
    } else {
        36
    };
    if v < radix {
        Some(v)
    } else {
        None
    }
}

/// Reads `digits` left to right into `acc`, adding (`positive`) or
/// subtracting each digit after multiplying by `radix`; stops at the first
/// character that is not a digit or the first step that leaves `[min, max]`.
pub open spec fn accumulate(
    digits: Seq<char>,
    radix: int,
    positive: bool,
    acc: int,
    min: int,
    max: int,
) -> Result<int, IntErrorKind>
    decreases digits.len(),
{
    if digits.len() == 0 {
        Ok(acc)
    } else {
        match digit_value(digits[0], radix) {
            None => Err(IntErrorKind::InvalidDigit),
            Some(d) => {
                if positive {
                    if acc * radix + d > max {
                        Err(IntErrorKind::PosOverflow)
                    } else {
                        accumulate(digits.drop_first(), radix, positive, acc * radix + d, min, max)
                    }
                } else {
                    if acc * radix - d < min {
                        Err(IntErrorKind::NegOverflow)
                    } else {
                        accumulate(digits.drop_first(), radix, positive, acc * radix - d, min, max)
                    }
                }
            },
        }
    }
}

/// The result of parsing `s` as an integer of radix `radix` whose type spans
/// `[min, max]`; a leading `-` is accepted only when `signed`.
pub open spec fn parse_int(s: Seq<char>, radix: int, signed: bool, min: int, max: int) -> Result<
    int,
    IntErrorKind,
> {
    if s.len() == 0 {
        Err(IntErrorKind::Empty)
    } else if s.len() == 1 && (s[0] == '+' || s[0] == '-') {
        Err(IntErrorKind::InvalidDigit)
    } else if s[0] == '+' {
        accumulate(s.drop_first(), radix, true, 0, min, max)
    } else if s[0] == '-' && signed {
        accumulate(s.drop_first(), radix, false, 0, min, max)
    } else {
        accumulate(s, radix, true, 0, min, max)
    }
}

/// The text that `ParseIntError` displays for each kind of error.
pub open spec fn int_error_text(k: IntErrorKind) -> Seq<char> {
    match k {
        IntErrorKind::Empty => "cannot parse integer from empty string"@,
        IntErrorKind::InvalidDigit => "invalid digit found in string"@,
        IntErrorKind::PosOverflow => "number too large to fit in target type"@,
        IntErrorKind::NegOverflow => "number too small to fit in target type"@,
    }
}

/// A successful parse lies within the bounds.
pub proof fn lemma_accumulate_bounds(
    digits: Seq<char>,
    radix: int,
    positive: bool,
    acc: int,
    min: int,
    max: int,
)
    requires
        min <= acc <= max,
        min <= 0 <= max,
        radix >= 0,
        positive ==> acc >= 0,
        !positive ==> acc <= 0,
    ensures
        accumulate(digits, radix, positive, acc, min, max) matches Ok(v) ==> min <= v <= max,
    decreases digits.len(),
{
    if digits.len() > 0 {
        match digit_value(digits[0], radix) {
            None => {},
            Some(d) => {
                if positive {
                    assert(acc * radix >= 0) by (nonlinear_arith)
                        requires
                            acc >= 0,
                            radix >= 0,
                    ;
                    if acc * radix + d <= max {
                        lemma_accumulate_bounds(
                            digits.drop_first(),
                            radix,
                            positive,
                            acc * radix + d,
                            min,
                            max,
                        );
                    }
                } else {
                    assert(acc * radix <= 0) by (nonlinear_arith)
                        requires
                            acc <= 0,
                            radix >= 0,
                    ;
                    if acc * radix - d >= min {
                        lemma_accumulate_bounds(
                            digits.drop_first(),
                            radix,
                            positive,
                            acc * radix - d,
                            min,
                            max,
                        );
                    }
                }
            },
        }
    }
}

/// `char::to_digit` for radix 10 or 16.
pub fn digit_of(c: char, radix: u32) -> (res: Option<u32>)
    requires
        radix == 10 || radix == 16,
    ensures
        match res {
            Some(d) => digit_value(c, radix as int) == Some(d as int),
            None => digit_value(c, radix as int) is None,
        },
{
    let u = c as u32;
    let v: u32 = if 0x30 <= u && u <= 0x39 {
        u - 0x30
    } else if 0x61 <= u && u <= 0x7a {
        u - 0x61 + 10
    } else if 0x41 <= u && u <= 0x5a {
        u - 0x41 + 10
    } else {
        36
    };
    if v < radix {
        Some(v)
    } else {
        None
    }
}

/// Parses `s` as an integer of radix 10 or 16 in `[min, max]`.
pub fn parse_int_exec(s: &[char], radix: u32, signed: bool, min: i128, max: i128) -> (res: Result<
    i128,
    IntErrorKind,
>)
    requires
        radix == 10 || radix == 16,
        -0x8000_0000_0000_0000 <= min <= 0 <= max <= 0xffff_ffff_ffff_ffff,
    ensures
        match res {
            Ok(v) => parse_int(s@, radix as int, signed, min as int, max as int) == Ok::<
                int,
                IntErrorKind,
            >(v as int) && min <= v <= max,
            Err(e) => parse_int(s@, radix as int, signed, min as int, max as int) == Err::<
                int,
                IntErrorKind,
            >(e),
        },
{
    let n = s.len();
    if n == 0 {
        return Err(IntErrorKind::Empty);
    }
    if n == 1 && (s[0] == '+' || s[0] == '-') {
        return Err(IntErrorKind::InvalidDigit);
    }
    let positive: bool;
    let start: usize;
    if s[0] == '+' {
        positive = true;
        start = 1;
    } else if s[0] == '-' && signed {
        positive = false;
        start = 1;
    } else {
        positive = true;
        start = 0;
    }
    let ghost total = parse_int(s@, radix as int, signed, min as int, max as int);
    assert(s@.skip(1) =~= s@.drop_first());
    assert(s@.skip(0) =~= s@);
    let mut acc: i128 = 0;
    let mut i: usize = start;
    while i < n
        invariant
            start <= i <= n,
            n == s@.len(),
            radix == 10 || radix == 16,
            -0x8000_0000_0000_0000 <= min <= 0 <= max <= 0xffff_ffff_ffff_ffff,
            min <= acc <= max,
            positive ==> acc >= 0,
            !positive ==> acc <= 0,
            total == parse_int(s@, radix as int, signed, min as int, max as int),
            total == accumulate(s@.skip(i as int), radix as int, positive, acc as int, min as int, max as int),
        decreases n - i,
    {
        assert(s@.skip(i as int)[0] == s@[i as int]);
        assert(s@.skip(i as int).drop_first() =~= s@.skip(i + 1));
        let d = match digit_of(s[i], radix) {
            None => {
                return Err(IntErrorKind::InvalidDigit);
            },
            Some(d) => d,
        };
        let m: i128 = if radix == 10 {
            acc * 10
        } else {
            acc * 16
        };
        if positive {
            if m + d as i128 > max {
                return Err(IntErrorKind::PosOverflow);
            }
            acc = m + d as i128;
        } else {
            if m - (d as i128) < min {
                return Err(IntErrorKind::NegOverflow);
            }
            acc = m - d as i128;
        }
        i = i + 1;
    }
    assert(s@.skip(n as int) =~= Seq::<char>::empty());
    Ok(acc)
}

/// The text that `ParseIntError` displays for `k`.
pub fn int_error_message(k: IntErrorKind) -> (res: String)
    ensures
        res@ == int_error_text(k),
{
    broadcast use vstd::string::group_string_axioms;

    match k {
        IntErrorKind::Empty => "cannot parse integer from empty string".to_string(),
        IntErrorKind::InvalidDigit => "invalid digit found in string".to_string(),
        IntErrorKind::PosOverflow => "number too large to fit in target type".to_string(),
        IntErrorKind::NegOverflow => "number too small to fit in target type".to_string(),
    }
}

// ---------------------------------------------------------------------------
// Reading back decimal text
// ---------------------------------------------------------------------------

/// Reading `a + b` reads `a` and then goes on reading `b` from the number
/// read so far, or stops at the error met in `a`.
proof fn lemma_accumulate_concat(
    a: Seq<char>,
    b: Seq<char>,
    radix: int,
    positive: bool,
    acc: int,
    min: int,
    max: int,
)
    ensures
        accumulate(a + b, radix, positive, acc, min, max) == match accumulate(
            a,
            radix,
            positive,
            acc,
            min,
            max,
        ) {
            Ok(v) => accumulate(b, radix, positive, v, min, max),
            Err(e) => Err(e),
        },
    decreases a.len(),
{
    if a.len() == 0 {
        assert(a + b =~= b);
    } else {
        assert((a + b)[0] == a[0]);
        assert((a + b).drop_first() =~= a.drop_first() + b);
        match digit_value(a[0], radix) {
            None => {},
            Some(d) => {
                let next = if positive {
                    acc * radix + d
                } else {
                    acc * radix - d
                };
                lemma_accumulate_concat(a.drop_first(), b, radix, positive, next, min, max);
            },
        }
    }
}

/// The decimal digits of a number are a non-empty run of `0` to `9`.
pub proof fn lemma_decimal_digits(m: nat)
    ensures
        decimal(m).len() > 0,
        forall|i: int|
            0 <= i < decimal(m).len() ==> 0x30 <= (#[trigger] decimal(m)[i] as u32) <= 0x39,
    decreases m,
{
    if m >= 10 {
        lemma_decimal_digits(m / 10);
        assert forall|i: int| 0 <= i < decimal(m).len() implies 0x30 <= (
        #[trigger] decimal(m)[i] as u32) <= 0x39 by {
            if i < decimal(m / 10).len() {
                assert(decimal(m)[i] == decimal(m / 10)[i]);
            }
        }
    }
}

/// The digits of a number read back as that number, added up for a
/// positive reading and subtracted for a negative one, whenever it fits.
proof fn lemma_accumulate_decimal(m: nat, min: int, max: int)
    requires
        min <= 0 <= max,
    ensures
        m <= max ==> accumulate(decimal(m), 10, true, 0, min, max) == Ok::<int, IntErrorKind>(m as int),
        -m >= min ==> accumulate(decimal(m), 10, false, 0, min, max) == Ok::<int, IntErrorKind>(-m),
    decreases m,
{
    let d = m % 10;
    let c = digit_char(d);
    assert(c as u32 == 0x30 + d);
    assert(digit_value(c, 10) == Some(d as int));
    let one = seq![c];
    assert(one.drop_first() =~= Seq::<char>::empty());
    assert(one[0] == c);
    if m < 10 {
        assert(decimal(m) == one);
        if m <= max {
            assert(accumulate(one.drop_first(), 10, true, d as int, min, max) == Ok::<int, IntErrorKind>(d as int));
            assert(accumulate(one, 10, true, 0, min, max) == Ok::<int, IntErrorKind>(m as int));
        }
        if -m >= min {
            assert(accumulate(one.drop_first(), 10, false, -d, min, max) == Ok::<int, IntErrorKind>(-d));
            assert(accumulate(one, 10, false, 0, min, max) == Ok::<int, IntErrorKind>(-m));
        }
    } else {
        let q = m / 10;
        lemma_accumulate_decimal(q, min, max);
        assert(decimal(m) =~= decimal(q) + one);
        lemma_accumulate_concat(decimal(q), one, 10, true, 0, min, max);
        lemma_accumulate_concat(decimal(q), one, 10, false, 0, min, max);
        assert(q * 10 + d == m);
        if m <= max {
            assert(accumulate(one.drop_first(), 10, true, m as int, min, max) == Ok::<int, IntErrorKind>(m as int));
            assert(accumulate(one, 10, true, q as int, min, max) == Ok::<int, IntErrorKind>(m as int));
        }
        if -m >= min {
            assert((-q) * 10 - d == -m);
            assert(accumulate(one.drop_first(), 10, false, -m, min, max) == Ok::<int, IntErrorKind>(-m));
            assert(accumulate(one, 10, false, -q, min, max) == Ok::<int, IntErrorKind>(-m));
        }
    }
}

/// An integer within `[min, max]`, written in decimal, reads back as
/// itself; a negative one needs a signed type.
pub proof fn lemma_parse_signed_decimal(n: int, signed: bool, min: int, max: int)
    requires
        min <= n <= max,
        min <= 0 <= max,
        n < 0 ==> signed,
    ensures
        parse_int(signed_decimal(n), 10, signed, min, max) == Ok::<int, IntErrorKind>(n),
{
    if n >= 0 {
        let m = n as nat;
        lemma_decimal_digits(m);
        lemma_accumulate_decimal(m, min, max);
        assert(0x30 <= (decimal(m)[0] as u32) <= 0x39);
    } else {
        let m = (-n) as nat;
        lemma_decimal_digits(m);
        lemma_accumulate_decimal(m, min, max);
        let s = signed_decimal(n);
        assert(s.drop_first() =~= decimal(m));
    }
}

/// The decimal text of an integer has no whitespace around it.
pub proof fn lemma_signed_decimal_trimmed(n: int)
    ensures
        trimmed(signed_decimal(n)) == signed_decimal(n),
{
    let m: nat = if n < 0 {
        (-n) as nat
    } else {
        n as nat
    };
    lemma_decimal_digits(m);
    let s = signed_decimal(n);
    assert(s.len() > 0);
    assert(0x30 <= (decimal(m)[decimal(m).len() - 1] as u32) <= 0x39);
    assert(s.last() == decimal(m)[decimal(m).len() - 1]);
    if n >= 0 {
        assert(0x30 <= (decimal(m)[0] as u32) <= 0x39);
    }
    assert(!ws_char(s[0]));
    assert(trim_start(s) == s);
    assert(!ws_char(s.last()));
    assert(trim_end(s) == s);
}

} // verus!
