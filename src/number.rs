use crate::error::FieldError;
use vstd::prelude::*;

verus! {

pub open spec fn is_digit(c: char) -> bool {
    '0' <= c && c <= '9'
}

pub open spec fn digit_value(c: char) -> int {
    c as int - '0' as int
}

/// Reads `digits` onto `acc` from left to right, adding each digit (or
/// subtracting it, for a negative number). Fails at the first character that
/// is not a digit, or at the first step that leaves `lo ..= hi`.
pub open spec fn accumulate(digits: Seq<char>, acc: int, negative: bool, lo: int, hi: int) -> Result<
    int,
    FieldError,
>
    decreases digits.len(),
{
    if digits.len() == 0 {
        Ok(acc)
    } else if !is_digit(digits[0]) {
        Err(FieldError::InvalidDigit)
    } else {
        let next = if negative {
            acc * 10 - digit_value(digits[0])
        } else {
            acc * 10 + digit_value(digits[0])
        };
        if next < lo {
            Err(FieldError::NegOverflow)
        } else if next > hi {
            Err(FieldError::PosOverflow)
        } else {
            accumulate(digits.drop_first(), next, negative, lo, hi)
        }
    }
}

/// A decimal integer in `lo ..= hi`, as Rust's integer `FromStr` reads it:
/// an optional `+` (or `-`, when `signed`), then one or more digits.
pub open spec fn parse_int(s: Seq<char>, signed: bool, lo: int, hi: int) -> Result<int, FieldError> {
    if s.len() == 0 {
        Err(FieldError::Empty)
    } else if s.len() == 1 && (s[0] == '+' || s[0] == '-') {
        Err(FieldError::InvalidDigit)
    } else if s[0] == '+' {
        accumulate(s.drop_first(), 0, false, lo, hi)
    } else if s[0] == '-' && signed {
        accumulate(s.drop_first(), 0, true, lo, hi)
    } else {
        accumulate(s, 0, false, lo, hi)
    }
}

/// Parses `s` as `parse_int` describes; the bounds are those of a Rust
/// integer type of at most 64 bits.
pub(crate) fn parse_int_exec(s: &str, signed: bool, lo: i128, hi: i128) -> (r: Result<i128, FieldError>)
    requires
        -0x1_0000_0000_0000_0000 <= lo <= 0 <= hi <= 0x1_0000_0000_0000_0000,
    ensures
        match r {
            Ok(v) => parse_int(s@, signed, lo as int, hi as int) == Ok::<int, FieldError>(v as int),
            Err(e) => parse_int(s@, signed, lo as int, hi as int) == Err::<int, FieldError>(e),
        },
{
    let n = s.unicode_len();
    if n == 0 {
        return Err(FieldError::Empty);
    }
    let first = s.get_char(0);
    if n == 1 && (first == '+' || first == '-') {
        return Err(FieldError::InvalidDigit);
    }
    let negative = signed && first == '-';
    let start: usize = if first == '+' || negative {
        1
    } else {
        0
    };
    assert(s@.skip(start as int) =~= if start == 1 {
        s@.drop_first()
    } else {
        s@
    });
    let mut acc: i128 = 0;
    let mut i: usize = start;
    while i < n
        invariant
            n == s@.len(),
            start <= i <= n,
            lo <= acc <= hi,
            -0x1_0000_0000_0000_0000 <= lo <= 0 <= hi <= 0x1_0000_0000_0000_0000,
            parse_int(s@, signed, lo as int, hi as int) == accumulate(
                s@.skip(i as int),
                acc as int,
                negative,
                lo as int,
                hi as int,
            ),
        decreases n - i,
    {
        let c = s.get_char(i);
        assert(s@.skip(i as int)[0] == c);
        if !('0' <= c && c <= '9') {
            return Err(FieldError::InvalidDigit);
        }
        let d = (c as u32 - '0' as u32) as i128;
        let next = if negative {
            acc * 10 - d
        } else {
            acc * 10 + d
        };
        if next < lo {
            return Err(FieldError::NegOverflow);
        }
        if next > hi {
            return Err(FieldError::PosOverflow);
        }
        assert(s@.skip(i as int).drop_first() =~= s@.skip(i + 1));
        acc = next;
        i = i + 1;
    }
    assert(s@.skip(i as int) =~= Seq::<char>::empty());
    Ok(acc)
}

/// The character of a decimal digit.
pub open spec fn digit_char(d: int) -> char {
    ((d + 48) as u8) as char
}

/// The decimal digits of `n`, without leading zeros.
pub open spec fn decimal(n: nat) -> Seq<char>
    decreases n,
{
    if n < 10 {
        seq![digit_char(n as int)]
    } else {
        decimal(n / 10).push(digit_char((n % 10) as int))
    }
}

/// `k` zeros, or none when `k` is not positive.
pub open spec fn zeros(k: int) -> Seq<char> {
    Seq::new(if k > 0 { k as nat } else { 0 }, |i: int| '0')
}

/// `v` in decimal, with a leading `-` when negative, zero-padded after the
/// sign to at least `width` characters.
pub open spec fn padded(v: int, width: int) -> Seq<char> {
    let digits = decimal(if v < 0 { (-v) as nat } else { v as nat });
    if v < 0 {
        seq!['-'] + zeros(width - 1 - digits.len()) + digits
    } else {
        zeros(width - digits.len()) + digits
    }
}

fn digit_str(d: u64) -> (r: &'static str)
    requires
        d < 10,
    ensures
        r@ == seq![digit_char(d as int)],
{
    proof {
        reveal_strlit("0");
        reveal_strlit("1");
        reveal_strlit("2");
        reveal_strlit("3");
        reveal_strlit("4");
        reveal_strlit("5");
        reveal_strlit("6");
        reveal_strlit("7");
        reveal_strlit("8");
        reveal_strlit("9");
    }
    match d {
        0 => "0",
        1 => "1",
        2 => "2",
        3 => "3",
        4 => "4",
        5 => "5",
        6 => "6",
        7 => "7",
        8 => "8",
        _ => "9",
    }
}

/// Appends the decimal digits of `n`.
pub(crate) fn push_decimal(out: &mut String, n: u64)
    ensures
        final(out)@ == old(out)@ + decimal(n as nat),
    decreases n,
{
    if n >= 10 {
        push_decimal(out, n / 10);
    }
    out.append(digit_str(n % 10));
    assert(decimal(n as nat) =~= if n < 10 {
        seq![digit_char(n as int)]
    } else {
        decimal((n / 10) as nat).push(digit_char((n % 10) as int))
    });
}

fn decimal_len(n: u64) -> (r: usize)
    ensures
        r == decimal(n as nat).len(),
        r <= 20,
    decreases n,
{
    if n >= 10 {
        let k = decimal_len(n / 10);
        assert(n / 10 < n);
        if k >= 20 {
            assert(false) by {
                lemma_decimal_len_bound(n as nat);
            }
        }
        k + 1
    } else {
        1
    }
}

spec fn pow10(k: nat) -> nat
    decreases k,
{
    if k == 0 {
        1
    } else {
        10 * pow10((k - 1) as nat)
    }
}

proof fn lemma_decimal_len_below(n: nat, k: nat)
    requires
        k >= 1,
        n < pow10(k),
    ensures
        decimal(n).len() <= k,
    decreases k,
{
    if n >= 10 {
        let p = pow10((k - 1) as nat);
        assert(k >= 2) by {
            if k == 1 {
                assert(pow10(0) == 1);
            }
        }
        assert(n / 10 < p) by (nonlinear_arith)
            requires
                n < 10 * p,
        ;
        lemma_decimal_len_below(n / 10, (k - 1) as nat);
    }
}

proof fn lemma_decimal_len_bound(n: nat)
    requires
        n <= u64::MAX,
    ensures
        decimal(n).len() <= 20,
{
    reveal_with_fuel(pow10, 21);
    assert(pow10(20) == 100_000_000_000_000_000_000);
    lemma_decimal_len_below(n, 20);
}

/// Appends `v` as `padded` describes.
pub(crate) fn push_padded(out: &mut String, v: i16, width: usize)
    requires
        width <= 8,
    ensures
        final(out)@ == old(out)@ + padded(v as int, width as int),
{
    let magnitude: u64 = if v < 0 {
        (-(v as i32)) as u64
    } else {
        v as u64
    };
    let ghost start = out@;
    let len = decimal_len(magnitude);
    let mut used: usize = len;
    if v < 0 {
        proof {
            reveal_strlit("-");
        }
        out.append("-");
        used = used + 1;
    }
    let ghost signed = out@;
    let mut i: usize = used;
    while i < width
        invariant
            used <= i,
            used <= width ==> i <= width,
            used > width ==> i == used,
            used == len + if v < 0 { 1usize } else { 0usize },
            out@ == signed + zeros(i - used),
        decreases width - i,
    {
        proof {
            reveal_strlit("0");
        }
        out.append("0");
        assert(zeros(i + 1 - used) =~= zeros(i - used).push('0'));
        i = i + 1;
    }
    push_decimal(out, magnitude);
    assert(zeros(i - used) =~= zeros(width as int - used));
    if v < 0 {
        assert(out@ =~= start + padded(v as int, width as int));
    } else {
        assert(out@ =~= start + padded(v as int, width as int));
    }
}

} // verus!
