//! The numbers of the command line: step counts with a magnitude suffix and
//! canvas sizes of the form `WIDTHxHEIGHT`.

use vstd::prelude::*;
use vstd::string::StringSliceAdditionalSpecFns;

verus! {

/// Why a text is not a number.
#[derive(Clone, Copy, Debug, PartialEq, Eq, Structural)]
pub enum IntError {
    /// There is no text.
    Empty,
    /// A character is not a digit.
    InvalidDigit,
    /// The number is too large.
    PosOverflow,
}

/// Why a text is not a canvas size.
#[derive(Clone, Copy, Debug, PartialEq, Eq, Structural)]
pub enum DimError {
    /// There is no `x`, and so no height.
    MissingHeight,
    /// The text before the first `x` is not a number.
    Width(IntError),
    /// The text behind the first `x` is not a number.
    Height(IntError),
}

/// Whether a byte is a decimal digit.
pub open spec fn is_digit(byte: u8) -> bool {
    0x30 <= byte <= 0x39
}

/// What reading digits from the left makes of `acc`: each digit moves the
/// number up one place. The first byte that is no digit, or the first digit
/// that takes the number above `max`, ends the reading with its error.
pub open spec fn scan_digits(bytes: Seq<u8>, acc: nat, max: nat) -> Result<nat, IntError>
    decreases bytes.len(),
{
    if bytes.len() == 0 {
        Ok(acc)
    } else if !is_digit(bytes[0]) {
        Err(IntError::InvalidDigit)
    } else {
        let next = acc * 10 + (bytes[0] - 0x30);
        if next > max {
            Err(IntError::PosOverflow)
        } else {
            scan_digits(bytes.drop_first(), next as nat, max)
        }
    }
}

/// The number that a text spells in decimal digits, with at most one `+`
/// in front, where it is a number up to `max`.
pub open spec fn decimal(bytes: Seq<u8>, max: nat) -> Result<nat, IntError> {
    if bytes.len() == 0 {
        Err(IntError::Empty)
    } else if bytes[0] == 0x2B {
        if bytes.len() == 1 {
            Err(IntError::InvalidDigit)
        } else {
            scan_digits(bytes.drop_first(), 0, max)
        }
    } else {
        scan_digits(bytes, 0, max)
    }
}

/// The factor that a magnitude suffix stands for: `k` for a thousand, `m`
/// for a million, `b` for a billion, `t` for a trillion, in either case.
pub open spec fn magnitude(byte: u8) -> Option<nat> {
    if byte == 0x6B || byte == 0x4B {
        Some(1_000)
    } else if byte == 0x6D || byte == 0x4D {
        Some(1_000_000)
    } else if byte == 0x62 || byte == 0x42 {
        Some(1_000_000_000)
    } else if byte == 0x74 || byte == 0x54 {
        Some(1_000_000_000_000)
    } else {
        None
    }
}

/// The count that a text spells: a number, times the factor of its suffix
/// where it ends in one.
pub open spec fn count(bytes: Seq<u8>) -> Result<usize, IntError> {
    let suffix = if bytes.len() > 0 {
        magnitude(bytes.last())
    } else {
        None
    };
    let (digits, factor) = match suffix {
        Some(factor) => (bytes.drop_last(), factor),
        None => (bytes, 1nat),
    };
    match decimal(digits, usize::MAX as nat) {
        Ok(number) => if number * factor <= usize::MAX {
            Ok((number * factor) as usize)
        } else {
            Err(IntError::PosOverflow)
        },
        Err(e) => Err(e),
    }
}

/// The position of the first `x` from `from` on, or the length of the text
/// where there is none.
pub open spec fn next_x(bytes: Seq<u8>, from: int) -> int
    decreases bytes.len() - from,
{
    if from >= bytes.len() {
        bytes.len() as int
    } else if bytes[from] == 0x78 {
        from
    } else {
        next_x(bytes, from + 1)
    }
}

/// The canvas size that a text spells: the number before the first `x` and
/// the number between the first `x` and the second one, or the end.
pub open spec fn dimensions(bytes: Seq<u8>) -> Result<(u32, u32), DimError> {
    let first = next_x(bytes, 0);
    if first >= bytes.len() {
        Err(DimError::MissingHeight)
    } else {
        let second = next_x(bytes, first + 1);
        match decimal(bytes.subrange(0, first), u32::MAX as nat) {
            Err(e) => Err(DimError::Width(e)),
            Ok(width) => match decimal(bytes.subrange(first + 1, second), u32::MAX as nat) {
                Err(e) => Err(DimError::Height(e)),
                Ok(height) => Ok((width as u32, height as u32)),
            },
        }
    }
}

/// Reads the bytes from `start` to `end` as a decimal number up to `max`.
fn parse_decimal(bytes: &[u8], start: usize, end: usize, max: u64) -> (number: Result<u64, IntError>)
    requires
        start <= end <= bytes@.len(),
    ensures
        match decimal(bytes@.subrange(start as int, end as int), max as nat) {
            Ok(n) => number == Ok::<u64, IntError>(n as u64) && n <= max,
            Err(e) => number == Err::<u64, IntError>(e),
        },
{
    let ghost text = bytes@.subrange(start as int, end as int);
    if start == end {
        return Err(IntError::Empty);
    }
    let mut at: usize = start;
    if bytes[start] == 0x2B {
        if end - start == 1 {
            return Err(IntError::InvalidDigit);
        }
        at = start + 1;
        assert(text.drop_first() =~= bytes@.subrange(at as int, end as int));
    }
    let ghost digits = bytes@.subrange(at as int, end as int);
    assert(decimal(text, max as nat) == scan_digits(digits, 0, max as nat));
    let ghost first = at;
    let mut acc: u64 = 0;
    while at < end
        invariant
            first <= at <= end,
            end <= bytes@.len(),
            acc <= max,
            digits == bytes@.subrange(first as int, end as int),
            start <= end,
            decimal(bytes@.subrange(start as int, end as int), max as nat) == scan_digits(
                digits,
                0,
                max as nat,
            ),
            scan_digits(digits, 0, max as nat) == scan_digits(
                bytes@.subrange(at as int, end as int),
                acc as nat,
                max as nat,
            ),
        decreases end - at,
    {
        let ghost rest = bytes@.subrange(at as int, end as int);
        assert(rest.drop_first() =~= bytes@.subrange(at + 1, end as int));
        assert(rest[0] == bytes@[at as int]);
        let byte: u8 = bytes[at];
        if byte < 0x30 || byte > 0x39 {
            return Err(IntError::InvalidDigit);
        }
        let digit: u64 = (byte - 0x30) as u64;
        let next: u128 = acc as u128 * 10 + digit as u128;
        if next > max as u128 {
            return Err(IntError::PosOverflow);
        }
        acc = next as u64;
        at += 1;
    }
    Ok(acc)
}

/// Reads a count such as `500000`, `500k` or `2M`.
pub fn parse_int(raw: &str) -> (parsed: Result<usize, IntError>)
    ensures
        parsed == count(raw.spec_bytes()),
{
    let bytes = raw.as_bytes();
    let len: usize = bytes.len();
    let mut end: usize = len;
    let mut factor: u64 = 1;
    if len > 0 {
        let last: u8 = bytes[len - 1];
        if last == 0x6B || last == 0x4B {
            factor = 1_000;
            end = len - 1;
        } else if last == 0x6D || last == 0x4D {
            factor = 1_000_000;
            end = len - 1;
        } else if last == 0x62 || last == 0x42 {
            factor = 1_000_000_000;
            end = len - 1;
        } else if last == 0x74 || last == 0x54 {
            factor = 1_000_000_000_000;
            end = len - 1;
        }
    }
    proof {
        if end == len {
            assert(bytes@.subrange(0, end as int) =~= bytes@);
        } else {
            assert(bytes@.subrange(0, end as int) =~= bytes@.drop_last());
        }
    }
    match parse_decimal(bytes, 0, end, usize::MAX as u64) {
        Ok(number) => {
            assert(number * factor <= 0xFFFF_FFFF_FFFF_FFFF * 1_000_000_000_000) by (nonlinear_arith)
                requires
                    number <= 0xFFFF_FFFF_FFFF_FFFF,
                    0 <= factor <= 1_000_000_000_000,
            ;
            assert(number * factor >= 0) by (nonlinear_arith)
                requires
                    number >= 0,
                    factor >= 0,
            ;
            let product: u128 = number as u128 * factor as u128;
            if product <= usize::MAX as u128 {
                Ok(product as usize)
            } else {
                Err(IntError::PosOverflow)
            }
        },
        Err(e) => Err(e),
    }
}

/// The position of the first `x` from `from` on.
fn find_x(bytes: &[u8], from: usize) -> (at: usize)
    requires
        from <= bytes@.len(),
    ensures
        at == next_x(bytes@, from as int),
        from <= at <= bytes@.len(),
{
    let mut at: usize = from;
    while at < bytes.len()
        invariant
            from <= at <= bytes@.len(),
            next_x(bytes@, from as int) == next_x(bytes@, at as int),
        decreases bytes@.len() - at,
    {
        if bytes[at] == 0x78 {
            return at;
        }
        at += 1;
    }
    at
}

/// Reads a canvas size such as `1024x768`.
pub fn parse_dim(raw: &str) -> (parsed: Result<(u32, u32), DimError>)
    ensures
        parsed == dimensions(raw.spec_bytes()),
{
    let bytes = raw.as_bytes();
    let first: usize = find_x(bytes, 0);
    if first >= bytes.len() {
        return Err(DimError::MissingHeight);
    }
    let second: usize = find_x(bytes, first + 1);
    let width: u64 = match parse_decimal(bytes, 0, first, u32::MAX as u64) {
        Ok(width) => width,
        Err(e) => {
            return Err(DimError::Width(e));
        },
    };
    let height: u64 = match parse_decimal(bytes, first + 1, second, u32::MAX as u64) {
        Ok(height) => height,
        Err(e) => {
            return Err(DimError::Height(e));
        },
    };
    Ok((width as u32, height as u32))
}

} // verus!
