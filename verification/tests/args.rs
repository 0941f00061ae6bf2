use chaos_game::args::{parse_dim, parse_int, DimError, IntError};
use chaos_game::script::Nonce;

#[test]
fn counts_without_suffix() {
    assert_eq!(parse_int("500000"), Ok(500_000));
    assert_eq!(parse_int("0"), Ok(0));
    assert_eq!(parse_int("007"), Ok(7));
    assert_eq!(parse_int("+5"), Ok(5));
    assert_eq!(parse_int("18446744073709551615"), Ok(usize::MAX));
}

#[test]
fn counts_with_suffix() {
    assert_eq!(parse_int("500k"), Ok(500_000));
    assert_eq!(parse_int("500K"), Ok(500_000));
    assert_eq!(parse_int("2m"), Ok(2_000_000));
    assert_eq!(parse_int("2M"), Ok(2_000_000));
    assert_eq!(parse_int("1b"), Ok(1_000_000_000));
    assert_eq!(parse_int("1B"), Ok(1_000_000_000));
    assert_eq!(parse_int("3t"), Ok(3_000_000_000_000));
    assert_eq!(parse_int("3T"), Ok(3_000_000_000_000));
    assert_eq!(parse_int("0k"), Ok(0));
    assert_eq!(parse_int("+7k"), Ok(7_000));
    assert_eq!(parse_int("18446744t"), Ok(18_446_744_000_000_000_000));
}

#[test]
fn counts_that_are_none() {
    assert_eq!(parse_int(""), Err(IntError::Empty));
    assert_eq!(parse_int("k"), Err(IntError::Empty));
    assert_eq!(parse_int("+"), Err(IntError::InvalidDigit));
    assert_eq!(parse_int("+k"), Err(IntError::InvalidDigit));
    assert_eq!(parse_int("-5"), Err(IntError::InvalidDigit));
    assert_eq!(parse_int("12a"), Err(IntError::InvalidDigit));
    assert_eq!(parse_int("1 "), Err(IntError::InvalidDigit));
    assert_eq!(parse_int("1kk"), Err(IntError::InvalidDigit));
    assert_eq!(parse_int("++1"), Err(IntError::InvalidDigit));
    assert_eq!(parse_int("5\u{212A}"), Err(IntError::InvalidDigit));
    assert_eq!(parse_int("18446744073709551616"), Err(IntError::PosOverflow));
    assert_eq!(parse_int("18446745t"), Err(IntError::PosOverflow));
    assert_eq!(parse_int("99999999999999999999999k"), Err(IntError::PosOverflow));
}

#[test]
fn the_first_fault_decides() {
    assert_eq!(parse_int("99999999999999999999999x"), Err(IntError::PosOverflow));
    assert_eq!(parse_int("1x99999999999999999999999"), Err(IntError::InvalidDigit));
}

#[test]
fn counts_agree_with_the_standard_parser() {
    for text in ["0", "1", "42", "+42", "000123", "4294967295", "4294967296", "", "+", "-1", "1_000", "12ab", "18446744073709551615", "18446744073709551616", "٣"] {
        let expected = text.parse::<usize>().map_err(|e| format!("{:?}", e.kind()));
        let found = parse_int(text).map_err(|e| format!("{:?}", e));
        assert_eq!(found, expected, "{:?}", text);
    }
}

#[test]
fn sizes() {
    assert_eq!(parse_dim("1024x768"), Ok((1024, 768)));
    assert_eq!(parse_dim("0x0"), Ok((0, 0)));
    assert_eq!(parse_dim("+1x+2"), Ok((1, 2)));
    assert_eq!(parse_dim("1x2x3"), Ok((1, 2)));
    assert_eq!(parse_dim("1x2xrest"), Ok((1, 2)));
    assert_eq!(parse_dim("4294967295x1"), Ok((u32::MAX, 1)));
}

#[test]
fn sizes_that_are_none() {
    assert_eq!(parse_dim(""), Err(DimError::MissingHeight));
    assert_eq!(parse_dim("1024"), Err(DimError::MissingHeight));
    assert_eq!(parse_dim("1X2"), Err(DimError::MissingHeight));
    assert_eq!(parse_dim("x"), Err(DimError::Width(IntError::Empty)));
    assert_eq!(parse_dim("x5"), Err(DimError::Width(IntError::Empty)));
    assert_eq!(parse_dim("1x"), Err(DimError::Height(IntError::Empty)));
    assert_eq!(parse_dim("1xx2"), Err(DimError::Height(IntError::Empty)));
    assert_eq!(parse_dim("ax2"), Err(DimError::Width(IntError::InvalidDigit)));
    assert_eq!(parse_dim("1xb"), Err(DimError::Height(IntError::InvalidDigit)));
    assert_eq!(parse_dim("1kx2"), Err(DimError::Width(IntError::InvalidDigit)));
    assert_eq!(parse_dim("4294967296x1"), Err(DimError::Width(IntError::PosOverflow)));
    assert_eq!(parse_dim("1x4294967296"), Err(DimError::Height(IntError::PosOverflow)));
    assert_eq!(parse_dim("ax"), Err(DimError::Width(IntError::InvalidDigit)));
}

#[test]
fn nonce_counts_from_one() {
    let mut nonce = Nonce::new();
    assert_eq!(nonce.last, 0);
    assert_eq!(nonce.next_index(), 1);
    assert_eq!(nonce.next_index(), 2);
    assert_eq!(nonce.next_index(), 3);
    assert_eq!(nonce.last, 3);
    let mut late = Nonce { last: usize::MAX - 1 };
    assert_eq!(late.next_index(), usize::MAX);
}
