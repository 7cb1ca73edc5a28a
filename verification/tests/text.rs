use tricore_rs::text::{parse_hex, parse_num, parse_u32, NumError};

#[test]
fn parse_u32_hex_and_dec() {
    assert_eq!(parse_u32("0x10").unwrap(), 0x10);
    assert_eq!(parse_u32("16").unwrap(), 16);
    assert!(parse_u32("zz").is_err());
}

#[test]
fn parse_u32_trims_and_takes_upper_prefix() {
    assert_eq!(parse_u32("  0X1f \t"), Ok(0x1f));
    assert_eq!(parse_u32("\u{3000}42\u{2003}"), Ok(42));
    assert_eq!(parse_u32("+7"), Ok(7));
}

#[test]
fn parse_u32_error_kinds() {
    assert_eq!(parse_u32(""), Err(NumError::Empty));
    assert_eq!(parse_u32("   "), Err(NumError::Empty));
    assert_eq!(parse_u32("0x"), Err(NumError::Empty));
    assert_eq!(parse_u32("+"), Err(NumError::InvalidDigit));
    assert_eq!(parse_u32("-1"), Err(NumError::InvalidDigit));
    assert_eq!(parse_u32("12a"), Err(NumError::InvalidDigit));
    assert_eq!(parse_u32("4294967296"), Err(NumError::PosOverflow));
    assert_eq!(parse_u32("0x100000000"), Err(NumError::PosOverflow));
    assert_eq!(parse_u32("4294967295"), Ok(u32::MAX));
    assert_eq!(parse_u32("0xffffffff"), Ok(u32::MAX));
}

#[test]
fn parse_u32_agrees_with_std() {
    let cases = ["0", "007", "123456", "0x0", "0xABCdef", "99999999999", "1 2", "0x-1", "٣", "+0x5"];
    for c in cases {
        let t = c.trim();
        let std = if let Some(h) = t.strip_prefix("0x").or_else(|| t.strip_prefix("0X")) {
            u32::from_str_radix(h, 16).ok()
        } else {
            t.parse::<u32>().ok()
        };
        assert_eq!(parse_num(c), std, "input {c:?}");
        assert_eq!(parse_hex(c), std, "input {c:?}");
    }
}
