use catdesk::clock::{now_unix_millis, now_unix_secs, unix_secs};
use catdesk::ids::generate_mcp_slug;
use catdesk::markdown::normalize_markdown;
use catdesk::number::{decimal_i64, decimal_u64, hex_fixed_u64, parse_uint_exec, IntErrorKind};

#[test]
fn markdown_gets_unix_newlines_and_final_newline() {
    assert_eq!(normalize_markdown("a\r\nb\rc"), "a\nb\nc\n");
    assert_eq!(normalize_markdown(""), "\n");
    assert_eq!(normalize_markdown("x\n"), "x\n");
    let once = normalize_markdown("a\r\r\nb");
    assert_eq!(once, "a\n\nb\n");
    assert_eq!(normalize_markdown(&once), once);
}

#[test]
fn numbers_as_text() {
    assert_eq!(decimal_u64(0), "0");
    assert_eq!(decimal_u64(u64::MAX), "18446744073709551615");
    assert_eq!(decimal_i64(-42), "-42");
    assert_eq!(decimal_i64(i64::MIN), "-9223372036854775808");
    assert_eq!(hex_fixed_u64(0xab, 4), "00ab");
    assert_eq!(hex_fixed_u64(u64::MAX, 16), "ffffffffffffffff");
}

#[test]
fn integers_parse_like_from_str_radix() {
    let p = |s: &str, radix: u64| {
        let v: Vec<char> = s.chars().collect();
        parse_uint_exec(&v, radix, u32::MAX as u64)
    };
    assert_eq!(p("42", 10), Ok(42));
    assert_eq!(p("+7", 10), Ok(7));
    assert_eq!(p("fF", 16), Ok(255));
    assert_eq!(p("", 10), Err(IntErrorKind::Empty));
    assert_eq!(p("+", 10), Err(IntErrorKind::InvalidDigit));
    assert_eq!(p("-1", 10), Err(IntErrorKind::InvalidDigit));
    assert_eq!(p("4294967296", 10), Err(IntErrorKind::PosOverflow));
}

#[test]
fn slugs_are_sixteen_url_safe_characters() {
    let a = generate_mcp_slug();
    let b = generate_mcp_slug();
    assert_eq!(a.len(), 16);
    assert!(a.chars().all(|c| c.is_ascii_alphanumeric() || c == '-' || c == '_'));
    assert_ne!(a, b);
}

#[test]
fn clock_reads_after_epoch() {
    let secs = unix_secs().expect("clock");
    assert!(secs > 1_600_000_000);
    assert!(now_unix_secs() >= secs);
    assert!(now_unix_millis() >= secs as u128 * 1000);
}
