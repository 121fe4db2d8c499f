use mcp_system_monitor::helpers::{
    parse_etime, parse_size, safe_parse_i32, safe_parse_u32, safe_parse_u64,
};

#[test]
fn safe_parsers_read_trimmed_decimals() {
    assert_eq!(safe_parse_u32("42"), 42);
    assert_eq!(safe_parse_u32("  42  "), 42);
    assert_eq!(safe_parse_u32("+7"), 7);
    assert_eq!(safe_parse_u32(""), 0);
    assert_eq!(safe_parse_u32("x"), 0);
    assert_eq!(safe_parse_u32("4294967295"), u32::MAX);
    assert_eq!(safe_parse_u32("4294967296"), 0);
    assert_eq!(safe_parse_u64("18446744073709551615"), u64::MAX);
    assert_eq!(safe_parse_u64("18446744073709551616"), 0);
    assert_eq!(safe_parse_i32("-17"), -17);
    assert_eq!(safe_parse_i32("-2147483648"), i32::MIN);
    assert_eq!(safe_parse_i32("2147483648"), 0);
    assert_eq!(safe_parse_i32("-"), 0);
}

#[test]
fn plain_sizes_pass_through() {
    assert_eq!(parse_size(""), Ok(0));
    assert_eq!(parse_size("   "), Ok(0));
    assert_eq!(parse_size("1024"), Ok(1024));
    assert_eq!(parse_size(" 77 "), Ok(77));
}

#[test]
fn suffixed_sizes_scale_by_binary_units() {
    assert_eq!(parse_size("1K"), Ok(1024));
    assert_eq!(parse_size("1k"), Ok(1024));
    assert_eq!(parse_size("2M"), Ok(2 * 1024 * 1024));
    assert_eq!(parse_size("3G"), Ok(3 * 1024 * 1024 * 1024));
    assert_eq!(parse_size("1T"), Ok(1024u64.pow(4)));
    // Fractions floor to whole bytes; commas read as points.
    assert_eq!(parse_size("4.6G"), Ok((46 * 1024u64.pow(3)) / 10));
    assert_eq!(parse_size("4,6G"), Ok((46 * 1024u64.pow(3)) / 10));
    assert_eq!(parse_size("0.5K"), Ok(512));
    assert_eq!(parse_size(".5K"), Ok(512));
    assert_eq!(parse_size("5.K"), Ok(5120));
}

#[test]
fn bad_sizes_are_rejected_with_their_messages() {
    assert_eq!(
        parse_size("abcK"),
        Err(b"Invalid number in size string: abcK".to_vec())
    );
    assert_eq!(parse_size("12Q"), Err(b"Unknown size unit: Q".to_vec()));
    assert_eq!(parse_size("K"), Err(b"Invalid number in size string: K".to_vec()));
    // A negative mantissa clamps to zero, as a saturating cast would.
    assert_eq!(parse_size("-4.6K"), Ok(0));
}

#[test]
fn elapsed_times_count_seconds() {
    assert_eq!(parse_etime(""), Ok(0));
    assert_eq!(parse_etime("-"), Ok(0));
    assert_eq!(parse_etime("48:38"), Ok(48 * 60 + 38));
    assert_eq!(parse_etime("02:30:45"), Ok(2 * 3600 + 30 * 60 + 45));
    assert_eq!(
        parse_etime("1-02:30:45"),
        Ok(86400 + 2 * 3600 + 30 * 60 + 45)
    );
}

#[test]
fn bad_elapsed_times_name_the_failing_field() {
    assert_eq!(
        parse_etime("abc"),
        Err(b"Invalid elapsed time format: abc".to_vec())
    );
    assert_eq!(
        parse_etime("a:10"),
        Err(b"Invalid minutes in elapsed time: a:10".to_vec())
    );
    assert_eq!(
        parse_etime("10:b"),
        Err(b"Invalid seconds in elapsed time: 10:b".to_vec())
    );
    assert_eq!(
        parse_etime("x-02:30:45"),
        Err(b"Invalid days in elapsed time: x-02:30:45".to_vec())
    );
    assert_eq!(
        parse_etime("1-xx:30:45"),
        Err(b"Invalid hours in elapsed time: 1-xx:30:45".to_vec())
    );
    assert_eq!(
        parse_etime("1:2:3:4"),
        Err(b"Invalid elapsed time format: 1:2:3:4".to_vec())
    );
    assert_eq!(
        parse_etime("1-2-3:30:45"),
        Err(b"Invalid elapsed time format: 1-2-3:30:45".to_vec())
    );
}
