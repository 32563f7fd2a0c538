use call_the_police_bot::handlers::{
    default_count, inline_query_count, parse_i64, parse_inline_count, stat_days, stat_report,
    InlineCount,
};
use call_the_police_bot::stat::StatData;

#[test]
fn inline_count_empty_is_random() {
    assert_eq!(parse_inline_count(""), InlineCount::Random);
    for _ in 0..100 {
        let n = inline_query_count("").unwrap();
        assert!(8 <= n && n < 96);
    }
}

#[test]
fn inline_count_plain_numbers() {
    assert_eq!(parse_inline_count("1"), InlineCount::Exactly(1));
    assert_eq!(parse_inline_count("12"), InlineCount::Exactly(12));
    assert_eq!(parse_inline_count("+12"), InlineCount::Exactly(12));
    assert_eq!(parse_inline_count("0012"), InlineCount::Exactly(12));
    assert_eq!(parse_inline_count("4096"), InlineCount::Exactly(4096));
    assert_eq!(inline_query_count("12"), Some(12));
}

#[test]
fn inline_count_clamps_large_requests() {
    assert_eq!(parse_inline_count("4097"), InlineCount::Exactly(4096));
    assert_eq!(parse_inline_count("18446744073709551615"), InlineCount::Exactly(4096));
    assert_eq!(parse_inline_count("18446744073709551616"), InlineCount::Exactly(4096));
    assert_eq!(parse_inline_count("99999999999999999999x"), InlineCount::Exactly(4096));
    assert_eq!(inline_query_count("100000"), Some(4096));
}

#[test]
fn inline_count_refuses_other_text() {
    assert_eq!(parse_inline_count("0"), InlineCount::Invalid);
    assert_eq!(parse_inline_count("abc"), InlineCount::Invalid);
    assert_eq!(parse_inline_count("-5"), InlineCount::Invalid);
    assert_eq!(parse_inline_count("+"), InlineCount::Invalid);
    assert_eq!(parse_inline_count("++5"), InlineCount::Invalid);
    assert_eq!(parse_inline_count(" 5"), InlineCount::Invalid);
    assert_eq!(parse_inline_count("5000x"), InlineCount::Invalid);
    assert_eq!(inline_query_count("police"), None);
}

#[test]
fn default_count_range() {
    for _ in 0..200 {
        let n = default_count();
        assert!(8 <= n && n < 96);
    }
}

#[test]
fn parse_i64_values() {
    assert_eq!(parse_i64("30"), Some(30));
    assert_eq!(parse_i64("+30"), Some(30));
    assert_eq!(parse_i64("-3"), Some(-3));
    assert_eq!(parse_i64("9223372036854775807"), Some(i64::MAX));
    assert_eq!(parse_i64("-9223372036854775808"), Some(i64::MIN));
    assert_eq!(parse_i64("9223372036854775808"), None);
    assert_eq!(parse_i64("-9223372036854775809"), None);
    assert_eq!(parse_i64(""), None);
    assert_eq!(parse_i64("-"), None);
    assert_eq!(parse_i64("3d"), None);
}

#[test]
fn stat_days_from_command_text() {
    assert_eq!(stat_days(None), 7);
    assert_eq!(stat_days(Some("/stat")), 7);
    assert_eq!(stat_days(Some("/stat 30")), 30);
    assert_eq!(stat_days(Some("  /stat   -3 extra")), -3);
    assert_eq!(stat_days(Some("/stat abc")), 7);
    assert_eq!(stat_days(Some("/stat 9223372036854775808")), 7);
    assert_eq!(stat_days(Some("/stat\u{3000}14")), 14);
    assert_eq!(stat_days(Some("/stat\t\n 1")), 1);
    assert_eq!(stat_days(Some("")), 7);
}

#[test]
fn stat_report_exact_text() {
    let data = StatData {
        total_emoji_sent: 15,
        total_command_triggered: 2,
        total_inline_query_sent: 0,
    };
    assert_eq!(
        stat_report(7, data),
        "Last 7 days:\n- Total emoji sent: 15\n- Total command triggered: 2\n- Total inline query sent: 0"
    );
}

#[test]
fn stat_report_extreme_numbers() {
    let data = StatData {
        total_emoji_sent: u64::MAX,
        total_command_triggered: 10,
        total_inline_query_sent: 9,
    };
    assert_eq!(
        stat_report(i64::MIN, data),
        "Last -9223372036854775808 days:\n- Total emoji sent: 18446744073709551615\n- Total command triggered: 10\n- Total inline query sent: 9"
    );
}
