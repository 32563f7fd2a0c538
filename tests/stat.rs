use chrono::Datelike;
use call_the_police_bot::stat::{
    bumped, day_window, sum_window, DailyCounter, StatData, StatError, StatField,
};
use call_the_police_bot::table::StatTable;

fn data(emoji: u64, command: u64, inline: u64) -> StatData {
    StatData {
        total_emoji_sent: emoji,
        total_command_triggered: command,
        total_inline_query_sent: inline,
    }
}

#[test]
fn bumped_creates_a_missing_row() {
    assert_eq!(bumped(None, StatField::EmojiSent, 10), Ok(data(10, 0, 0)));
    assert_eq!(bumped(None, StatField::CommandTriggered, 1), Ok(data(0, 1, 0)));
    assert_eq!(bumped(None, StatField::InlineQuerySent, 3), Ok(data(0, 0, 3)));
}

#[test]
fn bumped_adds_to_an_existing_row() {
    assert_eq!(bumped(Some(data(4, 5, 6)), StatField::EmojiSent, 10), Ok(data(14, 5, 6)));
    assert_eq!(bumped(Some(data(4, 5, 6)), StatField::InlineQuerySent, 0), Ok(data(4, 5, 6)));
}

#[test]
fn bumped_refuses_overflow() {
    assert_eq!(
        bumped(Some(data(u64::MAX, 0, 0)), StatField::EmojiSent, 1),
        Err(StatError::Overflow)
    );
    assert_eq!(
        bumped(Some(data(u64::MAX - 1, 0, 0)), StatField::EmojiSent, 1),
        Ok(data(u64::MAX, 0, 0))
    );
}

#[test]
fn day_window_bounds() {
    assert_eq!(day_window(738_000, 7), Ok((737_994, 738_000)));
    assert_eq!(day_window(738_000, 1), Ok((738_000, 738_000)));
    assert_eq!(day_window(738_000, i64::MAX), Ok((i32::MIN, 738_000)));
    assert_eq!(day_window(738_000, 0), Err(StatError::InvalidDays));
    assert_eq!(day_window(738_000, -5), Err(StatError::InvalidDays));
}

#[test]
fn sum_window_picks_entity_and_days() {
    let rows = vec![
        DailyCounter { entity_id: 42, day: 100, data: data(10, 1, 0) },
        DailyCounter { entity_id: 42, day: 96, data: data(5, 2, 1) },
        DailyCounter { entity_id: 42, day: 93, data: data(100, 100, 100) },
        DailyCounter { entity_id: 42, day: 101, data: data(100, 100, 100) },
        DailyCounter { entity_id: 7, day: 100, data: data(100, 100, 100) },
    ];
    assert_eq!(sum_window(&rows, 42, 100, 7), Ok(data(15, 3, 1)));
    assert_eq!(sum_window(&rows, 42, 100, 8), Ok(data(115, 103, 101)));
    assert_eq!(sum_window(&rows, 42, 100, 0), Err(StatError::InvalidDays));
    assert_eq!(sum_window(&rows, 8, 100, 30), Ok(data(0, 0, 0)));
}

#[test]
fn sum_window_refuses_overflow() {
    let rows = vec![
        DailyCounter { entity_id: 1, day: 10, data: data(u64::MAX, 0, 0) },
        DailyCounter { entity_id: 1, day: 9, data: data(1, 0, 0) },
    ];
    assert_eq!(sum_window(&rows, 1, 10, 1), Ok(data(u64::MAX, 0, 0)));
    assert_eq!(sum_window(&rows, 1, 10, 2), Err(StatError::Overflow));
}

#[test]
fn aggregate_over_a_week_example() {
    let mut t = StatTable::new();
    let today = 738_000;
    assert_eq!(t.increment_on(42, today, StatField::EmojiSent, 10), Ok(()));
    assert_eq!(t.increment_on(42, today - 4, StatField::EmojiSent, 5), Ok(()));
    let r = t.aggregate_on(42, today, 7).unwrap();
    assert_eq!(r.total_emoji_sent, 15);
    assert_eq!(r, data(15, 0, 0));
}

#[test]
fn aggregate_rejects_days_below_one() {
    let mut t = StatTable::new();
    assert_eq!(t.increment_on(42, 10, StatField::EmojiSent, 10), Ok(()));
    assert_eq!(t.aggregate_on(42, 10, 0), Err(StatError::InvalidDays));
    assert_eq!(t.aggregate_on(42, 10, -1), Err(StatError::InvalidDays));
    assert_eq!(t.aggregate_on(42, 10, i64::MIN), Err(StatError::InvalidDays));
    assert_eq!(t.get_aggregate(42, 0), Err(StatError::InvalidDays));
}

#[test]
fn two_increments_add_up() {
    let mut t = StatTable::new();
    let (a, b) = (3u64, 11u64);
    assert_eq!(t.increment_on(5, 200, StatField::EmojiSent, a), Ok(()));
    assert_eq!(t.increment_on(5, 200, StatField::EmojiSent, b), Ok(()));
    assert_eq!(t.aggregate_on(5, 200, 1), Ok(data(a + b, 0, 0)));
}

#[test]
fn no_activity_gives_zeros() {
    let mut t = StatTable::new();
    assert_eq!(t.aggregate_on(42, 500, 7), Ok(data(0, 0, 0)));
    assert_eq!(t.increment_on(41, 500, StatField::EmojiSent, 9), Ok(()));
    assert_eq!(t.aggregate_on(42, 500, 7), Ok(data(0, 0, 0)));
    assert_eq!(t.get_aggregate(42, 30), Ok(data(0, 0, 0)));
}

#[test]
fn unit_increments_are_all_counted() {
    let mut t = StatTable::new();
    let k = 250u64;
    for _ in 0..k {
        assert_eq!(t.increment_on(9, 77, StatField::CommandTriggered, 1), Ok(()));
    }
    assert_eq!(t.aggregate_on(9, 77, 1), Ok(data(0, k, 0)));
}

#[test]
fn increment_overflow_leaves_table_unchanged() {
    let mut t = StatTable::new();
    assert_eq!(t.increment_on(1, 1, StatField::InlineQuerySent, u64::MAX), Ok(()));
    assert_eq!(t.increment_on(1, 1, StatField::InlineQuerySent, 1), Err(StatError::Overflow));
    assert_eq!(t.aggregate_on(1, 1, 1), Ok(data(0, 0, u64::MAX)));
    assert_eq!(t.increment_on(1, 0, StatField::InlineQuerySent, 1), Ok(()));
    assert_eq!(t.aggregate_on(1, 1, 2), Err(StatError::Overflow));
}

#[test]
fn counters_are_kept_apart() {
    let mut t = StatTable::new();
    assert_eq!(t.increment_on(1, 10, StatField::EmojiSent, 40), Ok(()));
    assert_eq!(t.increment_on(1, 10, StatField::CommandTriggered, 1), Ok(()));
    assert_eq!(t.increment_on(1, 10, StatField::InlineQuerySent, 2), Ok(()));
    assert_eq!(t.increment_on(2, 10, StatField::EmojiSent, 7), Ok(()));
    assert_eq!(t.increment_on(1, 9, StatField::EmojiSent, 8), Ok(()));
    assert_eq!(t.aggregate_on(1, 10, 1), Ok(data(40, 1, 2)));
    assert_eq!(t.aggregate_on(1, 10, 2), Ok(data(48, 1, 2)));
    assert_eq!(t.aggregate_on(2, 10, 2), Ok(data(7, 0, 0)));
    assert_eq!(t.aggregate_on(1, 9, 1), Ok(data(8, 0, 0)));
}

#[test]
fn increment_lands_on_todays_utc_date() {
    let mut t = StatTable::new();
    assert_eq!(t.increment(42, StatField::InlineQuerySent, 4), Ok(()));
    let today = chrono::Utc::now().date_naive().num_days_from_ce();
    // 1 January 2024 is day 738_886.
    assert!(today >= 738_886);
    assert_eq!(t.aggregate_on(42, today, 2), Ok(data(0, 0, 4)));
    assert_eq!(t.aggregate_on(42, today - 2, 1), Ok(data(0, 0, 0)));
}

#[test]
fn increment_and_aggregate_on_today() {
    let mut t = StatTable::new();
    assert_eq!(t.increment(42, StatField::EmojiSent, 10), Ok(()));
    assert_eq!(t.increment(42, StatField::EmojiSent, 5), Ok(()));
    let r = t.get_aggregate(42, 2).unwrap();
    assert_eq!(r.total_emoji_sent, 15);
}
