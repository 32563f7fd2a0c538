//! Daily usage counters: the row type, the upsert step for one increment, and
//! sums over a look-back period of days.

use vstd::prelude::*;

verus! {

/// Which of a day's counters an increment adds to.
#[derive(Clone, Copy, Debug, PartialEq, Eq, Structural)]
pub enum StatField {
    EmojiSent,
    CommandTriggered,
    InlineQuerySent,
}

/// The three usage counters of an entity (a user or a chat), for one day or
/// summed over several.
#[derive(Clone, Copy, Debug, PartialEq, Eq, Structural)]
pub struct StatData {
    pub total_emoji_sent: u64,
    pub total_command_triggered: u64,
    pub total_inline_query_sent: u64,
}

/// One stored row: the counters of one entity on one UTC day. Days are counted
/// from the start of the common era (1 January of year 1 is day 1).
#[derive(Clone, Copy, Debug, PartialEq, Eq, Structural)]
pub struct DailyCounter {
    pub entity_id: i64,
    pub day: i32,
    pub data: StatData,
}

/// Why a counter operation was refused.
#[derive(Clone, Copy, Debug, PartialEq, Eq, Structural)]
pub enum StatError {
    /// A look-back period of fewer than one day was asked for.
    InvalidDays,
    /// A counter or a sum of counters would not fit in 64 bits.
    Overflow,
}

pub open spec fn zero_data() -> StatData {
    StatData { total_emoji_sent: 0, total_command_triggered: 0, total_inline_query_sent: 0 }
}

/// The value of counter `f` in `d`.
pub open spec fn field_value(d: StatData, f: StatField) -> int {
    match f {
        StatField::EmojiSent => d.total_emoji_sent as int,
        StatField::CommandTriggered => d.total_command_triggered as int,
        StatField::InlineQuerySent => d.total_inline_query_sent as int,
    }
}

/// Whether `amount` can be added to counter `f` of `d` without leaving 64 bits.
pub open spec fn can_add(d: StatData, f: StatField, amount: int) -> bool {
    field_value(d, f) + amount <= u64::MAX
}

/// `d` with `amount` added to counter `f` and the other two kept.
pub open spec fn added(d: StatData, f: StatField, amount: int) -> StatData {
    match f {
        StatField::EmojiSent => StatData {
            total_emoji_sent: (d.total_emoji_sent + amount) as u64,
            total_command_triggered: d.total_command_triggered,
            total_inline_query_sent: d.total_inline_query_sent,
        },
        StatField::CommandTriggered => StatData {
            total_emoji_sent: d.total_emoji_sent,
            total_command_triggered: (d.total_command_triggered + amount) as u64,
            total_inline_query_sent: d.total_inline_query_sent,
        },
        StatField::InlineQuerySent => StatData {
            total_emoji_sent: d.total_emoji_sent,
            total_command_triggered: d.total_command_triggered,
            total_inline_query_sent: (d.total_inline_query_sent + amount) as u64,
        },
    }
}

/// A stored day's counters, or all zeros where no row exists yet.
pub open spec fn or_zero(row: Option<StatData>) -> StatData {
    match row {
        Some(d) => d,
        None => zero_data(),
    }
}

/// The first day of the look-back period of `days` days that ends on `today`.
pub open spec fn window_first(today: int, days: int) -> int {
    today - (days - 1)
}

/// Three sums as counters, where each fits in 64 bits.
pub open spec fn totals(emoji: int, command: int, inline: int) -> Result<StatData, StatError> {
    if emoji <= u64::MAX && command <= u64::MAX && inline <= u64::MAX {
        Ok(
            StatData {
                total_emoji_sent: emoji as u64,
                total_command_triggered: command as u64,
                total_inline_query_sent: inline as u64,
            },
        )
    } else {
        Err(StatError::Overflow)
    }
}

/// Whether `r` belongs to entity `e` and lies within days `first..=last`.
pub open spec fn in_window(r: DailyCounter, e: int, first: int, last: int) -> bool {
    r.entity_id == e && first <= r.day && r.day <= last
}

/// The sum of counter `f` over the rows of entity `e` within days `first..=last`.
pub open spec fn rows_total(rows: Seq<DailyCounter>, e: int, first: int, last: int, f: StatField) -> int
    decreases rows.len(),
{
    if rows.len() == 0 {
        0
    } else {
        rows_total(rows.drop_last(), e, first, last, f) + if in_window(rows.last(), e, first, last) {
            field_value(rows.last().data, f)
        } else {
            0
        }
    }
}

/// What summing `rows` for `entity` over the `days` days that end on `today` gives.
pub open spec fn rows_aggregate(rows: Seq<DailyCounter>, e: int, today: int, days: int) -> Result<StatData, StatError> {
    if days < 1 {
        Err(StatError::InvalidDays)
    } else {
        let first = window_first(today, days);
        totals(
            rows_total(rows, e, first, today, StatField::EmojiSent),
            rows_total(rows, e, first, today, StatField::CommandTriggered),
            rows_total(rows, e, first, today, StatField::InlineQuerySent),
        )
    }
}

impl StatData {
    /// All three counters at zero.
    pub fn zero() -> (r: StatData)
        ensures
            r == zero_data(),
    {
        StatData { total_emoji_sent: 0, total_command_triggered: 0, total_inline_query_sent: 0 }
    }

    /// The value of counter `field`.
    pub fn get(&self, field: StatField) -> (r: u64)
        ensures
            r == field_value(*self, field),
    {
        match field {
            StatField::EmojiSent => self.total_emoji_sent,
            StatField::CommandTriggered => self.total_command_triggered,
            StatField::InlineQuerySent => self.total_inline_query_sent,
        }
    }
}

/// The row to store after adding `amount` to counter `field` of a day whose row
/// is `current` (`None` where the day has no row yet, which counts as zeros).
pub fn bumped(current: Option<StatData>, field: StatField, amount: u64) -> (r: Result<StatData, StatError>)
    ensures
        r is Ok <==> can_add(or_zero(current), field, amount as int),
        r is Ok ==> r->Ok_0 == added(or_zero(current), field, amount as int),
        r is Err ==> r->Err_0 == StatError::Overflow,
{
    let base = match current {
        Some(d) => d,
        None => StatData::zero(),
    };
    if base.get(field) > u64::MAX - amount {
        return Err(StatError::Overflow);
    }
    let r = match field {
        StatField::EmojiSent => StatData {
            total_emoji_sent: base.total_emoji_sent + amount,
            total_command_triggered: base.total_command_triggered,
            total_inline_query_sent: base.total_inline_query_sent,
        },
        StatField::CommandTriggered => StatData {
            total_emoji_sent: base.total_emoji_sent,
            total_command_triggered: base.total_command_triggered + amount,
            total_inline_query_sent: base.total_inline_query_sent,
        },
        StatField::InlineQuerySent => StatData {
            total_emoji_sent: base.total_emoji_sent,
            total_command_triggered: base.total_command_triggered,
            total_inline_query_sent: base.total_inline_query_sent + amount,
        },
    };
    Ok(r)
}

proof fn lemma_rows_total_prefix(rows: Seq<DailyCounter>, j: int, e: int, first: int, last: int, f: StatField)
    requires
        0 <= j <= rows.len(),
    ensures
        rows_total(rows.take(j), e, first, last, f) <= rows_total(rows, e, first, last, f),
    decreases rows.len(),
{
    if j == rows.len() {
        assert(rows.take(j) =~= rows);
    } else {
        assert(rows.drop_last().take(j) =~= rows.take(j));
        lemma_rows_total_prefix(rows.drop_last(), j, e, first, last, f);
    }
}

proof fn lemma_rows_total_step(rows: Seq<DailyCounter>, i: int, e: int, first: int, last: int, f: StatField)
    requires
        0 <= i < rows.len(),
    ensures
        rows_total(rows.take(i + 1), e, first, last, f) == rows_total(rows.take(i), e, first, last, f)
            + if in_window(rows[i], e, first, last) { field_value(rows[i].data, f) } else { 0 },
{
    assert(rows.take(i + 1).drop_last() =~= rows.take(i));
}

/// Sums the counters of `entity_id` over the `days` days that end on `today`,
/// reading them from `rows`.
pub fn sum_window(rows: &Vec<DailyCounter>, entity_id: i64, today: i32, days: i64) -> (r: Result<StatData, StatError>)
    ensures
        r == rows_aggregate(rows@, entity_id as int, today as int, days as int),
{
    if days < 1 {
        return Err(StatError::InvalidDays);
    }
    let ghost first = window_first(today as int, days as int);
    let ghost e = entity_id as int;
    let mut emoji: u64 = 0;
    let mut command: u64 = 0;
    let mut inline: u64 = 0;
    let mut i: usize = 0;
    while i < rows.len()
        invariant
            i <= rows.len(),
            days >= 1,
            first == window_first(today as int, days as int),
            e == entity_id as int,
            emoji == rows_total(rows@.take(i as int), e, first, today as int, StatField::EmojiSent),
            command == rows_total(rows@.take(i as int), e, first, today as int, StatField::CommandTriggered),
            inline == rows_total(rows@.take(i as int), e, first, today as int, StatField::InlineQuerySent),
        decreases rows.len() - i,
    {
        let row = rows[i];
        proof {
            lemma_rows_total_step(rows@, i as int, e, first, today as int, StatField::EmojiSent);
            lemma_rows_total_step(rows@, i as int, e, first, today as int, StatField::CommandTriggered);
            lemma_rows_total_step(rows@, i as int, e, first, today as int, StatField::InlineQuerySent);
        }
        let offset: i64 = today as i64 - row.day as i64;
        if row.entity_id == entity_id && 0 <= offset && offset < days {
            if emoji > u64::MAX - row.data.total_emoji_sent
                || command > u64::MAX - row.data.total_command_triggered
                || inline > u64::MAX - row.data.total_inline_query_sent
            {
                proof {
                    lemma_rows_total_prefix(rows@, i + 1, e, first, today as int, StatField::EmojiSent);
                    lemma_rows_total_prefix(rows@, i + 1, e, first, today as int, StatField::CommandTriggered);
                    lemma_rows_total_prefix(rows@, i + 1, e, first, today as int, StatField::InlineQuerySent);
                }
                return Err(StatError::Overflow);
            }
            emoji = emoji + row.data.total_emoji_sent;
            command = command + row.data.total_command_triggered;
            inline = inline + row.data.total_inline_query_sent;
        }
        i = i + 1;
    }
    assert(rows@.take(rows.len() as int) =~= rows@);
    Ok(StatData { total_emoji_sent: emoji, total_command_triggered: command, total_inline_query_sent: inline })
}

/// The days `first..=last` to read for a look-back period of `days` days that
/// ends on `today`: every day number that fits in an `i32` and lies in the
/// period, the start clamped to `i32::MIN`. A validation error where `days < 1`.
pub fn day_window(today: i32, days: i64) -> (r: Result<(i32, i32), StatError>)
    ensures
        r is Err <==> days < 1,
        r is Err ==> r->Err_0 == StatError::InvalidDays,
        r is Ok ==> ({
            let (first, last) = r->Ok_0;
            &&& last == today
            &&& first <= last
            &&& first == if window_first(today as int, days as int) < i32::MIN {
                i32::MIN as int
            } else {
                window_first(today as int, days as int)
            }
        }),
{
    if days < 1 {
        return Err(StatError::InvalidDays);
    }
    let span: i64 = days - 1;
    if span > today as i64 - i32::MIN as i64 {
        Ok((i32::MIN, today))
    } else {
        Ok(((today as i64 - span) as i32, today))
    }
}

} // verus!
