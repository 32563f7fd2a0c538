//! An in-memory store of daily counters, viewed as a map from (entity, day) to
//! that day's counters, with the laws that its operations obey.

use vstd::prelude::*;

use crate::clock::utc_today;

use crate::stat::{
    added, bumped, can_add, field_value, rows_total, sum_window, totals, window_first, zero_data,
    DailyCounter, StatData, StatError, StatField,
};

verus! {

/// The key of a row: its entity and its day.
pub open spec fn row_key(r: DailyCounter) -> (int, int) {
    (r.entity_id as int, r.day as int)
}

/// No two rows share an entity and a day.
pub open spec fn keys_unique(rows: Seq<DailyCounter>) -> bool {
    forall|i: int, j: int| 0 <= i < j < rows.len() ==> row_key(rows[i]) != row_key(rows[j])
}

/// The rows as a map from (entity, day) to that day's counters.
pub open spec fn table_of(rows: Seq<DailyCounter>) -> Map<(int, int), StatData>
    decreases rows.len(),
{
    if rows.len() == 0 {
        Map::empty()
    } else {
        table_of(rows.drop_last()).insert(row_key(rows.last()), rows.last().data)
    }
}

/// The counters of entity `e` on day `d`: zeros where the day has no row.
pub open spec fn data_at(t: Map<(int, int), StatData>, e: int, d: int) -> StatData {
    if t.contains_key((e, d)) {
        t[(e, d)]
    } else {
        zero_data()
    }
}

/// The table after adding `amount` to counter `f` of entity `e` on day `d`,
/// creating the row where there was none.
pub open spec fn incremented(t: Map<(int, int), StatData>, e: int, d: int, f: StatField, amount: int) -> Map<(int, int), StatData> {
    t.insert((e, d), added(data_at(t, e, d), f, amount))
}

/// The sum of counter `f` of entity `e` over days `first..=last`.
pub open spec fn range_total(t: Map<(int, int), StatData>, e: int, first: int, last: int, f: StatField) -> int
    decreases last - first + 1,
{
    if last < first {
        0
    } else {
        range_total(t, e, first, last - 1, f) + field_value(data_at(t, e, last), f)
    }
}

/// What asking for the counters of entity `e` over the `days` days that end on
/// `today` gives: the three sums, a validation error for fewer than one day, or
/// an overflow error where a sum does not fit in 64 bits.
pub open spec fn aggregate_of(t: Map<(int, int), StatData>, e: int, today: int, days: int) -> Result<StatData, StatError> {
    if days < 1 {
        Err(StatError::InvalidDays)
    } else {
        let first = window_first(today, days);
        totals(
            range_total(t, e, first, today, StatField::EmojiSent),
            range_total(t, e, first, today, StatField::CommandTriggered),
            range_total(t, e, first, today, StatField::InlineQuerySent),
        )
    }
}

/// `after` and `r` are what adding `amount` to counter `f` of entity `e` on day
/// `d` of `before` gives: the row raised by `amount` (created where missing), or
/// an overflow error with the table unchanged where the counter would leave 64
/// bits.
pub open spec fn increment_outcome(
    before: Map<(int, int), StatData>,
    after: Map<(int, int), StatData>,
    r: Result<(), StatError>,
    e: int,
    d: int,
    f: StatField,
    amount: int,
) -> bool {
    &&& r is Ok <==> can_add(data_at(before, e, d), f, amount)
    &&& r is Ok ==> after == incremented(before, e, d, f, amount)
    &&& r is Err ==> r->Err_0 == StatError::Overflow && after == before
}

proof fn lemma_range_total_insert(
    t: Map<(int, int), StatData>,
    k: (int, int),
    c: StatData,
    e: int,
    first: int,
    last: int,
    f: StatField,
)
    ensures
        range_total(t.insert(k, c), e, first, last, f) == range_total(t, e, first, last, f) + if k.0 == e
            && first <= k.1 <= last {
            field_value(c, f) - field_value(data_at(t, k.0, k.1), f)
        } else {
            0
        },
    decreases last - first + 1,
{
    if last >= first {
        lemma_range_total_insert(t, k, c, e, first, last - 1, f);
        assert(data_at(t.insert(k, c), e, last) == if k == (e, last) { c } else { data_at(t, e, last) });
    }
}

proof fn lemma_table_keys(rows: Seq<DailyCounter>, k: (int, int))
    ensures
        table_of(rows).contains_key(k) ==> exists|i: int| 0 <= i < rows.len() && row_key(#[trigger] rows[i]) == k,
    decreases rows.len(),
{
    if rows.len() > 0 {
        lemma_table_keys(rows.drop_last(), k);
        if table_of(rows).contains_key(k) && k != row_key(rows.last()) {
            let i = choose|i: int| 0 <= i < rows.drop_last().len() && row_key(#[trigger] rows.drop_last()[i]) == k;
            assert(rows[i] == rows.drop_last()[i]);
        }
    }
}

proof fn lemma_table_lookup(rows: Seq<DailyCounter>, i: int)
    requires
        keys_unique(rows),
        0 <= i < rows.len(),
    ensures
        table_of(rows).contains_key(row_key(rows[i])),
        table_of(rows)[row_key(rows[i])] == rows[i].data,
    decreases rows.len(),
{
    if i < rows.len() - 1 {
        assert(rows.drop_last()[i] == rows[i]);
        lemma_table_lookup(rows.drop_last(), i);
    }
}

proof fn lemma_table_update(rows: Seq<DailyCounter>, i: int, r: DailyCounter)
    requires
        keys_unique(rows),
        0 <= i < rows.len(),
        row_key(r) == row_key(rows[i]),
    ensures
        keys_unique(rows.update(i, r)),
        table_of(rows.update(i, r)) == table_of(rows).insert(row_key(r), r.data),
    decreases rows.len(),
{
    let u = rows.update(i, r);
    assert(u.last() == if i == rows.len() - 1 { r } else { rows.last() });
    if i == rows.len() - 1 {
        assert(u.drop_last() =~= rows.drop_last());
        assert(table_of(u) =~= table_of(rows).insert(row_key(r), r.data));
    } else {
        assert(u.drop_last() =~= rows.drop_last().update(i, r));
        lemma_table_update(rows.drop_last(), i, r);
        assert(row_key(rows.last()) != row_key(r));
        assert(table_of(u) =~= table_of(rows).insert(row_key(r), r.data));
    }
}

proof fn lemma_table_push(rows: Seq<DailyCounter>, r: DailyCounter)
    requires
        keys_unique(rows),
        !table_of(rows).contains_key(row_key(r)),
    ensures
        keys_unique(rows.push(r)),
        table_of(rows.push(r)) == table_of(rows).insert(row_key(r), r.data),
{
    assert(rows.push(r).drop_last() =~= rows);
    assert forall|i: int| 0 <= i < rows.len() implies row_key(rows[i]) != row_key(r) by {
        lemma_table_lookup(rows, i);
    }
}

proof fn lemma_rows_total_table(rows: Seq<DailyCounter>, e: int, first: int, last: int, f: StatField)
    requires
        keys_unique(rows),
    ensures
        rows_total(rows, e, first, last, f) == range_total(table_of(rows), e, first, last, f),
    decreases rows.len(),
{
    if rows.len() == 0 {
        lemma_range_total_empty(table_of(rows), e, first, last, f);
    } else {
        let pre = rows.drop_last();
        let r = rows.last();
        lemma_rows_total_table(pre, e, first, last, f);
        lemma_table_keys(pre, row_key(r));
        if table_of(pre).contains_key(row_key(r)) {
            let i = choose|i: int| 0 <= i < pre.len() && row_key(#[trigger] pre[i]) == row_key(r);
            assert(rows[i] == pre[i]);
            assert(false);
        }
        lemma_range_total_insert(table_of(pre), row_key(r), r.data, e, first, last, f);
    }
}

proof fn lemma_range_total_empty(t: Map<(int, int), StatData>, e: int, first: int, last: int, f: StatField)
    requires
        t == Map::<(int, int), StatData>::empty(),
    ensures
        range_total(t, e, first, last, f) == 0,
    decreases last - first + 1,
{
    if last >= first {
        lemma_range_total_empty(t, e, first, last - 1, f);
    }
}

/// Per-day usage counters of users or chats, at most one row per entity and day.
pub struct StatTable {
    rows: Vec<DailyCounter>,
}

impl View for StatTable {
    type V = Map<(int, int), StatData>;

    closed spec fn view(&self) -> Map<(int, int), StatData> {
        table_of(self.rows@)
    }
}

impl StatTable {
    /// No two rows share an entity and a day.
    pub closed spec fn wf(&self) -> bool {
        keys_unique(self.rows@)
    }

    /// An empty table.
    pub fn new() -> (r: StatTable)
        ensures
            r.wf(),
            r@ == Map::<(int, int), StatData>::empty(),
    {
        let r = StatTable { rows: Vec::new() };
        proof {
            assert(r@ == table_of(Seq::<DailyCounter>::empty()));
        }
        r
    }

    /// The position of the row of `entity_id` on `day`, if there is one.
    fn find(&self, entity_id: i64, day: i32) -> (r: Option<usize>)
        ensures
            match r {
                Some(i) => i < self.rows@.len() && row_key(self.rows@[i as int]) == (entity_id as int, day as int),
                None => forall|i: int| 0 <= i < self.rows@.len() ==> row_key(#[trigger] self.rows@[i]) != (entity_id as int, day as int),
            },
    {
        let mut i: usize = 0;
        while i < self.rows.len()
            invariant
                i <= self.rows@.len(),
                forall|j: int| 0 <= j < i ==> row_key(#[trigger] self.rows@[j]) != (entity_id as int, day as int),
            decreases self.rows.len() - i,
        {
            if self.rows[i].entity_id == entity_id && self.rows[i].day == day {
                return Some(i);
            }
            i = i + 1;
        }
        None
    }

    /// Adds `amount` to counter `field` of `entity_id` on `day`, creating the
    /// day's row where there is none. Refused, with the table unchanged, where
    /// the counter would leave 64 bits.
    pub fn increment_on(&mut self, entity_id: i64, day: i32, field: StatField, amount: u64) -> (r: Result<(), StatError>)
        requires
            old(self).wf(),
        ensures
            final(self).wf(),
            increment_outcome(old(self)@, final(self)@, r, entity_id as int, day as int, field, amount as int),
    {
        let ghost k = (entity_id as int, day as int);
        match self.find(entity_id, day) {
            Some(i) => {
                proof {
                    lemma_table_lookup(self.rows@, i as int);
                }
                let current = self.rows[i].data;
                let data = bumped(Some(current), field, amount)?;
                let row = DailyCounter { entity_id, day, data };
                proof {
                    lemma_table_update(self.rows@, i as int, row);
                }
                self.rows.set(i, row);
                Ok(())
            },
            None => {
                proof {
                    lemma_table_keys(self.rows@, k);
                }
                let data = bumped(None, field, amount)?;
                let row = DailyCounter { entity_id, day, data };
                proof {
                    lemma_table_push(self.rows@, row);
                }
                self.rows.push(row);
                Ok(())
            },
        }
    }

    /// Adds `amount` to counter `field` of `entity_id` on today's UTC date.
    pub fn increment(&mut self, entity_id: i64, field: StatField, amount: u64) -> (r: Result<(), StatError>)
        requires
            old(self).wf(),
        ensures
            final(self).wf(),
            exists|today: int|
                i32::MIN <= today <= i32::MAX && #[trigger] increment_outcome(
                    old(self)@,
                    final(self)@,
                    r,
                    entity_id as int,
                    today,
                    field,
                    amount as int,
                ),
    {
        let today = utc_today();
        self.increment_on(entity_id, today, field, amount)
    }

    /// The counters of `entity_id` summed over the `days` days that end on
    /// today's UTC date. Where `days < 1` the call is refused with a validation
    /// error before the clock or any row is read.
    pub fn get_aggregate(&self, entity_id: i64, days: i64) -> (r: Result<StatData, StatError>)
        requires
            self.wf(),
        ensures
            days < 1 ==> r == Err::<StatData, StatError>(StatError::InvalidDays),
            days >= 1 ==> exists|today: int|
                i32::MIN <= today <= i32::MAX && r == #[trigger] aggregate_of(self@, entity_id as int, today, days as int),
    {
        if days < 1 {
            return Err(StatError::InvalidDays);
        }
        let today = utc_today();
        self.aggregate_on(entity_id, today, days)
    }

    /// The counters of `entity_id` summed over the `days` days that end on
    /// `today`; a validation error, before any row is read, where `days < 1`.
    pub fn aggregate_on(&self, entity_id: i64, today: i32, days: i64) -> (r: Result<StatData, StatError>)
        requires
            self.wf(),
        ensures
            r == aggregate_of(self@, entity_id as int, today as int, days as int),
    {
        if days < 1 {
            return Err(StatError::InvalidDays);
        }
        proof {
            let first = window_first(today as int, days as int);
            lemma_rows_total_table(self.rows@, entity_id as int, first, today as int, StatField::EmojiSent);
            lemma_rows_total_table(self.rows@, entity_id as int, first, today as int, StatField::CommandTriggered);
            lemma_rows_total_table(self.rows@, entity_id as int, first, today as int, StatField::InlineQuerySent);
        }
        sum_window(&self.rows, entity_id, today, days)
    }
}

/// The table after `k` increments by one of counter `f` of entity `e` on day `d`.
pub open spec fn incremented_times(t: Map<(int, int), StatData>, e: int, d: int, f: StatField, k: nat) -> Map<(int, int), StatData>
    decreases k,
{
    if k == 0 {
        t
    } else {
        incremented(incremented_times(t, e, d, f, (k - 1) as nat), e, d, f, 1)
    }
}

/// Over a single day, the totals are that day's counters.
pub proof fn lemma_one_day_total(t: Map<(int, int), StatData>, e: int, d: int)
    ensures
        aggregate_of(t, e, d, 1) == Ok::<StatData, StatError>(data_at(t, e, d)),
{
    reveal_with_fuel(range_total, 2);
    let first = window_first(d, 1);
    assert(first == d);
}

/// Adding `a` and then `b` to the same counter of one entity on one day leaves
/// that day's total of the counter raised by `a + b`, and at exactly `a + b`
/// where the day had no activity before.
pub proof fn lemma_increments_add_up(t: Map<(int, int), StatData>, e: int, d: int, f: StatField, a: int, b: int)
    requires
        0 <= a,
        0 <= b,
        can_add(data_at(t, e, d), f, a + b),
    ensures
        ({
            let after = incremented(incremented(t, e, d, f, a), e, d, f, b);
            &&& aggregate_of(after, e, d, 1) is Ok
            &&& field_value(aggregate_of(after, e, d, 1)->Ok_0, f) == field_value(data_at(t, e, d), f) + a + b
            &&& !t.contains_key((e, d)) ==> field_value(aggregate_of(after, e, d, 1)->Ok_0, f) == a + b
        }),
{
    let after = incremented(incremented(t, e, d, f, a), e, d, f, b);
    lemma_one_day_total(after, e, d);
}

proof fn lemma_range_total_inactive(t: Map<(int, int), StatData>, e: int, first: int, last: int, f: StatField)
    requires
        forall|d: int| !t.contains_key((e, d)),
    ensures
        range_total(t, e, first, last, f) == 0,
    decreases last - first + 1,
{
    if last >= first {
        lemma_range_total_inactive(t, e, first, last - 1, f);
    }
}

/// An entity with no stored activity gets all-zero totals, not an error, over
/// any period of at least one day.
pub proof fn lemma_no_activity_is_zero(t: Map<(int, int), StatData>, e: int, today: int, days: int)
    requires
        days >= 1,
        forall|d: int| !t.contains_key((e, d)),
    ensures
        aggregate_of(t, e, today, days) == Ok::<StatData, StatError>(zero_data()),
{
    let first = window_first(today, days);
    lemma_range_total_inactive(t, e, first, today, StatField::EmojiSent);
    lemma_range_total_inactive(t, e, first, today, StatField::CommandTriggered);
    lemma_range_total_inactive(t, e, first, today, StatField::InlineQuerySent);
}

/// `k` increments by one of the same counter, for one entity on one day, leave
/// that counter raised by exactly `k` (exactly `k` where the day had no row):
/// none of them is lost.
pub proof fn lemma_unit_increments_count(t: Map<(int, int), StatData>, e: int, d: int, f: StatField, k: nat)
    requires
        can_add(data_at(t, e, d), f, k as int),
    ensures
        field_value(data_at(incremented_times(t, e, d, f, k), e, d), f) == field_value(data_at(t, e, d), f) + k,
        !t.contains_key((e, d)) ==> field_value(data_at(incremented_times(t, e, d, f, k), e, d), f) == k,
        aggregate_of(incremented_times(t, e, d, f, k), e, d, 1) == Ok::<StatData, StatError>(
            data_at(incremented_times(t, e, d, f, k), e, d),
        ),
    decreases k,
{
    if k > 0 {
        lemma_unit_increments_count(t, e, d, f, (k - 1) as nat);
    }
    lemma_one_day_total(incremented_times(t, e, d, f, k), e, d);
}

} // verus!
