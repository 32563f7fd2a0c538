//! What the bot's commands decide: how many emojis an inline query asks for,
//! which period a stat command asks for, and the text of a stat report.

use vstd::prelude::*;
use vstd::string::*;

use crate::stat::StatData;
use crate::util::{push_char, rand_num};

verus! {

/// The fewest emojis an inline query may ask for.
pub const MIN_REQUESTED: u64 = 1;

/// The most emojis an inline query may ask for; larger requests are clamped.
pub const MAX_REQUESTED: u64 = 4096;

/// The fewest emojis a call of the police gets by default.
pub const DEFAULT_COUNT_MIN: u64 = 8;

/// One more than the most emojis a call of the police gets by default.
pub const DEFAULT_COUNT_END: u64 = 96;

/// The look-back period of `/stat` when none is given.
pub const DEFAULT_STAT_DAYS: i64 = 7;

/// How many emojis an inline query asks for.
#[derive(Clone, Copy, Debug, PartialEq, Eq, Structural)]
pub enum InlineCount {
    /// The query is empty: a random count is used.
    Random,
    /// This many.
    Exactly(u64),
    /// The query is not a count: it gets an empty answer.
    Invalid,
}

pub open spec fn is_digit(c: char) -> bool {
    '0' <= c <= '9'
}

pub open spec fn all_digits(s: Seq<char>) -> bool {
    forall|i: int| 0 <= i < s.len() ==> is_digit(#[trigger] s[i])
}

/// The number that the decimal digits `s` write.
pub open spec fn digits_value(s: Seq<char>) -> int
    decreases s.len(),
{
    if s.len() == 0 {
        0
    } else {
        10 * digits_value(s.drop_last()) + (s.last() as u32 - '0' as u32)
    }
}

/// Some leading run of digits of `s` writes a number above `limit`.
pub open spec fn prefix_exceeds(s: Seq<char>, limit: int) -> bool {
    exists|n: int| 0 < n <= s.len() && all_digits(#[trigger] s.take(n)) && digits_value(s.take(n)) > limit
}

/// A query with a leading `+` (and more after it) is read without the sign.
pub open spec fn unsigned_body(q: Seq<char>) -> Seq<char> {
    if q.len() > 1 && q[0] == '+' {
        q.drop_first()
    } else {
        q
    }
}

/// What an inline query asks for. Its text is read as an unsigned decimal,
/// digit by digit: a number that outgrows 64 bits before any other character
/// is met counts as the most that may be asked for; zero and text that is not a
/// number are refused; a count above the most is clamped to it.
pub open spec fn requested_count(q: Seq<char>) -> InlineCount {
    let body = unsigned_body(q);
    if q.len() == 0 {
        InlineCount::Random
    } else if prefix_exceeds(body, u64::MAX as int) {
        InlineCount::Exactly(MAX_REQUESTED)
    } else if !all_digits(body) || digits_value(body) < MIN_REQUESTED {
        InlineCount::Invalid
    } else if digits_value(body) > MAX_REQUESTED {
        InlineCount::Exactly(MAX_REQUESTED)
    } else {
        InlineCount::Exactly(digits_value(body) as u64)
    }
}

/// What reading the digits of `s` from position `start` met first.
enum DigitRun {
    /// Only digits, writing this number.
    Value(u64),
    /// A leading run of digits writes a number above the limit.
    TooLarge,
    /// A character that is not a digit, before the limit was passed.
    NonDigit,
}

proof fn lemma_digits_value_nonneg(s: Seq<char>)
    requires
        all_digits(s),
    ensures
        digits_value(s) >= 0,
    decreases s.len(),
{
    if s.len() > 0 {
        lemma_digits_value_nonneg(s.drop_last());
    }
}

proof fn lemma_digits_prefix(s: Seq<char>, m: int)
    requires
        all_digits(s),
        0 <= m <= s.len(),
    ensures
        all_digits(s.take(m)),
        digits_value(s.take(m)) <= digits_value(s),
    decreases s.len(),
{
    if m == s.len() {
        assert(s.take(m) =~= s);
    } else {
        assert(s.drop_last().take(m) =~= s.take(m));
        lemma_digits_prefix(s.drop_last(), m);
        lemma_digits_value_nonneg(s.drop_last());
    }
}

/// Reads the characters of `s` from `start` on as decimal digits, stopping at
/// the first one that is not a digit or at the first leading run whose value
/// passes `limit`.
fn read_digits(s: &str, start: usize, limit: u64) -> (r: DigitRun)
    requires
        start <= s@.len(),
    ensures
        ({
            let body = s@.subrange(start as int, s@.len() as int);
            match r {
                DigitRun::Value(v) => all_digits(body) && v == digits_value(body) && v <= limit && !prefix_exceeds(
                    body,
                    limit as int,
                ),
                DigitRun::TooLarge => prefix_exceeds(body, limit as int),
                DigitRun::NonDigit => !all_digits(body) && !prefix_exceeds(body, limit as int),
            }
        }),
{
    let n = s.unicode_len();
    let ghost body = s@.subrange(start as int, s@.len() as int);
    let mut value: u64 = 0;
    let mut i: usize = start;
    assert(body.take(0) =~= Seq::<char>::empty());
    while i < n
        invariant
            start <= i <= n,
            n == s@.len(),
            body == s@.subrange(start as int, s@.len() as int),
            all_digits(body.take(i - start)),
            value == digits_value(body.take(i - start)),
            value <= limit,
            forall|m: int| 0 < m <= i - start ==> digits_value(#[trigger] body.take(m)) <= limit,
        decreases n - i,
    {
        let c = s.get_char(i);
        let ghost k = i - start;
        assert(body[k] == c);
        if !('0' <= c && c <= '9') {
            assert(!all_digits(body));
            assert forall|m: int| 0 < m <= body.len() && all_digits(#[trigger] body.take(m)) implies digits_value(
                body.take(m),
            ) <= limit by {
                if m > k {
                    assert(body.take(m)[k] == c);
                }
            }
            return DigitRun::NonDigit;
        }
        let d: u64 = (c as u32 - '0' as u32) as u64;
        assert(body.take(k + 1).drop_last() =~= body.take(k));
        assert(body.take(k + 1).last() == c);
        assert(all_digits(body.take(k + 1)));
        if d > limit || value > (limit - d) / 10 {
            assert(value * 10 + d > limit) by (nonlinear_arith)
                requires
                    d > limit || value > (limit - d) / 10,
                    d <= 9,
            ;
            return DigitRun::TooLarge;
        }
        assert(value * 10 + d <= limit) by (nonlinear_arith)
            requires
                value <= (limit - d) / 10,
                d <= limit,
        ;
        value = value * 10 + d;
        i = i + 1;
    }
    assert(body.take(body.len() as int) =~= body);
    DigitRun::Value(value)
}

/// A random number of emojis for a call of the police: a value of `8..96`.
pub fn default_count() -> (r: u64)
    ensures
        DEFAULT_COUNT_MIN <= r < DEFAULT_COUNT_END,
{
    rand_num(DEFAULT_COUNT_MIN, DEFAULT_COUNT_END)
}

/// Reads what an inline query asks for.
pub fn parse_inline_count(query: &str) -> (r: InlineCount)
    ensures
        r == requested_count(query@),
{
    let n = query.unicode_len();
    if n == 0 {
        return InlineCount::Random;
    }
    let start: usize = if n > 1 && query.get_char(0) == '+' {
        1
    } else {
        0
    };
    assert(query@.subrange(start as int, n as int) =~= unsigned_body(query@));
    match read_digits(query, start, u64::MAX) {
        DigitRun::TooLarge => InlineCount::Exactly(MAX_REQUESTED),
        DigitRun::NonDigit => InlineCount::Invalid,
        DigitRun::Value(v) => {
            if v < MIN_REQUESTED {
                InlineCount::Invalid
            } else if v > MAX_REQUESTED {
                InlineCount::Exactly(MAX_REQUESTED)
            } else {
                InlineCount::Exactly(v)
            }
        },
    }
}

/// The number of emojis to answer an inline query with: the count it asks for,
/// a random count of `8..96` for an empty query, or `None` for a query that is
/// refused.
pub fn inline_query_count(query: &str) -> (r: Option<u64>)
    ensures
        match requested_count(query@) {
            InlineCount::Random => r is Some && DEFAULT_COUNT_MIN <= r->Some_0 < DEFAULT_COUNT_END,
            InlineCount::Exactly(k) => r == Some(k),
            InlineCount::Invalid => r is None,
        },
{
    match parse_inline_count(query) {
        InlineCount::Random => Some(default_count()),
        InlineCount::Exactly(k) => Some(k),
        InlineCount::Invalid => None,
    }
}

/// Unicode white space, as `char::is_whitespace` documents it (the `White_Space`
/// property).
pub open spec fn is_space(c: char) -> bool {
    ('\u{9}' <= c <= '\u{D}') || c == ' ' || c == '\u{85}' || c == '\u{A0}' || c == '\u{1680}' || ('\u{2000}'
        <= c <= '\u{200A}') || c == '\u{2028}' || c == '\u{2029}' || c == '\u{202F}' || c == '\u{205F}' || c
        == '\u{3000}'
}

/// The first position from `i` on that does not hold white space.
pub open spec fn skip_spaces(s: Seq<char>, i: int) -> int
    decreases s.len() - i,
{
    if 0 <= i < s.len() && is_space(s[i]) {
        skip_spaces(s, i + 1)
    } else {
        i
    }
}

/// The first position from `i` on that holds white space, or the end.
pub open spec fn word_end(s: Seq<char>, i: int) -> int
    decreases s.len() - i,
{
    if 0 <= i < s.len() && !is_space(s[i]) {
        word_end(s, i + 1)
    } else {
        i
    }
}

/// The second of the words that white space separates in `s`, if there is one.
pub open spec fn second_word(s: Seq<char>) -> Option<Seq<char>> {
    let second = skip_spaces(s, word_end(s, skip_spaces(s, 0)));
    if second < s.len() {
        Some(s.subrange(second, word_end(s, second)))
    } else {
        None
    }
}

/// The `i64` that `w` writes in decimal, with an optional sign, if any.
pub open spec fn parsed_i64(w: Seq<char>) -> Option<int> {
    if w.len() > 1 && w[0] == '-' {
        if all_digits(w.drop_first()) && -digits_value(w.drop_first()) >= i64::MIN {
            Some(-digits_value(w.drop_first()))
        } else {
            None
        }
    } else if w.len() > 1 && w[0] == '+' {
        if all_digits(w.drop_first()) && digits_value(w.drop_first()) <= i64::MAX {
            Some(digits_value(w.drop_first()))
        } else {
            None
        }
    } else if w.len() > 0 && all_digits(w) && digits_value(w) <= i64::MAX {
        Some(digits_value(w))
    } else {
        None
    }
}

/// The look-back period that a `/stat` command's text asks for: the number
/// after the command word, or seven days where there is none or it is not an
/// `i64`.
pub open spec fn requested_days(text: Option<Seq<char>>) -> int {
    match text {
        Some(s) => match second_word(s) {
            Some(w) => match parsed_i64(w) {
                Some(v) => v,
                None => DEFAULT_STAT_DAYS as int,
            },
            None => DEFAULT_STAT_DAYS as int,
        },
        None => DEFAULT_STAT_DAYS as int,
    }
}

fn is_space_char(c: char) -> (r: bool)
    ensures
        r == is_space(c),
{
    ('\u{9}' <= c && c <= '\u{D}') || c == ' ' || c == '\u{85}' || c == '\u{A0}' || c == '\u{1680}' || ('\u{2000}'
        <= c && c <= '\u{200A}') || c == '\u{2028}' || c == '\u{2029}' || c == '\u{202F}' || c == '\u{205F}' || c
        == '\u{3000}'
}

fn skip_spaces_from(s: &str, n: usize, i: usize) -> (r: usize)
    requires
        n == s@.len(),
        i <= n,
    ensures
        r == skip_spaces(s@, i as int),
        i <= r <= n,
{
    let mut j: usize = i;
    while j < n
        invariant
            i <= j <= n,
            n == s@.len(),
            skip_spaces(s@, i as int) == skip_spaces(s@, j as int),
        decreases n - j,
    {
        if !is_space_char(s.get_char(j)) {
            return j;
        }
        j = j + 1;
    }
    j
}

fn word_end_from(s: &str, n: usize, i: usize) -> (r: usize)
    requires
        n == s@.len(),
        i <= n,
    ensures
        r == word_end(s@, i as int),
        i <= r <= n,
{
    let mut j: usize = i;
    while j < n
        invariant
            i <= j <= n,
            n == s@.len(),
            word_end(s@, i as int) == word_end(s@, j as int),
        decreases n - j,
    {
        if is_space_char(s.get_char(j)) {
            return j;
        }
        j = j + 1;
    }
    j
}

/// Reads `w` as an `i64` written in decimal with an optional sign.
pub fn parse_i64(w: &str) -> (r: Option<i64>)
    ensures
        match parsed_i64(w@) {
            Some(v) => r is Some && r->Some_0 as int == v,
            None => r is None,
        },
{
    let n = w.unicode_len();
    if n == 0 {
        return None;
    }
    let first = w.get_char(0);
    if n > 1 && first == '-' {
        assert(w@.subrange(1, n as int) =~= w@.drop_first());
        match read_digits(w, 1, 0x8000_0000_0000_0000) {
            DigitRun::Value(v) => {
                proof {
                    lemma_digits_value_nonneg(w@.drop_first());
                }
                if v == 0x8000_0000_0000_0000 {
                    Some(i64::MIN)
                } else {
                    Some(-(v as i64))
                }
            },
            DigitRun::TooLarge => {
                proof {
                    let body = w@.drop_first();
                    if all_digits(body) {
                        let m = choose|m: int| 0 < m <= body.len() && all_digits(#[trigger] body.take(m)) && digits_value(body.take(m)) > 0x8000_0000_0000_0000;
                        lemma_digits_prefix(body, m);
                    }
                }
                None
            },
            DigitRun::NonDigit => None,
        }
    } else {
        let start: usize = if n > 1 && first == '+' {
            1
        } else {
            0
        };
        assert(start == 1 ==> w@.subrange(1, n as int) =~= w@.drop_first());
        assert(start == 0 ==> w@.subrange(0, n as int) =~= w@);
        match read_digits(w, start, 0x7fff_ffff_ffff_ffff) {
            DigitRun::Value(v) => {
                proof {
                    lemma_digits_value_nonneg(w@.subrange(start as int, n as int));
                }
                Some(v as i64)
            },
            DigitRun::TooLarge => {
                proof {
                    let body = w@.subrange(start as int, n as int);
                    if all_digits(body) {
                        let m = choose|m: int| 0 < m <= body.len() && all_digits(#[trigger] body.take(m)) && digits_value(body.take(m)) > 0x7fff_ffff_ffff_ffff;
                        lemma_digits_prefix(body, m);
                    }
                }
                None
            },
            DigitRun::NonDigit => None,
        }
    }
}

/// The look-back period that a `/stat` command's text asks for (`None` for a
/// message without text).
pub fn stat_days(text: Option<&str>) -> (r: i64)
    ensures
        match text {
            Some(t) => r == requested_days(Some(t@)),
            None => r == DEFAULT_STAT_DAYS,
        },
{
    match text {
        None => DEFAULT_STAT_DAYS,
        Some(t) => {
            let n = t.unicode_len();
            let first_start = skip_spaces_from(t, n, 0);
            let first_end = word_end_from(t, n, first_start);
            let second = skip_spaces_from(t, n, first_end);
            if second >= n {
                return DEFAULT_STAT_DAYS;
            }
            let second_end = word_end_from(t, n, second);
            let word = t.substring_char(second, second_end);
            match parse_i64(word) {
                Some(v) => v,
                None => DEFAULT_STAT_DAYS,
            }
        },
    }
}

/// The decimal digit character for `d`, which is below ten.
pub open spec fn digit_char(d: int) -> char {
    if d == 0 {
        '0'
    } else if d == 1 {
        '1'
    } else if d == 2 {
        '2'
    } else if d == 3 {
        '3'
    } else if d == 4 {
        '4'
    } else if d == 5 {
        '5'
    } else if d == 6 {
        '6'
    } else if d == 7 {
        '7'
    } else if d == 8 {
        '8'
    } else {
        '9'
    }
}

/// `n` written in decimal, without leading zeros.
pub open spec fn decimal(n: nat) -> Seq<char>
    decreases n,
{
    if n < 10 {
        seq![digit_char(n as int)]
    } else {
        decimal(n / 10).push(digit_char((n % 10) as int))
    }
}

/// `v` written in decimal, with a leading `-` where it is negative.
pub open spec fn signed_decimal(v: int) -> Seq<char> {
    if v < 0 {
        seq!['-'] + decimal((-v) as nat)
    } else {
        decimal(v as nat)
    }
}

/// The reply to a stat command: the period and the three totals, one per line.
pub open spec fn stat_report_text(days: int, data: StatData) -> Seq<char> {
    "Last "@ + signed_decimal(days) + " days:\n- Total emoji sent: "@ + decimal(data.total_emoji_sent as nat)
        + "\n- Total command triggered: "@ + decimal(data.total_command_triggered as nat)
        + "\n- Total inline query sent: "@ + decimal(data.total_inline_query_sent as nat)
}

fn digit_char_of(d: u64) -> (c: char)
    requires
        d < 10,
    ensures
        c == digit_char(d as int),
{
    if d == 0 {
        '0'
    } else if d == 1 {
        '1'
    } else if d == 2 {
        '2'
    } else if d == 3 {
        '3'
    } else if d == 4 {
        '4'
    } else if d == 5 {
        '5'
    } else if d == 6 {
        '6'
    } else if d == 7 {
        '7'
    } else if d == 8 {
        '8'
    } else {
        '9'
    }
}

fn push_decimal(s: &mut String, n: u64)
    ensures
        final(s)@ == old(s)@ + decimal(n as nat),
    decreases n,
{
    if n >= 10 {
        push_decimal(s, n / 10);
    }
    push_char(s, digit_char_of(n % 10));
    proof {
        if n < 10 {
            assert(old(s)@ + decimal(n as nat) =~= old(s)@.push(digit_char(n as int)));
        } else {
            assert(old(s)@ + decimal(n as nat) =~= (old(s)@ + decimal((n / 10) as nat)).push(
                digit_char((n % 10) as int),
            ));
        }
    }
}

/// The reply to a stat command over `days` days with totals `data`.
pub fn stat_report(days: i64, data: StatData) -> (r: String)
    ensures
        r@ == stat_report_text(days as int, data),
{
    let mut s = String::new();
    s.append("Last ");
    let ghost start = s@;
    if days < 0 {
        push_char(&mut s, '-');
        let magnitude: u64 = (-(days + 1)) as u64 + 1;
        push_decimal(&mut s, magnitude);
        assert(s@ =~= start + signed_decimal(days as int));
    } else {
        push_decimal(&mut s, days as u64);
    }
    s.append(" days:\n- Total emoji sent: ");
    push_decimal(&mut s, data.total_emoji_sent);
    s.append("\n- Total command triggered: ");
    push_decimal(&mut s, data.total_command_triggered);
    s.append("\n- Total inline query sent: ");
    push_decimal(&mut s, data.total_inline_query_sent);
    assert(s@ =~= stat_report_text(days as int, data));
    s
}

} // verus!
