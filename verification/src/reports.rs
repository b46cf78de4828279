//! Listings and reports: sessions, search hits, remembered facts, usage and costs.
//!
//! Percentages and costs are floating-point numbers, so they come in here as they are shown.
use crate::config::Prices;
use crate::number;
use crate::number::{count, number as number_text, pad_left, pad_right, signed_number};
use crate::panel;
use crate::scan;
use crate::snippet;
use crate::snippet::{make_snippet, short_id};
use crate::storage::{MemoryEntry, ModelStat, SearchHit, SessionStats, SessionSummary, UsagePeriod};
use crate::text;
use crate::text::{cat, cat3, cat5, same};
use crate::tui;
use crate::tui::truncate_chars;
use vstd::prelude::*;
use vstd::string::*;

verus! {

broadcast use crate::text::group_views;

// ---------------------------------------------------------------------------------------------
// Time
// ---------------------------------------------------------------------------------------------

/// How a time is shown.
pub const TIME_PATTERN: &'static str = "%Y-%m-%d %H:%M";

/// The first second of the years that a date can have.
pub const FIRST_SECOND: i64 = -8_334_601_228_800;

/// The last second of the years that a date can have.
pub const LAST_SECOND: i64 = 8_210_266_876_799;

/// The year has a twenty-ninth of February.
pub open spec fn leap(year: int) -> bool {
    year % 4 == 0 && (year % 100 != 0 || year % 400 == 0)
}

/// How many days a month has.
pub open spec fn month_length(year: int, month: int) -> int {
    if month == 2 {
        if leap(year) {
            29
        } else {
            28
        }
    } else if month == 4 || month == 6 || month == 9 || month == 11 {
        30
    } else {
        31
    }
}

/// How many days of a year are over when a month begins.
pub open spec fn days_before_month(year: int, month: int) -> int
    decreases month,
{
    if month <= 1 {
        0
    } else {
        days_before_month(year, month - 1) + month_length(year, month - 1)
    }
}

/// How many days lie between the beginning of 1970 and that of a year.
pub open spec fn days_before_year(year: int) -> int {
    let past = year - 1;
    365 * past + past / 4 - past / 100 + past / 400 - 719162
}

/// The three numbers are a date of the Gregorian calendar.
pub open spec fn is_date(year: int, month: int, day: int) -> bool {
    1 <= month <= 12 && 1 <= day <= month_length(year, month)
}

/// How many days lie between the first day of 1970 and a date.
pub open spec fn day_number(year: int, month: int, day: int) -> int {
    days_before_year(year) + days_before_month(year, month) + day - 1
}

/// A number of two digits.
pub open spec fn two_digits(n: int) -> Seq<char> {
    number::padded_left(number::decimal(n as nat), '0', 2)
}

/// A year of four digits or more, with a sign in front where it is before the year 0 or after the
/// year 9999.
pub open spec fn year_text(year: int) -> Seq<char> {
    if year < 0 {
        "-"@ + number::padded_left(number::decimal((-year) as nat), '0', 4)
    } else if year > 9999 {
        "+"@ + number::decimal(year as nat)
    } else {
        number::padded_left(number::decimal(year as nat), '0', 4)
    }
}

/// A date and a minute of its day, as they are shown.
pub open spec fn clock_text(year: int, month: int, day: int, minute: int) -> Seq<char> {
    year_text(year) + "-"@ + two_digits(month) + "-"@ + two_digits(day) + " "@ + two_digits(
        minute / 60,
    ) + ":"@ + two_digits(minute % 60)
}

/// A text shows the date that is given and the minute of a second, which lies on that date. Seconds
/// are counted from the beginning of 1970.
pub open spec fn shows(second: int, year: int, month: int, day: int, time: Seq<char>) -> bool {
    &&& is_date(year, month, day)
    &&& day_number(year, month, day) == second / 86400
    &&& time == clock_text(year, month, day, second % 86400 / 60)
}

/// A text shows the local time of a second: date and minute of a second that lies less than a day
/// before or after it, by as much as the local time is ahead.
pub open spec fn reads(timestamp: int, time: Seq<char>) -> bool {
    exists|local: int, year: int, month: int, day: int|
        timestamp - 86400 < local < timestamp + 86400 && #[trigger] shows(
            local,
            year,
            month,
            day,
            time,
        )
}

/// `chrono::TimeZone::timestamp_opt` of `chrono::Local`, formatted by `chrono::DateTime::format`:
/// there is a time exactly for the seconds from the beginning of the year -262143 to the end of the
/// year 262142. The text shows the date and the minute of the second, moved by the offset of the
/// local time. Which offset that is depends on the time zone of the machine; that it is less than a
/// day either way does not.
#[verifier::external_body]
fn local_time(timestamp: i64, pattern: &str) -> (r: Option<String>)
    requires
        pattern@ == TIME_PATTERN@,
    ensures
        r is Some <==> FIRST_SECOND <= timestamp <= LAST_SECOND,
        r matches Some(time) ==> reads(timestamp as int, time@),
{
    match chrono::TimeZone::timestamp_opt(&chrono::Local, timestamp, 0).single() {
        Some(time) => Some(time.format(pattern).to_string()),
        None => None,
    }
}

/// A time as it is shown, where there is one.
pub fn time_or_note(found: Option<String>) -> (r: String)
    ensures
        r@ == match found {
            Some(time) => time@,
            None => "unknown time"@,
        },
{
    match found {
        Some(time) => time,
        None => "unknown time".to_owned(),
    }
}

/// How a second may be shown: as its local date and minute, or as a note where it is no time that a
/// date can have.
pub open spec fn shown_as(timestamp: i64, time: Seq<char>) -> bool {
    if FIRST_SECOND <= timestamp <= LAST_SECOND {
        reads(timestamp as int, time)
    } else {
        time == "unknown time"@
    }
}

/// A time in the time zone of the machine, or a note where it is no time that a date can have.
pub fn format_timestamp(timestamp: i64) -> (r: String)
    ensures
        shown_as(timestamp, r@),
{
    time_or_note(local_time(timestamp, TIME_PATTERN))
}

/// A number is a multiple exactly where one more of them lies at or below it.
proof fn lemma_multiples(n: int, k: int)
    by (nonlinear_arith)
    requires
        k > 0,
    ensures
        n / k == (n - 1) / k + if n % k == 0 {
            1int
        } else {
            0
        },
{
    let q = (n - 1) / k;
    let rest = (n - 1) % k;
    assert(n - 1 == k * q + rest);
    if rest == k - 1 {
        assert(n == k * (q + 1));
    } else {
        assert(n == k * q + (rest + 1));
    }
}

/// A year is over after its days.
proof fn lemma_next_year(year: int)
    ensures
        days_before_year(year + 1) == days_before_year(year) + if leap(year) {
            366int
        } else {
            365
        },
{
    lemma_multiples(year, 4);
    lemma_multiples(year, 100);
    lemma_multiples(year, 400);
    assert(year % 400 == 0 ==> year % 100 == 0);
    assert(year % 100 == 0 ==> year % 4 == 0);
}

/// A later year begins no sooner than the next one.
proof fn lemma_later_year(year: int, later: int)
    requires
        year < later,
    ensures
        days_before_year(year + 1) <= days_before_year(later),
    decreases later - year,
{
    if year + 1 < later {
        lemma_later_year(year, later - 1);
        lemma_next_year(later - 1);
    }
}

/// The months of a year make up its days.
proof fn lemma_months(year: int, month: int)
    requires
        1 <= month <= 12,
    ensures
        0 <= days_before_month(year, month),
        days_before_month(year, month) + month_length(year, month) <= if leap(year) {
            366int
        } else {
            365
        },
{
    reveal_with_fuel(days_before_month, 13);
}

/// A later month begins no sooner than the next one.
proof fn lemma_later_month(year: int, month: int, later: int)
    requires
        1 <= month < later <= 12,
    ensures
        days_before_month(year, month) + month_length(year, month) <= days_before_month(year, later),
    decreases later - month,
{
    if month + 1 < later {
        lemma_later_month(year, month, later - 1);
    }
}

/// A date lies in its year.
proof fn lemma_in_year(year: int, month: int, day: int)
    requires
        is_date(year, month, day),
    ensures
        days_before_year(year) <= day_number(year, month, day) < days_before_year(year + 1),
{
    lemma_months(year, month);
    lemma_next_year(year);
}

/// No day has two dates.
pub proof fn law_days_have_one_date(
    year: int,
    month: int,
    day: int,
    other_year: int,
    other_month: int,
    other_day: int,
)
    requires
        is_date(year, month, day),
        is_date(other_year, other_month, other_day),
        day_number(year, month, day) == day_number(other_year, other_month, other_day),
    ensures
        year == other_year,
        month == other_month,
        day == other_day,
{
    lemma_in_year(year, month, day);
    lemma_in_year(other_year, other_month, other_day);
    if year < other_year {
        lemma_later_year(year, other_year);
    } else if other_year < year {
        lemma_later_year(other_year, year);
    } else if month < other_month {
        lemma_later_month(year, month, other_month);
    } else if other_month < month {
        lemma_later_month(year, other_month, month);
    }
}

/// The times that can be shown are those of the years from -262143 to 262142, from the first second
/// of the first to the last second of the last.
pub proof fn law_times_span_whole_years(timestamp: i64, year: int, month: int, day: int)
    requires
        is_date(year, month, day),
        day_number(year, month, day) == timestamp as int / 86400,
    ensures
        FIRST_SECOND <= timestamp <= LAST_SECOND <==> -262143 <= year <= 262142,
{
    lemma_in_year(year, month, day);
    if year < -262143 {
        lemma_later_year(year, -262143);
    } else if year > -262143 {
        lemma_later_year(-262143, year);
    }
    if year > 262142 {
        lemma_later_year(262142, year);
    } else if year < 262142 {
        lemma_later_year(year, 262142);
    }
}

/// A local time determines how it is shown.
pub proof fn law_one_text_for_a_local_time(
    second: int,
    date: (int, int, int),
    other: (int, int, int),
    time: Seq<char>,
    other_time: Seq<char>,
)
    requires
        shows(second, date.0, date.1, date.2, time),
        shows(second, other.0, other.1, other.2, other_time),
    ensures
        time == other_time,
{
    law_days_have_one_date(date.0, date.1, date.2, other.0, other.1, other.2);
}

/// A text ends in a month, a day, an hour and a minute of two digits each, and what stands before
/// them has room for a year: four characters or more.
pub open spec fn dated(time: Seq<char>) -> bool {
    let k = time.len() - 12;
    &&& k >= 4
    &&& time[k] == '-' && text::is_digit(time[k + 1]) && text::is_digit(time[k + 2])
    &&& time[k + 3] == '-' && text::is_digit(time[k + 4]) && text::is_digit(time[k + 5])
    &&& time[k + 6] == ' ' && text::is_digit(time[k + 7]) && text::is_digit(time[k + 8])
    &&& time[k + 9] == ':' && text::is_digit(time[k + 10]) && text::is_digit(time[k + 11])
}

proof fn lemma_two_digits(n: int)
    requires
        0 <= n < 100,
    ensures
        two_digits(n).len() == 2,
        text::is_digit(two_digits(n)[0]),
        text::is_digit(two_digits(n)[1]),
{
    number::law_decimal_reads_back(n as nat);
    reveal_with_fuel(number::digits, 3);
}

/// Every time is shown in columns of the same width behind its year.
pub proof fn law_times_are_dated(timestamp: int, time: Seq<char>)
    requires
        reads(timestamp, time),
    ensures
        dated(time),
{
    let (local, year, month, day) = choose|local: int, year: int, month: int, day: int|
        timestamp - 86400 < local < timestamp + 86400 && #[trigger] shows(
            local,
            year,
            month,
            day,
            time,
        );
    let minute = local % 86400 / 60;
    lemma_two_digits(month);
    lemma_two_digits(day);
    lemma_two_digits(minute / 60);
    lemma_two_digits(minute % 60);
    reveal_strlit("-");
    reveal_strlit(" ");
    reveal_strlit(":");
    reveal_strlit("+");
    let front = year_text(year);
    assert(front.len() >= 4) by {
        if year > 9999 {
            reveal_with_fuel(number::digits, 5);
        }
    }
    assert(time.len() == front.len() + 12);
}

// ---------------------------------------------------------------------------------------------
// Sessions
// ---------------------------------------------------------------------------------------------

/// A number in a column.
pub open spec fn column(n: int, width: nat) -> Seq<char> {
    number::padded_left(number::signed(n), ' ', width)
}

/// A number in a column.
pub fn column_text(n: i64, width: usize) -> (r: String)
    ensures
        r@ == column(n as int, width as nat),
{
    let digits = signed_number(n);
    pad_left(digits.as_str(), ' ', width)
}

/// One session in a row of its own.
pub open spec fn session_row(item: SessionSummary, time: Seq<char>, active: Option<Seq<char>>) -> Seq<
    char,
> {
    (if active == Some(item.id@) {
        "*"@
    } else {
        " "@
    }) + " "@ + snippet::short(item.id@) + "  "@ + time + "  "@ + number::padded_right(
        item.title@,
        40,
    ) + " "@ + column(item.message_count as int, 3) + " messages  "@ + column(
        item.total_tokens as int,
        8,
    ) + " tokens\n"@
}

/// Each session in a row of its own, with the times given.
pub open spec fn session_rows_of(
    items: Seq<SessionSummary>,
    times: Seq<Seq<char>>,
    active: Option<Seq<char>>,
) -> Seq<char>
    decreases items.len(),
{
    if items.len() == 0 {
        seq![]
    } else {
        session_rows_of(items.drop_last(), times, active) + session_row(
            items.last(),
            times[items.len() - 1],
            active,
        )
    }
}

fn opt_same(active: Option<&str>, id: &str) -> (r: bool)
    ensures
        r == (active matches Some(a) && a@ == id@),
{
    match active {
        Some(a) => same(a, id),
        None => false,
    }
}

/// Each session in a row of its own, with the times given; the active one is marked.
pub fn session_rows(items: &[SessionSummary], times: &[String], active: Option<&str>) -> (r: String)
    requires
        times@.len() >= items@.len(),
    ensures
        r@ == session_rows_of(
            items@,
            text::views(times@),
            text::str_view(active),
        ),
{
    let mut out = String::new();
    let mut i: usize = 0;
    let ghost marked = text::str_view(active);
    assert(out@ =~= seq![]);
    while i < items.len()
        invariant
            i <= items.len(),
            times@.len() >= items@.len(),
            marked == (text::str_view(active)),
            out@ == session_rows_of(items@.take(i as int), text::views(times@), marked),
        decreases items.len() - i,
    {
        assert(items@.take(i + 1).drop_last() =~= items@.take(i as int));
        assert(items@.take(i + 1).last() == items@[i as int]);
        let item = &items[i];
        let mark = if opt_same(active, item.id.as_str()) {
            "*"
        } else {
            " "
        };
        let short = short_id(item.id.as_str());
        let title = pad_right(item.title.as_str(), 40);
        let messages = column_text(item.message_count, 3);
        let tokens = column_text(item.total_tokens, 8);
        let mut row = cat3(mark, " ", short.as_str());
        row.append("  ");
        row.append(times[i].as_str());
        row.append("  ");
        row.append(title.as_str());
        row.append(" ");
        row.append(messages.as_str());
        row.append(" messages  ");
        row.append(tokens.as_str());
        row.append(" tokens\n");
        assert(row@ == session_row(*item, times@[i as int]@, marked));
        out.append(row.as_str());
        i += 1;
    }
    assert(items@.take(i as int) =~= items@);
    out
}

/// Each session in a row of its own, newest times as the machine shows them.
pub fn format_session_rows(sessions: &[SessionSummary], active: Option<&str>) -> (r: String)
    ensures
        exists|times: Seq<Seq<char>>|
            {
                &&& times.len() == sessions@.len()
                &&& forall|i: int|
                    0 <= i < times.len() ==> shown_as(sessions@[i].updated_at, #[trigger] times[i])
                &&& r@ == #[trigger] session_rows_of(sessions@, times, text::str_view(active))
            },
{
    let mut times: Vec<String> = Vec::new();
    let mut i: usize = 0;
    while i < sessions.len()
        invariant
            i <= sessions.len(),
            times@.len() == i,
            forall|j: int|
                0 <= j < i ==> shown_as(sessions@[j].updated_at, (#[trigger] times@[j])@),
        decreases sessions.len() - i,
    {
        times.push(format_timestamp(sessions[i].updated_at));
        i += 1;
    }
    session_rows(sessions, &times, active)
}

// ---------------------------------------------------------------------------------------------
// Search
// ---------------------------------------------------------------------------------------------

/// Who said a stored message.
pub open spec fn speaker(role: Seq<char>) -> Seq<char> {
    if role == "user"@ {
        "You"@
    } else if role == "assistant"@ {
        "Assistant"@
    } else if role == "system"@ {
        "System"@
    } else {
        "?"@
    }
}

/// Who said a stored message.
pub fn speaker_of(role: &str) -> (r: &'static str)
    ensures
        r@ == speaker(role@),
{
    if same(role, "user") {
        "You"
    } else if same(role, "assistant") {
        "Assistant"
    } else if same(role, "system") {
        "System"
    } else {
        "?"
    }
}

/// One hit in a row of its own.
pub open spec fn hit_row(hit: SearchHit, time: Seq<char>, needle: Seq<char>) -> Seq<char> {
    snippet::short(hit.session_id@) + "  "@ + time + "  "@ + number::padded_right(
        tui::truncated(hit.title@, 30),
        30,
    ) + "  "@ + speaker(hit.role@) + ": "@ + snippet::snippet(hit.content@, needle) + "\n"@
}

/// Each hit in a row of its own, with the times given.
pub open spec fn hit_rows_of(hits: Seq<SearchHit>, times: Seq<Seq<char>>, needle: Seq<char>) -> Seq<char>
    decreases hits.len(),
{
    if hits.len() == 0 {
        seq![]
    } else {
        hit_rows_of(hits.drop_last(), times, needle) + hit_row(
            hits.last(),
            times[hits.len() - 1],
            needle,
        )
    }
}

/// Each hit in a row of its own, with the times given.
pub fn hit_rows(hits: &[SearchHit], times: &[String], needle: &str) -> (r: String)
    requires
        times@.len() >= hits@.len(),
    ensures
        r@ == hit_rows_of(hits@, text::views(times@), needle@),
{
    let mut out = String::new();
    let mut i: usize = 0;
    assert(out@ =~= seq![]);
    while i < hits.len()
        invariant
            i <= hits.len(),
            times@.len() >= hits@.len(),
            out@ == hit_rows_of(hits@.take(i as int), text::views(times@), needle@),
        decreases hits.len() - i,
    {
        assert(hits@.take(i + 1).drop_last() =~= hits@.take(i as int));
        assert(hits@.take(i + 1).last() == hits@[i as int]);
        let hit = &hits[i];
        let short = short_id(hit.session_id.as_str());
        let cut = truncate_chars(hit.title.as_str(), 30);
        let title = pad_right(cut.as_str(), 30);
        let excerpt = make_snippet(hit.content.as_str(), needle);
        let mut row = cat3(short.as_str(), "  ", times[i].as_str());
        row.append("  ");
        row.append(title.as_str());
        row.append("  ");
        row.append(speaker_of(hit.role.as_str()));
        row.append(": ");
        row.append(excerpt.as_str());
        row.append("\n");
        assert(row@ == hit_row(*hit, times@[i as int]@, needle@));
        out.append(row.as_str());
        i += 1;
    }
    assert(hits@.take(i as int) =~= hits@);
    out
}

/// Each hit in a row of its own, times as the machine shows them.
pub fn format_search_hits(hits: &[SearchHit], needle: &str) -> (r: String)
    ensures
        exists|times: Seq<Seq<char>>|
            {
                &&& times.len() == hits@.len()
                &&& forall|i: int|
                    0 <= i < times.len() ==> shown_as(hits@[i].created_at, #[trigger] times[i])
                &&& r@ == #[trigger] hit_rows_of(hits@, times, needle@)
            },
{
    let mut times: Vec<String> = Vec::new();
    let mut i: usize = 0;
    while i < hits.len()
        invariant
            i <= hits.len(),
            times@.len() == i,
            forall|j: int| 0 <= j < i ==> shown_as(hits@[j].created_at, (#[trigger] times@[j])@),
        decreases hits.len() - i,
    {
        times.push(format_timestamp(hits[i].created_at));
        i += 1;
    }
    hit_rows(hits, &times, needle)
}

// ---------------------------------------------------------------------------------------------
// Remembered facts
// ---------------------------------------------------------------------------------------------

/// Remembered facts, each in a row of its own.
pub open spec fn fact_rows(entries: Seq<MemoryEntry>) -> Seq<char>
    decreases entries.len(),
{
    if entries.len() == 0 {
        "Remembered facts:\n"@
    } else {
        fact_rows(entries.drop_last()) + "- "@ + entries.last().content@ + "\n"@
    }
}

/// Remembered facts, each in a row of its own, and how to remove one.
pub fn format_memory_rows(entries: &[MemoryEntry]) -> (r: String)
    ensures
        r@ == fact_rows(entries@) + "\nUse /forget <text> or /forget all.\n"@,
{
    let mut out = "Remembered facts:\n".to_owned();
    let mut i: usize = 0;
    while i < entries.len()
        invariant
            i <= entries.len(),
            out@ == fact_rows(entries@.take(i as int)),
        decreases entries.len() - i,
    {
        assert(entries@.take(i + 1).drop_last() =~= entries@.take(i as int));
        assert(entries@.take(i + 1).last() == entries@[i as int]);
        out.append("- ");
        out.append(entries[i].content.as_str());
        out.append("\n");
        i += 1;
    }
    assert(entries@.take(i as int) =~= entries@);
    out.append("\nUse /forget <text> or /forget all.\n");
    out
}

// ---------------------------------------------------------------------------------------------
// Costs
// ---------------------------------------------------------------------------------------------

/// A note under a report in which something has no price.
pub const UNPRICED_NOTE: &'static str = "Some usage came from a model with no price in [pricing.models]; it is excluded, not free.";

/// What some usage cost, as it is shown, and whether a part of it has no price.
#[derive(Debug)]
pub struct Cost {
    pub text: String,
    pub has_unpriced: bool,
}

/// What some usage cost, where prices are configured at all.
pub fn cost_cell(prices: &Prices, tallied: Cost) -> (r: Option<Cost>)
    ensures
        match r {
            Some(cost) => !(prices.models.entries@.len() == 0) && cost == tallied,
            None => prices.models.entries@.len() == 0,
        },
{
    if prices.is_empty() {
        None
    } else {
        Some(tallied)
    }
}

/// A part of the usage has no price.
pub open spec fn lacks_price(cost: Option<Cost>) -> bool {
    cost matches Some(cell) && cell.has_unpriced
}

fn is_unpriced(cost: &Option<Cost>) -> (r: bool)
    ensures
        r == lacks_price(*cost),
{
    match cost {
        Some(cell) => cell.has_unpriced,
        None => false,
    }
}

/// The cell for a cost at the end of a row.
pub open spec fn cost_text(cost: Option<Seq<char>>) -> Seq<char> {
    match cost {
        Some(cell) => "  "@ + number::padded_left(cell, ' ', 12),
        None => seq![],
    }
}

fn add_cost(line: String, cost: Option<&str>) -> (r: String)
    ensures
        r@ == line@ + cost_text(
            text::str_view(cost),
        ),
{
    match cost {
        Some(cell) => {
            let padded = pad_left(cell, ' ', 12);
            let tail = cat("  ", padded.as_str());
            cat(line.as_str(), tail.as_str())
        },
        None => {
            assert(line@ + seq![] =~= line@);
            line
        },
    }
}

/// What one model was used for, in a row.
pub open spec fn model_row_of(stat: ModelStat, cost: Option<Seq<char>>) -> Seq<char> {
    let line = "  "@ + number::padded_right(stat.model@, 24) + " "@ + column(
        stat.request_count as int,
        3,
    ) + " req  "@ + column(stat.input_tokens as int, 8) + " in  "@ + column(
        stat.output_tokens as int,
        8,
    ) + " out  "@ + column(stat.total_tokens as int, 8) + " total"@;
    let cached = if stat.cached_tokens > 0 {
        line + "  "@ + column(stat.cached_tokens as int, 8) + " cached"@
    } else {
        line
    };
    cached + cost_text(cost)
}

/// What one model was used for, in a row. The cost is there only where prices are configured.
pub fn model_row(stat: &ModelStat, cost: Option<&str>) -> (r: String)
    ensures
        r@ == model_row_of(
            *stat,
            text::str_view(cost),
        ),
{
    let model = pad_right(stat.model.as_str(), 24);
    let requests = column_text(stat.request_count, 3);
    let input = column_text(stat.input_tokens, 8);
    let output = column_text(stat.output_tokens, 8);
    let total = column_text(stat.total_tokens, 8);
    let mut line = cat3("  ", model.as_str(), " ");
    line.append(requests.as_str());
    line.append(" req  ");
    line.append(input.as_str());
    line.append(" in  ");
    line.append(output.as_str());
    line.append(" out  ");
    line.append(total.as_str());
    line.append(" total");
    if stat.cached_tokens > 0 {
        let cached = column_text(stat.cached_tokens, 8);
        line.append("  ");
        line.append(cached.as_str());
        line.append(" cached");
    }
    add_cost(line, cost)
}

/// What was used in a period, in a row.
pub open spec fn usage_row_of(period: UsagePeriod, cost: Option<Seq<char>>, percent: Seq<char>) -> Seq<
    char,
> {
    let line = "  "@ + number::padded_right(period.period@, 10) + " "@ + column(
        period.request_count as int,
        4,
    ) + " req  "@ + column(period.input_tokens as int, 10) + " in  "@ + column(
        period.output_tokens as int,
        10,
    ) + " out  "@ + column(period.total_tokens as int, 10) + " total"@;
    let cached = if period.cached_tokens > 0 {
        line + "  "@ + column(period.cached_tokens as int, 8) + " cached ("@ + percent + "%)"@
    } else {
        line
    };
    cached + cost_text(cost)
}

/// What was used in a period, in a row. The share of cached tokens is shown only where there are
/// any, and the cost only where prices are configured.
pub fn usage_row(period: &UsagePeriod, cost: Option<&str>, percent: &str) -> (r: String)
    ensures
        r@ == usage_row_of(
            *period,
            text::str_view(cost),
            percent@,
        ),
{
    let name = pad_right(period.period.as_str(), 10);
    let requests = column_text(period.request_count, 4);
    let input = column_text(period.input_tokens, 10);
    let output = column_text(period.output_tokens, 10);
    let total = column_text(period.total_tokens, 10);
    let mut line = cat3("  ", name.as_str(), " ");
    line.append(requests.as_str());
    line.append(" req  ");
    line.append(input.as_str());
    line.append(" in  ");
    line.append(output.as_str());
    line.append(" out  ");
    line.append(total.as_str());
    line.append(" total");
    if period.cached_tokens > 0 {
        let cached = column_text(period.cached_tokens, 8);
        line.append("  ");
        line.append(cached.as_str());
        line.append(" cached (");
        line.append(percent);
        line.append("%)");
    }
    add_cost(line, cost)
}

// ---------------------------------------------------------------------------------------------
// The usage of everything
// ---------------------------------------------------------------------------------------------

/// How many days the report goes back.
pub const USAGE_REPORT_DAYS: usize = 14;

/// How many months the report goes back.
pub const USAGE_REPORT_MONTHS: usize = 6;

/// A period with what it cost and its share of cached tokens, as they are shown.
#[derive(Debug)]
pub struct PeriodFigures {
    pub period: UsagePeriod,
    pub cost: Option<Cost>,
    pub percent: String,
}

/// The text of a cost.
pub open spec fn cost_words(cost: Option<Cost>) -> Option<Seq<char>> {
    match cost {
        Some(cell) => Some(cell.text@),
        None => None,
    }
}

/// A period in a row.
pub open spec fn period_row(figures: PeriodFigures) -> Seq<char> {
    usage_row_of(figures.period, cost_words(figures.cost), figures.percent@) + "\n"@
}

/// Periods, each in a row.
pub open spec fn period_rows(all: Seq<PeriodFigures>) -> Seq<char>
    decreases all.len(),
{
    if all.len() == 0 {
        seq![]
    } else {
        period_rows(all.drop_last()) + period_row(all.last())
    }
}

/// Some period has a part without a price.
pub open spec fn any_unpriced(all: Seq<PeriodFigures>) -> bool {
    exists|i: int| 0 <= i < all.len() && lacks_price((#[trigger] all[i]).cost)
}

fn write_period(figures: &PeriodFigures) -> (r: String)
    ensures
        r@ == period_row(*figures),
{
    let cost = match &figures.cost {
        Some(cell) => Some(cell.text.as_str()),
        None => None,
    };
    let row = usage_row(&figures.period, cost, figures.percent.as_str());
    cat(row.as_str(), "\n")
}

fn write_periods(all: &[PeriodFigures]) -> (r: (String, bool))
    ensures
        r.0@ == period_rows(all@),
        r.1 == any_unpriced(all@),
{
    let mut out = String::new();
    let mut unpriced = false;
    let mut i: usize = 0;
    assert(out@ =~= seq![]);
    while i < all.len()
        invariant
            i <= all.len(),
            out@ == period_rows(all@.take(i as int)),
            unpriced == any_unpriced(all@.take(i as int)),
        decreases all.len() - i,
    {
        assert(all@.take(i + 1).drop_last() =~= all@.take(i as int));
        assert(all@.take(i + 1).last() == all@[i as int]);
        let row = write_period(&all[i]);
        out.append(row.as_str());
        let before = unpriced;
        if is_unpriced(&all[i].cost) {
            unpriced = true;
        }
        proof {
            let longer = all@.take(i + 1);
            let shorter = all@.take(i as int);
            if before {
                let j = choose|j: int| 0 <= j < shorter.len() && lacks_price((#[trigger] shorter[j]).cost);
                assert(lacks_price(longer[j].cost));
            }
            if lacks_price(all@[i as int].cost) {
                assert(lacks_price(longer[i as int].cost));
            }
            if any_unpriced(longer) {
                let j = choose|j: int| 0 <= j < longer.len() && lacks_price((#[trigger] longer[j]).cost);
                if j < i {
                    assert(lacks_price(shorter[j].cost));
                }
            }
        }
        i += 1;
    }
    assert(all@.take(i as int) =~= all@);
    (out, unpriced)
}

/// The usage of everything, by day and by month.
pub open spec fn usage_report(days: Seq<PeriodFigures>, months: Seq<PeriodFigures>, total: PeriodFigures) -> Seq<
    char,
> {
    if days.len() == 0 {
        "No usage recorded yet.\n\n"@
    } else {
        let by_month = if months.len() > 1 {
            "\nBy month\n"@ + period_rows(months)
        } else {
            seq![]
        };
        let unpriced = any_unpriced(days) || (months.len() > 1 && any_unpriced(months))
            || lacks_price(total.cost);
        let note = if unpriced {
            UNPRICED_NOTE@ + "\n"@
        } else {
            seq![]
        };
        "\nLast "@ + number::decimal(USAGE_REPORT_DAYS as nat) + " days\n"@ + period_rows(days)
            + by_month + "\nAll time\n"@ + period_row(total)
            + "\nRequests count chat turns only; tokens include title generation.\n"@ + note
            + "\n"@
    }
}

/// The usage of everything, by day and by month, appended to `out`. Without any day there is
/// nothing to report, a single month says nothing that the days do not, and a note stands under a
/// report in which something has no price.
pub fn print_usage_report(
    days: &[PeriodFigures],
    months: &[PeriodFigures],
    total: &PeriodFigures,
    out: &mut String,
)
    ensures
        final(out)@ == old(out)@ + usage_report(days@, months@, *total),
{
    if days.len() == 0 {
        out.append("No usage recorded yet.\n\n");
        return;
    }
    let span = count(USAGE_REPORT_DAYS);
    let (rows, days_unpriced) = write_periods(days);
    let mut unpriced = days_unpriced;
    let mut doc = cat3("\nLast ", span.as_str(), " days\n");
    doc.append(rows.as_str());
    if months.len() > 1 {
        let (rows, months_unpriced) = write_periods(months);
        if months_unpriced {
            unpriced = true;
        }
        let part = cat("\nBy month\n", rows.as_str());
        doc.append(part.as_str());
    } else {
        assert(doc@ + seq![] =~= doc@);
    }
    doc.append("\nAll time\n");
    let last = write_period(total);
    doc.append(last.as_str());
    if is_unpriced(&total.cost) {
        unpriced = true;
    }
    doc.append("\nRequests count chat turns only; tokens include title generation.\n");
    if unpriced {
        let note = cat(UNPRICED_NOTE, "\n");
        doc.append(note.as_str());
    } else {
        assert(doc@ + seq![] =~= doc@);
    }
    doc.append("\n");
    out.append(doc.as_str());
}

// ---------------------------------------------------------------------------------------------
// The usage of a session
// ---------------------------------------------------------------------------------------------

/// How the prompt cache did over a session, as it is shown.
#[derive(Debug)]
pub struct CacheFigures {
    pub median: String,
    /// The turns that were measured.
    pub measured: usize,
    /// The share of turns of which at least nine tenths were cached.
    pub most: String,
    /// The share of turns of which at least nineteen twentieths were cached.
    pub nearly_all: String,
    pub warmup: usize,
}

/// A model with what it cost.
#[derive(Debug)]
pub struct ModelFigures {
    pub stat: ModelStat,
    pub cost: Option<Cost>,
}

/// The figures of a session, as they are shown.
#[derive(Debug)]
pub struct SessionFigures {
    pub cost: Option<Cost>,
    /// The share of cached tokens.
    pub cached: String,
    /// The prompt and cached tokens of each turn.
    pub samples: Vec<(u64, u64)>,
    pub cache: Option<CacheFigures>,
    /// The share of the context window that the last prompt takes.
    pub context: String,
    /// The share of the last prompt that was cached.
    pub last_cached: String,
    pub models: Vec<ModelFigures>,
}

/// How the prompt cache did, in a line.
pub open spec fn cache_line(cache: CacheFigures) -> Seq<char> {
    "Prompt cache:  median "@ + cache.median@ + "% over "@ + number::decimal(cache.measured as nat)
        + " turns | \u{2265}90%: "@ + cache.most@ + "% | \u{2265}95%: "@ + cache.nearly_all@
        + "% | warm-up: "@ + number::decimal(cache.warmup as nat) + "\n"@
}

/// Some turn had cached tokens.
pub open spec fn any_cached(samples: Seq<(u64, u64)>) -> bool {
    exists|i: int| 0 <= i < samples.len() && (#[trigger] samples[i]).1 > 0
}

/// Models, each in a row.
pub open spec fn model_rows(all: Seq<ModelFigures>) -> Seq<char>
    decreases all.len(),
{
    if all.len() == 0 {
        seq![]
    } else {
        model_rows(all.drop_last()) + model_row_of(all.last().stat, cost_words(all.last().cost))
            + "\n"@
    }
}

/// Some model has no price.
pub open spec fn any_model_unpriced(all: Seq<ModelFigures>) -> bool {
    exists|i: int| 0 <= i < all.len() && lacks_price((#[trigger] all[i]).cost)
}

/// The last prompt within the context window, where both are known.
pub open spec fn context_line(stats: SessionStats, figures: SessionFigures, window: Option<u64>) -> Seq<char> {
    match (stats.last_input_tokens, window) {
        (Some(last), Some(window)) => {
            let cached = match stats.last_cached_tokens {
                Some(cached) => if cached > 0 {
                    " | Cached: "@ + number::signed(cached as int) + " ("@ + figures.last_cached@
                        + "%)"@
                } else {
                    seq![]
                },
                None => seq![],
            };
            "Last context:  "@ + number::signed(last as int) + "/"@ + number::decimal(
                window as nat,
            ) + " ("@ + figures.context@ + "%)"@ + cached + "\n"@
        },
        _ => seq![],
    }
}

/// The usage of a session.
pub open spec fn stats_report(
    title: Seq<char>,
    stats: SessionStats,
    figures: SessionFigures,
    window: Option<u64>,
) -> Seq<char> {
    let cost = match figures.cost {
        Some(cell) => "Cost:          "@ + cell.text@ + "\n"@,
        None => seq![],
    };
    let cached = if stats.cached_tokens > 0 {
        "Cached tokens: "@ + number::signed(stats.cached_tokens as int) + " ("@ + figures.cached@
            + "%)\n"@
    } else {
        seq![]
    };
    let cache = match figures.cache {
        Some(cache) => if any_cached(figures.samples@) {
            cache_line(cache)
        } else {
            seq![]
        },
        None => seq![],
    };
    let models = if figures.models@.len() > 1 {
        "\n--- Per model ---\n"@ + model_rows(figures.models@)
    } else {
        seq![]
    };
    let unpriced = lacks_price(figures.cost) || (figures.models@.len() > 1 && any_model_unpriced(
        figures.models@,
    ));
    let note = if unpriced {
        "\n"@ + UNPRICED_NOTE@ + "\n"@
    } else {
        seq![]
    };
    "\nSession:       "@ + title + "\nRequests:      "@ + number::signed(stats.request_count as int)
        + "\nInput tokens:  "@ + number::signed(stats.input_tokens as int) + "\nOutput tokens: "@
        + number::signed(stats.output_tokens as int) + "\nTotal tokens:  "@ + number::signed(
        stats.total_tokens as int,
    ) + "\n"@ + cost + cached + cache + context_line(stats, figures, window) + models + note
        + "\n"@
}

fn write_cache(cache: &CacheFigures) -> (r: String)
    ensures
        r@ == cache_line(*cache),
{
    let measured = count(cache.measured);
    let warmup = count(cache.warmup);
    let mut out = cat3("Prompt cache:  median ", cache.median.as_str(), "% over ");
    out.append(measured.as_str());
    out.append(" turns | \u{2265}90%: ");
    out.append(cache.most.as_str());
    out.append("% | \u{2265}95%: ");
    out.append(cache.nearly_all.as_str());
    out.append("% | warm-up: ");
    out.append(warmup.as_str());
    out.append("\n");
    out
}

fn has_cached(samples: &[(u64, u64)]) -> (r: bool)
    ensures
        r == any_cached(samples@),
{
    let mut i: usize = 0;
    while i < samples.len()
        invariant
            i <= samples.len(),
            forall|j: int| 0 <= j < i ==> (#[trigger] samples@[j]).1 == 0,
        decreases samples.len() - i,
    {
        if samples[i].1 > 0 {
            assert(samples@[i as int].1 > 0);
            return true;
        }
        i += 1;
    }
    false
}

fn write_models(all: &[ModelFigures]) -> (r: (String, bool))
    ensures
        r.0@ == model_rows(all@),
        r.1 == any_model_unpriced(all@),
{
    let mut out = String::new();
    let mut unpriced = false;
    let mut i: usize = 0;
    assert(out@ =~= seq![]);
    while i < all.len()
        invariant
            i <= all.len(),
            out@ == model_rows(all@.take(i as int)),
            unpriced ==> any_model_unpriced(all@),
            !unpriced ==> forall|j: int| 0 <= j < i ==> !lacks_price((#[trigger] all@[j]).cost),
        decreases all.len() - i,
    {
        assert(all@.take(i + 1).drop_last() =~= all@.take(i as int));
        assert(all@.take(i + 1).last() == all@[i as int]);
        let cost = match &all[i].cost {
            Some(cell) => Some(cell.text.as_str()),
            None => None,
        };
        let row = model_row(&all[i].stat, cost);
        out.append(row.as_str());
        out.append("\n");
        if is_unpriced(&all[i].cost) {
            assert(lacks_price(all@[i as int].cost));
            unpriced = true;
        }
        i += 1;
    }
    assert(all@.take(i as int) =~= all@);
    (out, unpriced)
}

fn write_context(stats: &SessionStats, figures: &SessionFigures, window: Option<u64>) -> (r: String)
    ensures
        r@ == context_line(*stats, *figures, window),
{
    if let Some(last) = stats.last_input_tokens {
        if let Some(window) = window {
            let last = signed_number(last);
            let most = number_text(window);
            let mut out = cat3("Last context:  ", last.as_str(), "/");
            out.append(most.as_str());
            out.append(" (");
            out.append(figures.context.as_str());
            out.append("%)");
            let mut tail = String::new();
            assert(tail@ =~= seq![]);
            if let Some(cached) = stats.last_cached_tokens {
                if cached > 0 {
                    let cached = signed_number(cached);
                    tail = cat3(" | Cached: ", cached.as_str(), " (");
                    tail.append(figures.last_cached.as_str());
                    tail.append("%)");
                }
            }
            out.append(tail.as_str());
            out.append("\n");
            return out;
        }
    }
    let none = String::new();
    assert(none@ =~= seq![]);
    none
}

/// The usage of a session, appended to `out`. What is not known is left out: the cost without
/// prices, the cache without cached tokens, the context without a window, and the models where
/// there is only one.
pub fn print_stats(
    title: &str,
    stats: &SessionStats,
    figures: &SessionFigures,
    window: Option<u64>,
    out: &mut String,
)
    ensures
        final(out)@ == old(out)@ + stats_report(title@, *stats, *figures, window),
{
    let requests = signed_number(stats.request_count);
    let input = signed_number(stats.input_tokens);
    let output = signed_number(stats.output_tokens);
    let total = signed_number(stats.total_tokens);
    let mut doc = cat3("\nSession:       ", title, "\nRequests:      ");
    doc.append(requests.as_str());
    doc.append("\nInput tokens:  ");
    doc.append(input.as_str());
    doc.append("\nOutput tokens: ");
    doc.append(output.as_str());
    doc.append("\nTotal tokens:  ");
    doc.append(total.as_str());
    doc.append("\n");
    let mut cost = String::new();
    assert(cost@ =~= seq![]);
    if let Some(cell) = &figures.cost {
        cost = cat3("Cost:          ", cell.text.as_str(), "\n");
    }
    doc.append(cost.as_str());
    let mut unpriced = is_unpriced(&figures.cost);
    let mut cached = String::new();
    assert(cached@ =~= seq![]);
    if stats.cached_tokens > 0 {
        let n = signed_number(stats.cached_tokens);
        cached = cat3("Cached tokens: ", n.as_str(), " (");
        cached.append(figures.cached.as_str());
        cached.append("%)\n");
    }
    doc.append(cached.as_str());
    let mut cache = String::new();
    assert(cache@ =~= seq![]);
    if has_cached(&figures.samples) {
        if let Some(measured) = &figures.cache {
            cache = write_cache(measured);
        }
    }
    doc.append(cache.as_str());
    let context = write_context(stats, figures, window);
    doc.append(context.as_str());
    let mut models = String::new();
    assert(models@ =~= seq![]);
    if figures.models.len() > 1 {
        let (rows, models_unpriced) = write_models(&figures.models);
        models = cat("\n--- Per model ---\n", rows.as_str());
        if models_unpriced {
            unpriced = true;
        }
    }
    doc.append(models.as_str());
    let mut note = String::new();
    assert(note@ =~= seq![]);
    if unpriced {
        note = cat3("\n", UNPRICED_NOTE, "\n");
    }
    doc.append(note.as_str());
    doc.append("\n");
    out.append(doc.as_str());
}

/// What is told at the end of a session, below the logo.
pub open spec fn farewell_of(stats: Option<Seq<char>>, id: Option<Seq<char>>) -> Seq<char> {
    let report = match stats {
        Some(text) => text,
        None => seq![],
    };
    let resume = match id {
        Some(id) => "To resume this session: kamui -r "@ + snippet::short(id) + "\n"@,
        None => seq![],
    };
    report + resume + "Goodbye\n"@
}

/// What is told at the end of a session, below the logo: its usage and how to resume it.
pub fn farewell(stats: Option<&str>, id: Option<&str>) -> (r: String)
    ensures
        r@ == farewell_of(text::str_view(stats), text::str_view(id)),
{
    let mut out = String::new();
    assert(out@ =~= seq![]);
    if let Some(report) = stats {
        out = report.to_owned();
    }
    let mut resume = String::new();
    assert(resume@ =~= seq![]);
    if let Some(id) = id {
        let short = short_id(id);
        resume = cat3("To resume this session: kamui -r ", short.as_str(), "\n");
    }
    out.append(resume.as_str());
    out.append("Goodbye\n");
    out
}

// ---------------------------------------------------------------------------------------------
// Help
// ---------------------------------------------------------------------------------------------

/// How a shell command is run.
pub const SHELL_HELP: &'static str = "!<command>        Run a shell command directly (no model involvement)\n";

/// The commands by name, with what is told of each behind it.
pub open spec fn help_entries() -> Seq<(Seq<char>, Seq<char>)> {
    seq![
        ("mode"@, "[name]      build / auto / plan \u{2014} what a turn may do on its own (Tab cycles)"@),
        ("plan"@, "            Enter Plan Mode (gate mutating tools until plan approved)"@),
        ("skills"@, "          List discovered skills"@),
        ("warnings"@, "        Hide or show warning messages"@),
        ("new"@, "             Start a new session"@),
        ("sessions"@, "        List saved sessions"@),
        ("resume"@, "<id>      Resume a session"@),
        ("model"@, "[name]     List provider profiles, or switch to one"@),
        ("rename"@, "<id> <t>  Rename a session"@),
        ("search"@, "<text>    Search saved messages"@),
        ("compact"@, "         Summarize older messages to free up context"@),
        ("undo"@, "            Revert the files patched by the last turn"@),
        ("jobs"@, "            List session and persistent scheduled jobs"@),
        ("index"@, "           Rebuild the semantic-search index (needs embedding_model)"@),
        ("commands"@, "        List your own prompt commands"@),
        ("delete"@, "<id>      Delete a session"@),
        ("stats"@, "           Show current session usage"@),
        ("usage"@, "           Show token usage by day and month, across all sessions"@),
        ("status"@, "          Show project and connection status"@),
        ("mcp"@, "             List MCP servers and their tool counts"@),
        ("memory"@, "          List facts Kamui remembers across sessions and projects"@),
        ("forget"@, "<text>    Forget one remembered fact, or /forget all"@),
        ("help"@, "            Show available commands"@),
        ("expand"@, "          Expand the last transcript card"@),
        ("collapse"@, "        Collapse the last transcript card"@),
        ("theme"@, "[name]     List the themes, or switch to one"@),
        ("themes"@, "[name]    List the themes, or switch to one"@),
        ("exit"@, "            Save and quit"@),
    ]
}

/// How a shell command is run, and below it some commands, each in a line of its own.
pub open spec fn help_of(entries: Seq<(Seq<char>, Seq<char>)>) -> Seq<char>
    decreases entries.len(),
{
    if entries.len() == 0 {
        SHELL_HELP@
    } else {
        help_of(entries.drop_last()) + ("/"@ + entries.last().0 + " "@ + entries.last().1 + "\n"@)
    }
}

/// What each command does.
pub open spec fn help() -> Seq<char> {
    help_of(help_entries()) + "\n"@
}

fn push_entry(out: &mut Vec<(String, String)>, name: &str, words: &str)
    ensures
        panel::pairs(final(out)@) == panel::pairs(old(out)@).push((name@, words@)),
{
    let ghost before = panel::pairs(out@);
    out.push((name.to_owned(), words.to_owned()));
    assert(panel::pairs(out@) =~= before.push((name@, words@)));
}

fn list_help() -> (r: Vec<(String, String)>)
    ensures
        panel::pairs(r@) == help_entries(),
{
    let mut out: Vec<(String, String)> = Vec::new();
    assert(panel::pairs(out@) =~= seq![]);
    push_entry(&mut out, "mode", "[name]      build / auto / plan \u{2014} what a turn may do on its own (Tab cycles)");
    push_entry(&mut out, "plan", "            Enter Plan Mode (gate mutating tools until plan approved)");
    push_entry(&mut out, "skills", "          List discovered skills");
    push_entry(&mut out, "warnings", "        Hide or show warning messages");
    push_entry(&mut out, "new", "             Start a new session");
    push_entry(&mut out, "sessions", "        List saved sessions");
    push_entry(&mut out, "resume", "<id>      Resume a session");
    push_entry(&mut out, "model", "[name]     List provider profiles, or switch to one");
    push_entry(&mut out, "rename", "<id> <t>  Rename a session");
    push_entry(&mut out, "search", "<text>    Search saved messages");
    push_entry(&mut out, "compact", "         Summarize older messages to free up context");
    push_entry(&mut out, "undo", "            Revert the files patched by the last turn");
    push_entry(&mut out, "jobs", "            List session and persistent scheduled jobs");
    push_entry(&mut out, "index", "           Rebuild the semantic-search index (needs embedding_model)");
    push_entry(&mut out, "commands", "        List your own prompt commands");
    push_entry(&mut out, "delete", "<id>      Delete a session");
    push_entry(&mut out, "stats", "           Show current session usage");
    push_entry(&mut out, "usage", "           Show token usage by day and month, across all sessions");
    push_entry(&mut out, "status", "          Show project and connection status");
    push_entry(&mut out, "mcp", "             List MCP servers and their tool counts");
    push_entry(&mut out, "memory", "          List facts Kamui remembers across sessions and projects");
    push_entry(&mut out, "forget", "<text>    Forget one remembered fact, or /forget all");
    push_entry(&mut out, "help", "            Show available commands");
    push_entry(&mut out, "expand", "          Expand the last transcript card");
    push_entry(&mut out, "collapse", "        Collapse the last transcript card");
    push_entry(&mut out, "theme", "[name]     List the themes, or switch to one");
    push_entry(&mut out, "themes", "[name]    List the themes, or switch to one");
    push_entry(&mut out, "exit", "            Save and quit");
    assert(panel::pairs(out@) =~= help_entries());
    out
}

/// What each command does, appended to `out`.
pub fn print_help(out: &mut String)
    ensures
        final(out)@ == old(out)@ + help(),
{
    let entries = list_help();
    let ghost all = help_entries();
    let mut doc = SHELL_HELP.to_owned();
    let mut i: usize = 0;
    assert(all.take(0) =~= seq![]);
    while i < entries.len()
        invariant
            i <= entries.len(),
            all == help_entries(),
            panel::pairs(entries@) == all,
            doc@ == help_of(all.take(i as int)),
        decreases entries.len() - i,
    {
        assert(all.take(i + 1).drop_last() =~= all.take(i as int));
        assert(panel::pairs(entries@)[i as int] == (entries@[i as int].0@, entries@[i as int].1@));
        let line = cat5("/", entries[i].0.as_str(), " ", entries[i].1.as_str(), "\n");
        doc.append(line.as_str());
        i += 1;
    }
    assert(panel::pairs(entries@).len() == entries@.len());
    assert(all.take(i as int) =~= all);
    doc.append("\n");
    out.append(doc.as_str());
}

/// A line of the text begins at `at`.
pub open spec fn begins_line(text: Seq<char>, at: int) -> bool {
    0 <= at <= text.len() && (at == 0 || text[at - 1] == '\n')
}

/// Some line of the text begins with the given words.
pub open spec fn has_line(text: Seq<char>, words: Seq<char>) -> bool {
    exists|at: int| #[trigger] begins_line(text, at) && scan::has_prefix(text.skip(at), words)
}

proof fn lemma_line_stays(text: Seq<char>, more: Seq<char>, words: Seq<char>)
    requires
        has_line(text, words),
    ensures
        has_line(text + more, words),
{
    let at = choose|at: int| #[trigger]
        begins_line(text, at) && scan::has_prefix(text.skip(at), words);
    assert(begins_line(text + more, at));
    assert(text.skip(at).subrange(0, words.len() as int) =~= (text + more).skip(at).subrange(
        0,
        words.len() as int,
    ));
    assert(scan::has_prefix((text + more).skip(at), words));
}

proof fn lemma_help_line(entries: Seq<(Seq<char>, Seq<char>)>, k: int)
    requires
        0 <= k < entries.len(),
    ensures
        has_line(help_of(entries), "/"@ + entries[k].0 + " "@),
        help_of(entries).len() > 0,
        help_of(entries).last() == '\n',
    decreases entries.len(),
{
    let front = help_of(entries.drop_last());
    let last = entries.last();
    let line = "/"@ + last.0 + " "@ + last.1 + "\n"@;
    let words = "/"@ + entries[k].0 + " "@;
    reveal_strlit("\n");
    assert(help_of(entries) == front + line);
    assert(line.last() == '\n');
    assert((front + line).last() == line.last());
    if k < entries.len() - 1 {
        lemma_help_line(entries.drop_last(), k);
        lemma_line_stays(front, line, words);
    } else {
        if entries.len() > 1 {
            lemma_help_line(entries.drop_last(), 0);
        } else {
            reveal_strlit("!<command>        Run a shell command directly (no model involvement)\n");
            assert(front == SHELL_HELP@);
        }
        let at = front.len() as int;
        assert(begins_line(front + line, at));
        assert((front + line).skip(at) =~= line);
        assert(line.subrange(0, words.len() as int) =~= words);
        assert(scan::has_prefix((front + line).skip(at), words));
    }
}

/// Every built-in command that is offered has a line in the help that begins with its name.
pub proof fn law_help_lists_every_builtin(i: int)
    requires
        0 <= i < tui::builtin_names().len(),
    ensures
        has_line(help(), "/"@ + tui::builtin_names()[i] + " "@),
{
    let names = tui::builtin_names();
    let entries = help_entries();
    let places: Seq<int> = seq![22, 4, 5, 6, 7, 8, 9, 10, 11, 12, 13, 14, 15, 16, 17, 18, 19, 20, 21, 23, 24, 27, 1, 0, 2, 3, 25, 26];
    assert(names.len() == 28 && places.len() == 28);
    assert(entries[places[i]].0 == names[i] && 0 <= places[i] < entries.len());
    lemma_help_line(entries, places[i]);
    lemma_line_stays(help_of(entries), "\n"@, "/"@ + names[i] + " "@);
}

// ---------------------------------------------------------------------------------------------
// What a report tells
// ---------------------------------------------------------------------------------------------

/// Every session has its row, and the row tells of it: its id in short, its time, its title whole,
/// how many messages it has and how many tokens it took. Two lists one behind the other give the rows
/// of the one and then those of the other.
pub proof fn law_every_session_has_a_row(
    items: Seq<SessionSummary>,
    times: Seq<Seq<char>>,
    active: Option<Seq<char>>,
    i: int,
)
    requires
        0 <= i < items.len(),
        times.len() >= items.len(),
    ensures
        ({
            let rows = session_rows_of(items, times, active);
            &&& text::stands_in(rows, snippet::short(items[i].id@))
            &&& text::stands_in(rows, times[i])
            &&& text::stands_in(rows, items[i].title@)
            &&& text::stands_in(rows, number::signed(items[i].message_count as int) + " messages"@)
            &&& text::stands_in(rows, number::signed(items[i].total_tokens as int) + " tokens\n"@)
            &&& session_rows_of(items.take(i), times, active).is_prefix_of(rows)
            &&& active == Some(items[i].id@) ==> text::stands_in(
                rows,
                seq!['*', ' '] + snippet::short(items[i].id@),
            )
        }),
    decreases items.len(),
{
    let rows = session_rows_of(items, times, active);
    let front = items.drop_last();
    let before = session_rows_of(front, times, active);
    let row = session_row(items.last(), times[items.len() - 1], active);
    assert(rows == before + row);
    if i < front.len() {
        law_every_session_has_a_row(front, times, active, i);
        assert(front[i] == items[i]);
        assert(front.take(i) =~= items.take(i));
        lemma_more_before(before, row, snippet::short(items[i].id@));
        lemma_more_before(before, row, times[i]);
        lemma_more_before(before, row, items[i].title@);
        lemma_more_before(before, row, number::signed(items[i].message_count as int) + " messages"@);
        lemma_more_before(before, row, number::signed(items[i].total_tokens as int) + " tokens\n"@);
        lemma_more_before(before, row, seq!['*', ' '] + snippet::short(items[i].id@));
    } else {
        assert(items.take(i) =~= front);
        lemma_session_row(items[i], times[i], active);
        lemma_more_before(before, row, snippet::short(items[i].id@));
        lemma_more_before(before, row, times[i]);
        lemma_more_before(before, row, items[i].title@);
        lemma_more_before(before, row, number::signed(items[i].message_count as int) + " messages"@);
        lemma_more_before(before, row, number::signed(items[i].total_tokens as int) + " tokens\n"@);
        lemma_more_before(before, row, seq!['*', ' '] + snippet::short(items[i].id@));
    }
}

#[verifier::rlimit(50)]
proof fn lemma_more_before(before: Seq<char>, row: Seq<char>, part: Seq<char>)
    ensures
        text::stands_in(before, part) || text::stands_in(row, part) ==> text::stands_in(
            before + row,
            part,
        ),
{
    broadcast use text::group_stands;

}

#[verifier::rlimit(50)]
proof fn lemma_session_row(item: SessionSummary, time: Seq<char>, active: Option<Seq<char>>)
    ensures
        ({
            let row = session_row(item, time, active);
            &&& text::stands_in(row, snippet::short(item.id@))
            &&& text::stands_in(row, time)
            &&& text::stands_in(row, item.title@)
            &&& text::stands_in(row, number::signed(item.message_count as int) + " messages"@)
            &&& text::stands_in(row, number::signed(item.total_tokens as int) + " tokens\n"@)
            &&& active == Some(item.id@) ==> text::stands_in(
                row,
                seq!['*', ' '] + snippet::short(item.id@),
            )
        }),
{
    let row = session_row(item, time, active);
    let id = snippet::short(item.id@);
    let messages = number::signed(item.message_count as int);
    let tokens = number::signed(item.total_tokens as int);
    let mark = if active == Some(item.id@) {
        "*"@
    } else {
        " "@
    };
    let star = mark + " "@ + id;
    let left = star + "  "@ + time + "  "@ + (item.title@ + number::repeated(
        ' ',
        number::missing(item.title@, 40),
    )) + " "@;
    let padding = number::repeated(' ', number::missing(messages, 3));
    let more = number::repeated(' ', number::missing(tokens, 8));
    assert(" messages  "@ =~= " messages"@ + "  "@) by {
        reveal_strlit(" messages  ");
        reveal_strlit(" messages");
        reveal_strlit("  ");
    }
    if active == Some(item.id@) {
        assert(star =~= seq!['*', ' '] + id) by {
            reveal_strlit("*");
            reveal_strlit(" ");
        }
    }
    let middle = left + padding + (messages + " messages"@) + "  "@ + more;
    assert(row =~= middle + (tokens + " tokens\n"@));
    assert(text::stands_in(row, tokens + " tokens\n"@)) by {
        broadcast use text::group_stands;

    }
    assert(text::stands_in(row, messages + " messages"@)) by {
        broadcast use text::group_stands;

    }
    assert(text::stands_in(row, item.title@)) by {
        broadcast use text::group_stands;

    }
    assert(text::stands_in(row, time)) by {
        broadcast use text::group_stands;

    }
    assert(text::stands_in(row, star)) by {
        broadcast use text::group_stands;

    }
    assert(text::stands_in(star, id)) by {
        broadcast use text::group_stands;

    }
    text::lemma_stands_inside(row, star, id);
}

/// Every hit has its row, and the row tells of it: the session's id in short, the time, who said it,
/// and the piece of what was said that the search is for.
pub proof fn law_every_hit_has_a_row(
    hits: Seq<SearchHit>,
    times: Seq<Seq<char>>,
    needle: Seq<char>,
    i: int,
)
    requires
        0 <= i < hits.len(),
        times.len() >= hits.len(),
    ensures
        ({
            let rows = hit_rows_of(hits, times, needle);
            &&& text::stands_in(rows, snippet::short(hits[i].session_id@))
            &&& text::stands_in(rows, times[i])
            &&& text::stands_in(rows, tui::truncated(hits[i].title@, 30))
            &&& text::stands_in(
                rows,
                speaker(hits[i].role@) + ": "@ + snippet::snippet(hits[i].content@, needle) + "\n"@,
            )
            &&& hit_rows_of(hits.take(i), times, needle).is_prefix_of(rows)
        }),
    decreases hits.len(),
{
    let front = hits.drop_last();
    let before = hit_rows_of(front, times, needle);
    let row = hit_row(hits.last(), times[hits.len() - 1], needle);
    let hit = hits[i];
    let said = speaker(hit.role@) + ": "@ + snippet::snippet(hit.content@, needle) + "\n"@;
    if i < front.len() {
        law_every_hit_has_a_row(front, times, needle, i);
        assert(front[i] == hits[i]);
        assert(front.take(i) =~= hits.take(i));
    } else {
        assert(hits.take(i) =~= front);
        lemma_hit_row(hit, times[i], needle);
    }
    lemma_more_before(before, row, snippet::short(hit.session_id@));
    lemma_more_before(before, row, times[i]);
    lemma_more_before(before, row, tui::truncated(hit.title@, 30));
    lemma_more_before(before, row, said);
}

#[verifier::rlimit(50)]
proof fn lemma_hit_row(hit: SearchHit, time: Seq<char>, needle: Seq<char>)
    ensures
        ({
            let row = hit_row(hit, time, needle);
            &&& text::stands_in(row, snippet::short(hit.session_id@))
            &&& text::stands_in(row, time)
            &&& text::stands_in(row, tui::truncated(hit.title@, 30))
            &&& text::stands_in(
                row,
                speaker(hit.role@) + ": "@ + snippet::snippet(hit.content@, needle) + "\n"@,
            )
        }),
{
    let row = hit_row(hit, time, needle);
    let said = speaker(hit.role@) + ": "@ + snippet::snippet(hit.content@, needle) + "\n"@;
    let title = tui::truncated(hit.title@, 30);
    let left = snippet::short(hit.session_id@) + "  "@ + time + "  "@ + number::padded_right(
        title,
        30,
    ) + "  "@;
    assert(row =~= left + said);
    assert(text::stands_in(row, said)) by {
        text::lemma_stands_itself(said);
        text::lemma_stands_added(left, said, said);
    }
    assert(text::stands_in(left, title)) by {
        broadcast use text::group_stands;

    }
    assert(text::stands_in(left, time)) by {
        broadcast use text::group_stands;

    }
    assert(text::stands_in(left, snippet::short(hit.session_id@))) by {
        broadcast use text::group_stands;

    }
    text::lemma_stands_added(left, said, title);
    text::lemma_stands_added(left, said, time);
    text::lemma_stands_added(left, said, snippet::short(hit.session_id@));
}

/// Every remembered fact is listed, whole and on a line of its own, in order.
#[verifier::rlimit(50)]
pub proof fn law_every_fact_is_listed(entries: Seq<MemoryEntry>, i: int)
    requires
        0 <= i < entries.len(),
    ensures
        text::stands_in(fact_rows(entries), "- "@ + entries[i].content@ + "\n"@),
        fact_rows(entries.take(i)).is_prefix_of(fact_rows(entries)),
    decreases entries.len(),
{
    broadcast use text::group_stands;

    let front = entries.drop_last();
    if i < front.len() {
        law_every_fact_is_listed(front, i);
        assert(front[i] == entries[i]);
        assert(front.take(i) =~= entries.take(i));
        assert(fact_rows(entries) =~= fact_rows(front) + ("- "@ + entries.last().content@ + "\n"@));
    } else {
        assert(entries.take(i) =~= front);
        assert(fact_rows(entries) =~= fact_rows(front) + ("- "@ + entries.last().content@ + "\n"@));
    }
}

/// The row of a period names it and tells every count, with the cached tokens where there are any and
/// the cost where there is one.
#[verifier::rlimit(50)]
pub proof fn law_usage_rows_tell_every_count(
    period: UsagePeriod,
    cost: Option<Seq<char>>,
    percent: Seq<char>,
)
    ensures
        ({
            let row = usage_row_of(period, cost, percent);
            &&& text::stands_in(row, period.period@)
            &&& text::stands_in(row, number::signed(period.request_count as int) + " req"@)
            &&& text::stands_in(row, number::signed(period.input_tokens as int) + " in"@)
            &&& text::stands_in(row, number::signed(period.output_tokens as int) + " out"@)
            &&& text::stands_in(row, number::signed(period.total_tokens as int) + " total"@)
            &&& period.cached_tokens > 0 ==> text::stands_in(
                row,
                number::signed(period.cached_tokens as int) + " cached ("@ + percent + "%)"@,
            )
            &&& cost matches Some(cell) ==> cell.is_suffix_of(row)
        }),
{
    let requests = number::signed(period.request_count as int);
    let input = number::signed(period.input_tokens as int);
    let output = number::signed(period.output_tokens as int);
    let total = number::signed(period.total_tokens as int);
    let cached = number::signed(period.cached_tokens as int);
    let tail = if period.cached_tokens > 0 {
        "  "@ + number::repeated(' ', number::missing(cached, 8)) + (cached + " cached ("@ + percent
            + "%)"@)
    } else {
        seq![]
    };
    let row = usage_row_of(period, cost, percent);
    let line = usage_row_of(UsagePeriod { cached_tokens: 0, ..period }, None, percent);
    assert(line =~= "  "@ + number::padded_right(period.period@, 10) + " "@ + number::padded_left(
        requests,
        ' ',
        4,
    ) + " req  "@ + number::padded_left(input, ' ', 10) + " in  "@ + number::padded_left(
        output,
        ' ',
        10,
    ) + " out  "@ + number::padded_left(total, ' ', 10) + " total"@);
    assert(row =~= line + (tail + cost_text(cost)));
    lemma_figures(
        row,
        "  "@ + number::padded_right(period.period@, 10) + " "@,
        4,
        requests,
        10,
        input,
        output,
        total,
        tail + cost_text(cost),
    );
    broadcast use text::group_stands;

    assert(text::stands_in(number::padded_right(period.period@, 10), period.period@));
    if period.cached_tokens > 0 {
        let shown = cached + " cached ("@ + percent + "%)"@;
        assert(text::stands_in(tail, shown));
        assert(text::stands_in(tail + cost_text(cost), shown));
    }
    if let Some(cell) = cost {
        assert(cell =~= row.skip(row.len() - cell.len()));
    }
}

/// A row of figures, put together of its parts: what is before the figures, the four of them each
/// with its word, and what comes behind.
#[verifier::rlimit(50)]
proof fn lemma_figures(
    row: Seq<char>,
    left: Seq<char>,
    width: nat,
    requests: Seq<char>,
    wide: nat,
    input: Seq<char>,
    output: Seq<char>,
    total: Seq<char>,
    rest: Seq<char>,
)
    requires
        row == left + number::padded_left(requests, ' ', width) + " req  "@ + number::padded_left(
            input,
            ' ',
            wide,
        ) + " in  "@ + number::padded_left(output, ' ', wide) + " out  "@ + number::padded_left(
            total,
            ' ',
            wide,
        ) + " total"@ + rest,
    ensures
        text::stands_in(row, requests + " req"@),
        text::stands_in(row, input + " in"@),
        text::stands_in(row, output + " out"@),
        text::stands_in(row, total + " total"@),
        forall|part: Seq<char>|
            text::stands_in(left, part) || text::stands_in(rest, part) ==> #[trigger] text::stands_in(
                row,
                part,
            ),
{
    broadcast use text::group_stands;

    reveal_strlit(" req  ");
    reveal_strlit(" req");
    reveal_strlit(" in  ");
    reveal_strlit(" in");
    reveal_strlit(" out  ");
    reveal_strlit(" out");
    reveal_strlit("  ");
    assert(" req  "@ =~= " req"@ + "  "@);
    assert(" in  "@ =~= " in"@ + "  "@);
    assert(" out  "@ =~= " out"@ + "  "@);
    let a = number::repeated(' ', number::missing(requests, width));
    let b = number::repeated(' ', number::missing(input, wide));
    let c = number::repeated(' ', number::missing(output, wide));
    let d = number::repeated(' ', number::missing(total, wide));
    let first = left + a + (requests + " req"@);
    let second = first + "  "@ + b + (input + " in"@);
    let third = second + "  "@ + c + (output + " out"@);
    let fourth = third + "  "@ + d + (total + " total"@);
    assert(row =~= fourth + rest);
    assert forall|part: Seq<char>|
        text::stands_in(left, part) || text::stands_in(rest, part) implies #[trigger] text::stands_in(
        row,
        part,
    ) by {
        if text::stands_in(left, part) {
            assert(text::stands_in(first, part));
            assert(text::stands_in(second, part));
            assert(text::stands_in(third, part));
            assert(text::stands_in(fourth, part));
        }
    }
    assert(text::stands_in(first, requests + " req"@));
    assert(text::stands_in(second, requests + " req"@));
    assert(text::stands_in(third, requests + " req"@));
    assert(text::stands_in(second, input + " in"@));
    assert(text::stands_in(third, input + " in"@));
    assert(text::stands_in(third, output + " out"@));
    assert(text::stands_in(fourth, requests + " req"@));
    assert(text::stands_in(fourth, input + " in"@));
    assert(text::stands_in(fourth, output + " out"@));
    assert(text::stands_in(fourth, total + " total"@));
}

/// The row of a model names it and tells every count, with the cached tokens where there are any and
/// the cost where there is one.
#[verifier::rlimit(50)]
pub proof fn law_model_rows_tell_every_count(stat: ModelStat, cost: Option<Seq<char>>)
    ensures
        ({
            let row = model_row_of(stat, cost);
            &&& text::stands_in(row, stat.model@)
            &&& text::stands_in(row, number::signed(stat.request_count as int) + " req"@)
            &&& text::stands_in(row, number::signed(stat.input_tokens as int) + " in"@)
            &&& text::stands_in(row, number::signed(stat.output_tokens as int) + " out"@)
            &&& text::stands_in(row, number::signed(stat.total_tokens as int) + " total"@)
            &&& stat.cached_tokens > 0 ==> text::stands_in(
                row,
                number::signed(stat.cached_tokens as int) + " cached"@,
            )
            &&& cost matches Some(cell) ==> cell.is_suffix_of(row)
        }),
{
    let requests = number::signed(stat.request_count as int);
    let input = number::signed(stat.input_tokens as int);
    let output = number::signed(stat.output_tokens as int);
    let total = number::signed(stat.total_tokens as int);
    let cached = number::signed(stat.cached_tokens as int);
    let tail = if stat.cached_tokens > 0 {
        "  "@ + number::repeated(' ', number::missing(cached, 8)) + (cached + " cached"@)
    } else {
        seq![]
    };
    let row = model_row_of(stat, cost);
    let line = model_row_of(ModelStat { cached_tokens: 0, ..stat }, None);
    assert(line =~= "  "@ + number::padded_right(stat.model@, 24) + " "@ + number::padded_left(
        requests,
        ' ',
        3,
    ) + " req  "@ + number::padded_left(input, ' ', 8) + " in  "@ + number::padded_left(
        output,
        ' ',
        8,
    ) + " out  "@ + number::padded_left(total, ' ', 8) + " total"@);
    assert(row =~= line + (tail + cost_text(cost)));
    lemma_figures(
        row,
        "  "@ + number::padded_right(stat.model@, 24) + " "@,
        3,
        requests,
        8,
        input,
        output,
        total,
        tail + cost_text(cost),
    );
    broadcast use text::group_stands;

    assert(text::stands_in(number::padded_right(stat.model@, 24), stat.model@));
    if stat.cached_tokens > 0 {
        assert(text::stands_in(tail, cached + " cached"@));
        assert(text::stands_in(tail + cost_text(cost), cached + " cached"@));
    }
    if let Some(cell) = cost {
        assert(cell =~= row.skip(row.len() - cell.len()));
    }
}

#[verifier::rlimit(50)]
proof fn lemma_period_stands(all: Seq<PeriodFigures>, i: int)
    requires
        0 <= i < all.len(),
    ensures
        text::stands_in(period_rows(all), period_row(all[i])),
    decreases all.len(),
{
    broadcast use text::group_stands;

    if i < all.len() - 1 {
        lemma_period_stands(all.drop_last(), i);
        assert(all.drop_last()[i] == all[i]);
    }
}

#[verifier::rlimit(50)]
proof fn lemma_model_stands(all: Seq<ModelFigures>, i: int)
    requires
        0 <= i < all.len(),
    ensures
        text::stands_in(
            model_rows(all),
            model_row_of(all[i].stat, cost_words(all[i].cost)) + "\n"@,
        ),
    decreases all.len(),
{
    broadcast use text::group_stands;

    let row = model_row_of(all.last().stat, cost_words(all.last().cost)) + "\n"@;
    assert(model_rows(all) =~= model_rows(all.drop_last()) + row);
    if i < all.len() - 1 {
        lemma_model_stands(all.drop_last(), i);
        assert(all.drop_last()[i] == all[i]);
    }
}

/// The report on usage leaves nothing out: every day has its row, every month where there are
/// several, and so has everything together; and where something has no price, it says so.
#[verifier::rlimit(50)]
pub proof fn law_usage_reports_tell_every_period(
    days: Seq<PeriodFigures>,
    months: Seq<PeriodFigures>,
    total: PeriodFigures,
    i: int,
    unpriced: PeriodFigures,
)
    requires
        days.len() > 0,
    ensures
        ({
            let report = usage_report(days, months, total);
            &&& 0 <= i < days.len() ==> text::stands_in(report, period_row(days[i]))
            &&& months.len() > 1 && 0 <= i < months.len() ==> text::stands_in(
                report,
                period_row(months[i]),
            )
            &&& text::stands_in(report, period_row(total))
            &&& (days.contains(unpriced) || (months.len() > 1 && months.contains(unpriced))
                || unpriced == total) && (unpriced.cost matches Some(cell) && cell.has_unpriced)
                ==> text::stands_in(report, UNPRICED_NOTE@)
        }),
{
    broadcast use text::group_stands;

    let report = usage_report(days, months, total);
    let by_month = if months.len() > 1 {
        "\nBy month\n"@ + period_rows(months)
    } else {
        seq![]
    };
    if 0 <= i < days.len() {
        lemma_period_stands(days, i);
    }
    if months.len() > 1 && 0 <= i < months.len() {
        lemma_period_stands(months, i);
        assert(text::stands_in(by_month, period_row(months[i])));
    }
    if unpriced.cost matches Some(cell) && cell.has_unpriced {
        assert(lacks_price(unpriced.cost));
        if days.contains(unpriced) {
            let k = days.index_of(unpriced);
            assert(lacks_price(days[k].cost));
        }
        if months.contains(unpriced) {
            let k = months.index_of(unpriced);
            assert(lacks_price(months[k].cost));
        }
        let note = UNPRICED_NOTE@ + "\n"@;
        assert(text::stands_in(note, UNPRICED_NOTE@));
    }
}

/// What is told of a session leaves nothing out: its title, every count, its cost where prices are
/// known, what was cached where anything was, and a row for each model where there are several.
pub proof fn law_stats_tell_everything(
    title: Seq<char>,
    stats: SessionStats,
    figures: SessionFigures,
    window: Option<u64>,
    i: int,
)
    ensures
        ({
            let report = stats_report(title, stats, figures, window);
            &&& text::stands_in(report, title)
            &&& text::stands_in(report, number::signed(stats.request_count as int))
            &&& text::stands_in(report, number::signed(stats.input_tokens as int))
            &&& text::stands_in(report, number::signed(stats.output_tokens as int))
            &&& text::stands_in(report, number::signed(stats.total_tokens as int))
            &&& figures.cost matches Some(cell) ==> text::stands_in(report, cell.text@)
            &&& stats.cached_tokens > 0 ==> text::stands_in(
                report,
                number::signed(stats.cached_tokens as int),
            ) && text::stands_in(report, figures.cached@)
            &&& figures.models@.len() > 1 && 0 <= i < figures.models@.len() ==> text::stands_in(
                report,
                model_row_of(figures.models@[i].stat, cost_words(figures.models@[i].cost)),
            )
            &&& (stats.last_input_tokens matches Some(last) ==> (window matches Some(size)
                ==> text::stands_in(
                report,
                number::signed(last as int) + "/"@ + number::decimal(size as nat),
            ) && text::stands_in(report, figures.context@)))
        }),
{
    let report = stats_report(title, stats, figures, window);
    let line = context_line(stats, figures, window);
    assert forall|part: Seq<char>| #[trigger] text::stands_in(part, part) by {
        text::lemma_stands_itself(part);
    }
    lemma_told(title, stats, figures, window, title);
    lemma_told(title, stats, figures, window, number::signed(stats.request_count as int));
    lemma_told(title, stats, figures, window, number::signed(stats.input_tokens as int));
    lemma_told(title, stats, figures, window, number::signed(stats.output_tokens as int));
    lemma_told(title, stats, figures, window, number::signed(stats.total_tokens as int));
    if let Some(cell) = figures.cost {
        lemma_told(title, stats, figures, window, cell.text@);
    }
    if stats.cached_tokens > 0 {
        lemma_told(title, stats, figures, window, number::signed(stats.cached_tokens as int));
        lemma_told(title, stats, figures, window, figures.cached@);
    }
    if figures.models@.len() > 1 && 0 <= i < figures.models@.len() {
        lemma_model_stands(figures.models@, i);
        let row = model_row_of(figures.models@[i].stat, cost_words(figures.models@[i].cost));
        text::lemma_stands_added(row, "\n"@, row);
        text::lemma_stands_inside(model_rows(figures.models@), row + "\n"@, row);
        lemma_told(title, stats, figures, window, row);
    }
    if stats.last_input_tokens is Some && window is Some {
        let used = number::signed(stats.last_input_tokens->0 as int) + "/"@ + number::decimal(
            window->0 as nat,
        );
        lemma_context_line(stats, figures, window);
        lemma_told(title, stats, figures, window, used);
        lemma_told(title, stats, figures, window, figures.context@);
    }
}

#[verifier::rlimit(50)]
proof fn lemma_context_line(stats: SessionStats, figures: SessionFigures, window: Option<u64>)
    requires
        stats.last_input_tokens is Some,
        window is Some,
    ensures
        text::stands_in(
            context_line(stats, figures, window),
            number::signed(stats.last_input_tokens->0 as int) + "/"@ + number::decimal(
                window->0 as nat,
            ),
        ),
        text::stands_in(context_line(stats, figures, window), figures.context@),
{
    let line = context_line(stats, figures, window);
    let used = number::signed(stats.last_input_tokens->0 as int) + "/"@ + number::decimal(
        window->0 as nat,
    );
    let more = match stats.last_cached_tokens {
        Some(cached) => if cached > 0 {
            " | Cached: "@ + number::signed(cached as int) + " ("@ + figures.last_cached@ + "%)"@
        } else {
            seq![]
        },
        None => seq![],
    };
    assert(line =~= "Last context:  "@ + used + " ("@ + figures.context@ + "%)"@ + more + "\n"@);
    assert(text::stands_in(line, used)) by {
        broadcast use text::group_stands;

    }
    assert(text::stands_in(line, figures.context@)) by {
        broadcast use text::group_stands;

    }
}

#[verifier::rlimit(50)]
proof fn lemma_told(
    title: Seq<char>,
    stats: SessionStats,
    figures: SessionFigures,
    window: Option<u64>,
    part: Seq<char>,
)
    requires
        ({
            ||| text::stands_in(title, part)
            ||| text::stands_in(number::signed(stats.request_count as int), part)
            ||| text::stands_in(number::signed(stats.input_tokens as int), part)
            ||| text::stands_in(number::signed(stats.output_tokens as int), part)
            ||| text::stands_in(number::signed(stats.total_tokens as int), part)
            ||| figures.cost matches Some(cell) && text::stands_in(cell.text@, part)
            ||| stats.cached_tokens > 0 && text::stands_in(
                number::signed(stats.cached_tokens as int),
                part,
            )
            ||| stats.cached_tokens > 0 && text::stands_in(figures.cached@, part)
            ||| text::stands_in(context_line(stats, figures, window), part)
            ||| figures.models@.len() > 1 && text::stands_in(model_rows(figures.models@), part)
        }),
    ensures
        text::stands_in(stats_report(title, stats, figures, window), part),
{
    broadcast use text::lemma_stands_added;

}

/// On the way out the report is shown whole, and how to come back where there is a session.
#[verifier::rlimit(50)]
pub proof fn law_farewells_hold_the_report(stats: Seq<char>, id: Seq<char>)
    ensures
        stats.is_prefix_of(farewell_of(Some(stats), Some(id))),
        stats.is_prefix_of(farewell_of(Some(stats), None)),
        text::stands_in(farewell_of(Some(stats), Some(id)), "kamui -r "@ + snippet::short(id)),
        text::stands_in(farewell_of(None, Some(id)), "kamui -r "@ + snippet::short(id)),
{
    broadcast use text::group_stands;

    reveal_strlit("To resume this session: kamui -r ");
    reveal_strlit("To resume this session: ");
    reveal_strlit("kamui -r ");
    let resume = "To resume this session: kamui -r "@ + snippet::short(id) + "\n"@;
    let way = "kamui -r "@ + snippet::short(id);
    assert(resume =~= "To resume this session: "@ + way + "\n"@);
    assert(text::stands_in(resume, way));
}

/// Who said something is told by the part that they took, and an unknown part is marked.
pub proof fn law_speakers_are_told_apart(role: Seq<char>)
    ensures
        speaker("user"@) == "You"@,
        speaker("assistant"@) == "Assistant"@,
        speaker("system"@) == "System"@,
        role != "user"@ && role != "assistant"@ && role != "system"@ ==> speaker(role) == "?"@,
{
    reveal_strlit("user");
    reveal_strlit("assistant");
    reveal_strlit("system");
    assert("user"@.len() == 4 && "assistant"@.len() == 9 && "system"@.len() == 6);
}

/// What is told of the cache tells the median, how many turns were measured and how many warmed up,
/// and the two shares.
#[verifier::rlimit(50)]
pub proof fn law_cache_lines_tell_every_figure(cache: CacheFigures)
    ensures
        text::stands_in(cache_line(cache), cache.median@),
        text::stands_in(cache_line(cache), number::decimal(cache.measured as nat)),
        text::stands_in(cache_line(cache), cache.most@),
        text::stands_in(cache_line(cache), cache.nearly_all@),
        text::stands_in(cache_line(cache), number::decimal(cache.warmup as nat)),
{
    broadcast use text::group_stands;

}

} // verus!
