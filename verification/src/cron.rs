//! Cron schedules: the five-field expression grammar (minute, hour, day of
//! month, month, day of week) and the next matching minute after a time, on
//! the proleptic Gregorian calendar in UTC.
use vstd::prelude::*;
use vstd::arithmetic::div_mod::lemma_fundamental_div_mod_converse;

use crate::commands::includes::{lemma_first_index_bounds, views};
use crate::commands::script_loader::{find_char, first_index_of};
use crate::errors::BullRsError;
use crate::text::{chars_of, sub_chars};
use crate::utils::{parse_usize, parsed_usize};

verus! {

/// Whether `y` is a leap year of the Gregorian calendar.
pub open spec fn is_leap_year(y: int) -> bool {
    (y % 4 == 0 && y % 100 != 0) || y % 400 == 0
}

/// The number of days of year `y`.
pub open spec fn days_in_year(y: int) -> nat {
    if is_leap_year(y) {
        366
    } else {
        365
    }
}

/// The number of days of month `m` (1 to 12) in a leap or common year.
pub open spec fn days_in_month(leap: bool, m: int) -> int {
    if m == 2 {
        if leap {
            29
        } else {
            28
        }
    } else if m == 4 || m == 6 || m == 9 || m == 11 {
        30
    } else {
        31
    }
}

/// Day `d` counted from January 1 of year `y`, as its year and its day
/// within that year (0 for January 1).
pub open spec fn year_of(d: nat, y: int) -> (int, nat)
    decreases d,
{
    if d < days_in_year(y) {
        (y, d)
    } else {
        year_of((d - days_in_year(y)) as nat, y + 1)
    }
}

/// The day after `(month, day)` within a year; `(13, 1)` follows December 31.
pub open spec fn next_month_day(leap: bool, md: (int, int)) -> (int, int) {
    if md.1 < days_in_month(leap, md.0) {
        (md.0, md.1 + 1)
    } else {
        (md.0 + 1, 1)
    }
}

/// The month and day of the month of day `k` of a year (0 for January 1).
pub open spec fn month_day(leap: bool, k: nat) -> (int, int)
    decreases k,
{
    if k == 0 {
        (1, 1)
    } else {
        next_month_day(leap, month_day(leap, (k - 1) as nat))
    }
}

/// The date (year, month, day of month) of day `d` counted from 1970-01-01.
pub open spec fn civil_date(d: nat) -> (int, int, int) {
    let (y, k) = year_of(d, 1970);
    let (m, dd) = month_day(is_leap_year(y), k);
    (y, m, dd)
}

/// The day of the week of day `d` counted from 1970-01-01 (a Thursday):
/// 0 for Sunday to 6 for Saturday.
pub open spec fn weekday(d: nat) -> int {
    ((d + 4) % 7) as int
}

/// A parsed cron expression: the allowed minutes, hours, days of the month,
/// months and days of the week (0 and 7 both Sunday), and whether the day
/// fields were written starting with `*`.
pub struct CronSpec {
    pub minutes: Set<int>,
    pub hours: Set<int>,
    pub days: Set<int>,
    pub months: Set<int>,
    pub weekdays: Set<int>,
    pub days_star: bool,
    pub weekdays_star: bool,
}

/// Whether day `d` (from 1970-01-01) is a day the schedule runs on: its month
/// is allowed, and its day of the month and its day of the week are allowed;
/// when neither day field starts with `*`, either of the two suffices.
pub open spec fn cron_day_matches(c: CronSpec, d: nat) -> bool {
    let (y, m, dd) = civil_date(d);
    let w = weekday(d);
    let dom = c.days.contains(dd);
    let dow = c.weekdays.contains(w) || (w == 0 && c.weekdays.contains(7));
    &&& c.months.contains(m)
    &&& if c.days_star || c.weekdays_star {
        dom && dow
    } else {
        dom || dow
    }
}

/// Whether minute `n` (counted from 1970-01-01 00:00 UTC) is a run of the schedule.
pub open spec fn cron_minute_matches(c: CronSpec, n: nat) -> bool {
    &&& c.minutes.contains((n % 60) as int)
    &&& c.hours.contains(((n / 60) % 24) as int)
    &&& cron_day_matches(c, n / 1440)
}

/// The schedule as tables of allowed values, indexed by value.
pub struct CronSchedule {
    pub minutes: Vec<bool>,
    pub hours: Vec<bool>,
    pub days: Vec<bool>,
    pub months: Vec<bool>,
    pub weekdays: Vec<bool>,
    pub days_star: bool,
    pub weekdays_star: bool,
}

/// The values a table allows: the indices that hold `true`.
pub open spec fn set_of(v: Seq<bool>) -> Set<int> {
    Set::new(|i: int| 0 <= i < v.len() && v[i])
}

impl View for CronSchedule {
    type V = CronSpec;

    open spec fn view(&self) -> CronSpec {
        CronSpec {
            minutes: set_of(self.minutes@),
            hours: set_of(self.hours@),
            days: set_of(self.days@),
            months: set_of(self.months@),
            weekdays: set_of(self.weekdays@),
            days_star: self.days_star,
            weekdays_star: self.weekdays_star,
        }
    }
}

fn allowed(v: &Vec<bool>, i: u64) -> (b: bool)
    ensures
        b == set_of(v@).contains(i as int),
{
    if i < v.len() as u64 {
        v[i as usize]
    } else {
        false
    }
}

fn is_leap(y: u64) -> (b: bool)
    ensures
        b == is_leap_year(y as int),
{
    (y % 4 == 0 && y % 100 != 0) || y % 400 == 0
}

fn year_length(y: u64) -> (n: u64)
    ensures
        n == days_in_year(y as int),
{
    if is_leap(y) {
        366
    } else {
        365
    }
}

fn month_length(leap: bool, m: u64) -> (n: u64)
    ensures
        n == days_in_month(leap, m as int),
{
    if m == 2 {
        if leap {
            29
        } else {
            28
        }
    } else if m == 4 || m == 6 || m == 9 || m == 11 {
        30
    } else {
        31
    }
}

/// The date of day `d` counted from 1970-01-01.
fn date_of_day(d: u64) -> (r: (u64, u64, u64))
    requires
        d <= u64::MAX / 2,
    ensures
        r.0 == civil_date(d as nat).0,
        r.1 == civil_date(d as nat).1,
        r.2 == civil_date(d as nat).2,
{
    let mut y: u64 = 1970;
    let mut rem: u64 = d;
    while rem >= year_length(y)
        invariant
            year_of(d as nat, 1970) == year_of(rem as nat, y as int),
            rem <= d,
            y <= 1970 + (d - rem),
            d <= u64::MAX / 2,
        decreases rem,
    {
        let n: u64 = year_length(y);
        rem = rem - n;
        y = y + 1;
    }
    let leap = is_leap(y);
    let mut m: u64 = 1;
    let mut dd: u64 = 1;
    let mut i: u64 = 0;
    while i < rem
        invariant
            i <= rem,
            rem < 366,
            (m as int, dd as int) == month_day(leap, i as nat),
            1 <= m <= i + 1,
            1 <= dd <= 31,
        decreases rem - i,
    {
        if dd < month_length(leap, m) {
            dd = dd + 1;
        } else {
            m = m + 1;
            dd = 1;
        }
        i = i + 1;
    }
    (y, m, dd)
}

/// Whether the schedule runs on day `d` (counted from 1970-01-01).
fn day_matches(s: &CronSchedule, d: u64) -> (b: bool)
    requires
        d <= u64::MAX / 2,
    ensures
        b == cron_day_matches(s@, d as nat),
{
    let (_y, m, dd) = date_of_day(d);
    let w = (d + 4) % 7;
    let dom = allowed(&s.days, dd);
    let dow = allowed(&s.weekdays, w) || (w == 0 && allowed(&s.weekdays, 7));
    let month = allowed(&s.months, m);
    month && if s.days_star || s.weekdays_star {
        dom && dow
    } else {
        dom || dow
    }
}

proof fn lemma_minute_parts(d: nat, i: nat)
    requires
        i < 1440,
    ensures
        (d * 1440 + i) % 60 == i % 60,
        ((d * 1440 + i) / 60) % 24 == i / 60,
        (d * 1440 + i) / 1440 == d,
{
    let n = d * 1440 + i;
    lemma_fundamental_div_mod_converse(n as int, 1440, d as int, i as int);
    lemma_fundamental_div_mod_converse(i as int, 60, (i / 60) as int, (i % 60) as int);
    assert(n == (d * 24 + i / 60) * 60 + i % 60) by (nonlinear_arith)
        requires
            n == d * 1440 + i,
            i == (i / 60) * 60 + i % 60,
    ;
    lemma_fundamental_div_mod_converse(n as int, 60, (d * 24 + i / 60) as int, (i % 60) as int);
    assert(i / 60 < 24);
    lemma_fundamental_div_mod_converse((d * 24 + i / 60) as int, 24, d as int, (i / 60) as int);
}

/// The number of days searched for a run: 400 years of the Gregorian
/// calendar, after which dates repeat.
pub const CRON_HORIZON_DAYS: u64 = 146097;

/// What the search for the next run of `c` strictly after time `after`
/// (milliseconds since 1970-01-01 UTC) gives: the first matching minute, as
/// milliseconds; `SystemTimeError` when that time does not fit in a `u64`;
/// `InvalidArgument` when no minute matches from the next minute through the
/// following `CRON_HORIZON_DAYS` whole days.
pub open spec fn cron_search(c: CronSpec, after: nat, res: Result<u64, BullRsError>) -> bool {
    let first = after / 60000 + 1;
    let end = (first / 1440 + CRON_HORIZON_DAYS + 1) * 1440;
    match res {
        Ok(t) => {
            &&& t % 60000 == 0
            &&& first <= t / 60000
            &&& cron_minute_matches(c, (t / 60000) as nat)
            &&& forall|n: nat| first <= n < t / 60000 ==> !cron_minute_matches(c, n)
        },
        Err(e) => {
            ||| (e is SystemTimeError && exists|n: nat|
                first <= n && n * 60000 > u64::MAX && cron_minute_matches(c, n) && forall|k: nat|
                    first <= k < n ==> !cron_minute_matches(c, k))
            ||| (e is InvalidArgument && forall|n: nat| first <= n < end ==> !cron_minute_matches(c, n))
        },
    }
}

/// The first run of the schedule strictly after time `after`.
pub fn next_run(s: &CronSchedule, after: u64) -> (res: Result<u64, BullRsError>)
    ensures
        cron_search(s@, after as nat, res),
{
    let ghost c = s@;
    let first: u64 = after / 60000 + 1;
    let d0: u64 = first / 1440;
    let last: u64 = d0 + CRON_HORIZON_DAYS;
    proof {
        lemma_fundamental_div_mod_converse(first as int, 1440, d0 as int, (first % 1440) as int);
    }
    let mut d: u64 = d0;
    while d <= last
        invariant
            c == s@,
            first == after / 60000 + 1,
            d0 == first / 1440,
            first == d0 * 1440 + first % 1440,
            last == d0 + CRON_HORIZON_DAYS,
            d0 <= d <= last + 1,
            d0 <= u64::MAX / 86400000 + 1,
            forall|n: nat| first <= n < d * 1440 ==> !cron_minute_matches(c, n),
        decreases last + 1 - d,
    {
        if day_matches(s, d) {
            let start: u64 = if d == d0 {
                first % 1440
            } else {
                0
            };
            let mut i: u64 = start;
            while i < 1440
                invariant
                    c == s@,
                    start <= i <= 1440,
                    first == after / 60000 + 1,
                    first == d0 * 1440 + first % 1440,
                    d0 <= d <= last,
                    last == d0 + CRON_HORIZON_DAYS,
                    d0 <= u64::MAX / 86400000 + 1,
                    cron_day_matches(c, d as nat),
                    start == (if d == d0 { first % 1440 } else { 0 }),
                    forall|n: nat| first <= n < d * 1440 + i ==> !cron_minute_matches(c, n),
                decreases 1440 - i,
            {
                let n: u64 = d * 1440 + i;
                proof {
                    lemma_minute_parts(d as nat, i as nat);
                }
                if allowed(&s.minutes, i % 60) && allowed(&s.hours, i / 60) {
                    assert(cron_minute_matches(c, n as nat));
                    if n > u64::MAX / 60000 {
                        return Err(BullRsError::SystemTimeError("timestamp out of range".to_string()));
                    }
                    let t = n * 60000;
                    proof {
                        lemma_fundamental_div_mod_converse(t as int, 60000, n as int, 0);
                    }
                    return Ok(t);
                }
                assert(!cron_minute_matches(c, n as nat));
                i = i + 1;
            }
        } else {
            assert forall|n: nat| first <= n < (d + 1) * 1440 implies !cron_minute_matches(c, n) by {
                if n >= d * 1440 {
                    let i = (n - d * 1440) as nat;
                    lemma_minute_parts(d as nat, i);
                    assert(n == d * 1440 + i);
                }
            }
        }
        d = d + 1;
    }
    Err(BullRsError::InvalidArgument("cron expression has no run within 400 years".to_string()))
}

/// Characters that separate the fields of an expression.
pub open spec fn is_field_space(c: char) -> bool {
    c == ' ' || c == '\t'
}

/// The length of the run of non-separator characters that starts `s`.
pub open spec fn word_len(s: Seq<char>) -> nat
    decreases s.len(),
{
    if s.len() > 0 && !is_field_space(s[0]) {
        1 + word_len(s.skip(1))
    } else {
        0
    }
}

pub proof fn lemma_word_len_bound(s: Seq<char>)
    ensures
        word_len(s) <= s.len(),
        s.len() > 0 && !is_field_space(s[0]) ==> word_len(s) >= 1,
    decreases s.len(),
{
    if s.len() > 0 && !is_field_space(s[0]) {
        lemma_word_len_bound(s.skip(1));
    }
}

proof fn lemma_word_len(s: Seq<char>, i: int)
    requires
        0 <= i <= s.len(),
        forall|k: int| 0 <= k < i ==> !is_field_space(s[k]),
        i == s.len() || is_field_space(s[i]),
    ensures
        word_len(s) == i,
    decreases i,
{
    if i > 0 {
        lemma_word_len(s.skip(1), i - 1);
    }
}

/// The fields of an expression: its maximal runs of characters other than
/// spaces and tabs, in order.
pub open spec fn words(s: Seq<char>) -> Seq<Seq<char>>
    decreases s.len(),
{
    if s.len() == 0 {
        Seq::empty()
    } else if is_field_space(s[0]) {
        words(s.skip(1))
    } else {
        proof {
            lemma_word_len_bound(s);
        }
        seq![s.take(word_len(s) as int)] + words(s.skip(word_len(s) as int))
    }
}

/// A number of a cron field: decimal digits only, as a `usize`.
pub open spec fn cron_number(s: Seq<char>) -> Option<nat> {
    if s.len() > 0 && s[0] != '+' {
        parsed_usize(s)
    } else {
        None
    }
}

/// The first and last value of a range: `*` for the field's whole range,
/// `a-b`, or a single value `a` (running to the field's end when a step follows).
pub open spec fn item_bounds(range: Seq<char>, stepped: bool, lo: int, hi: int) -> Option<(int, int)> {
    if range == seq!['*'] {
        Some((lo, hi))
    } else {
        match first_index_of(range, '-') {
            Some(j) => match (cron_number(range.take(j)), cron_number(range.skip(j + 1))) {
                (Some(a), Some(b)) => Some((a as int, b as int)),
                _ => None,
            },
            None => match cron_number(range) {
                Some(a) => Some((a as int, if stepped { hi } else { a as int })),
                None => None,
            },
        }
    }
}

/// An item split at its first `/`: the range before it, the step after it
/// (1 when there is no `/`), and whether a step was written.
pub open spec fn item_parts(item: Seq<char>) -> (Seq<char>, Option<nat>, bool) {
    match first_index_of(item, '/') {
        Some(i) => (item.take(i), cron_number(item.skip(i + 1)), true),
        None => (item, Some(1), false),
    }
}

/// The values of one item of a field whose values run from `lo` to `hi`: a
/// range, optionally followed by `/step`, the values from its first one on in
/// steps of `step`; none when the item is malformed or leaves the field's range.
pub open spec fn item_values(item: Seq<char>, lo: int, hi: int) -> Option<Set<int>> {
    let (range, step, stepped) = item_parts(item);
    match (item_bounds(range, stepped, lo, hi), step) {
        (Some((a, b)), Some(st)) => if lo <= a && a <= b && b <= hi && st >= 1 {
            Some(Set::new(|v: int| a <= v <= b && (v - a) % (st as int) == 0))
        } else {
            None
        },
        _ => None,
    }
}

/// The values of a field: the union of its comma-separated items.
pub open spec fn field_values(text: Seq<char>, lo: int, hi: int) -> Option<Set<int>>
    decreases text.len(),
{
    match first_index_of(text, ',') {
        Some(i) => {
            proof {
                lemma_first_index_bounds(text, ',');
            }
            match (item_values(text.take(i), lo, hi), field_values(text.skip(i + 1), lo, hi)) {
                (Some(a), Some(b)) => Some(a.union(b)),
                _ => None,
            }
        },
        None => item_values(text, lo, hi),
    }
}

/// The schedule a cron expression describes: five fields (minute 0-59, hour
/// 0-23, day of month 1-31, month 1-12, day of week 0-7), or none when the
/// expression is malformed.
pub open spec fn cron_spec(expr: Seq<char>) -> Option<CronSpec> {
    let w = words(expr);
    if w.len() != 5 {
        None
    } else {
        match (
            field_values(w[0], 0, 59),
            field_values(w[1], 0, 23),
            field_values(w[2], 1, 31),
            field_values(w[3], 1, 12),
            field_values(w[4], 0, 7),
        ) {
            (Some(mi), Some(h), Some(dm), Some(mo), Some(dw)) => Some(
                CronSpec {
                    minutes: mi,
                    hours: h,
                    days: dm,
                    months: mo,
                    weekdays: dw,
                    days_star: w[2].len() > 0 && w[2][0] == '*',
                    weekdays_star: w[4].len() > 0 && w[4][0] == '*',
                },
            ),
            _ => None,
        }
    }
}

/// Splits an expression into its fields.
fn split_words(s: &Vec<char>) -> (out: Vec<Vec<char>>)
    ensures
        views(out@) == words(s@),
{
    let mut out: Vec<Vec<char>> = Vec::new();
    let mut i: usize = 0;
    assert(s@.skip(0) =~= s@);
    assert(views(out@) + words(s@) =~= words(s@));
    while i < s.len()
        invariant
            i <= s@.len(),
            words(s@) == views(out@) + words(s@.skip(i as int)),
        decreases s@.len() - i,
    {
        let ghost t = s@.skip(i as int);
        if s[i] == ' ' || s[i] == '\t' {
            assert(t.skip(1) =~= s@.skip(i + 1));
            i = i + 1;
        } else {
            let mut j: usize = i;
            while j < s.len() && s[j] != ' ' && s[j] != '\t'
                invariant
                    i <= j <= s@.len(),
                    forall|k: int| i <= k < j ==> !is_field_space(s@[k]),
                decreases s@.len() - j,
            {
                j = j + 1;
            }
            proof {
                lemma_word_len(t, j - i);
                assert(t.take(j - i) =~= s@.subrange(i as int, j as int));
                assert(t.skip(j - i) =~= s@.skip(j as int));
            }
            let word = sub_chars(s, i, j);
            let ghost prev = out@;
            out.push(word);
            assert(views(out@) =~= views(prev) + seq![s@.subrange(i as int, j as int)]);
            i = j;
        }
    }
    assert(s@.skip(s@.len() as int) =~= Seq::<char>::empty());
    assert(views(out@) + Seq::<Seq<char>>::empty() =~= views(out@));
    out
}

/// Reads a number of a cron field.
fn parse_number(s: &Vec<char>) -> (r: Option<usize>)
    ensures
        match cron_number(s@) {
            Some(n) => r == Some(n as usize) && n <= usize::MAX,
            None => r is None,
        },
{
    if s.len() == 0 || s[0] == '+' {
        return None;
    }
    parse_usize(s)
}

/// The table of the values `first..=last` in steps of `step`, over `0..=hi`.
fn stepped_table(first: usize, last: usize, step: usize, hi: usize) -> (t: Vec<bool>)
    requires
        step >= 1,
        first <= last <= hi < 100,
    ensures
        t@.len() == hi + 1,
        set_of(t@) == Set::new(|v: int| first <= v <= last && (v - first) % (step as int) == 0),
{
    let mut t: Vec<bool> = Vec::new();
    let mut v: usize = 0;
    while v <= hi
        invariant
            v <= hi + 1,
            hi < 100,
            step >= 1,
            t@.len() == v,
            forall|k: int| 0 <= k < v ==> (t@[k] <==> (first <= k <= last && (k - first) % (step as int) == 0)),
        decreases hi + 1 - v,
    {
        t.push(first <= v && v <= last && (v - first) % step == 0);
        v = v + 1;
    }
    assert(set_of(t@) =~= Set::new(|v: int| first <= v <= last && (v - first) % (step as int) == 0));
    t
}

/// Reads the bounds of a range of a field whose values run from `lo` to `hi`.
fn parse_bounds(range: &Vec<char>, stepped: bool, lo: usize, hi: usize) -> (r: Option<(usize, usize)>)
    ensures
        match item_bounds(range@, stepped, lo as int, hi as int) {
            Some((a, b)) => r matches Some(p) && p.0 == a && p.1 == b,
            None => r is None,
        },
{
    let star = range.len() == 1 && range[0] == '*';
    proof {
        if star {
            assert(range@ =~= seq!['*']);
        } else {
            assert(range@ != seq!['*']) by {
                if range@ == seq!['*'] {
                    assert(range@.len() == 1 && range@[0] == '*');
                }
            }
        }
    }
    if star {
        return Some((lo, hi));
    }
    match find_char(range, '-') {
        Some(j) => {
            let a = parse_number(&sub_chars(range, 0, j));
            let b = parse_number(&sub_chars(range, j + 1, range.len()));
            match (a, b) {
                (Some(a), Some(b)) => Some((a, b)),
                _ => None,
            }
        },
        None => match parse_number(range) {
            Some(a) => Some(
                (
                    a,
                    if stepped {
                        hi
                    } else {
                        a
                    },
                ),
            ),
            None => None,
        },
    }
}

/// Splits an item at its first `/` into range, step and whether a step was written.
fn split_item(item: &Vec<char>) -> (r: (Vec<char>, Option<usize>, bool))
    ensures
        r.0@ == item_parts(item@).0,
        r.2 == item_parts(item@).2,
        match item_parts(item@).1 {
            Some(n) => r.1 == Some(n as usize),
            None => r.1 is None,
        },
{
    let n = item.len();
    match find_char(item, '/') {
        Some(i) => {
            let range = sub_chars(item, 0, i);
            let after = sub_chars(item, i + 1, n);
            assert(range@ =~= item@.take(i as int));
            assert(after@ =~= item@.skip(i + 1));
            (range, parse_number(&after), true)
        },
        None => {
            let range = sub_chars(item, 0, item.len());
            assert(range@ =~= item@);
            (range, Some(1), false)
        },
    }
}

/// Parses one item of a field whose values run from `lo` to `hi`.
fn parse_item(item: &Vec<char>, lo: usize, hi: usize) -> (r: Option<Vec<bool>>)
    requires
        lo <= hi < 100,
    ensures
        match item_values(item@, lo as int, hi as int) {
            Some(set) => r matches Some(t) && t@.len() == hi + 1 && set_of(t@) == set,
            None => r is None,
        },
{
    let (range, step, stepped) = split_item(item);
    let bounds = parse_bounds(&range, stepped, lo, hi);
    match (bounds, step) {
        (Some((a, b)), Some(st)) => {
            if lo <= a && a <= b && b <= hi && st >= 1 {
                Some(stepped_table(a, b, st, hi))
            } else {
                None
            }
        },
        _ => None,
    }
}

/// Elementwise union of two tables of equal length.
fn union_tables(a: &Vec<bool>, b: &Vec<bool>) -> (t: Vec<bool>)
    requires
        a@.len() == b@.len(),
    ensures
        t@.len() == a@.len(),
        set_of(t@) == set_of(a@).union(set_of(b@)),
{
    let mut t: Vec<bool> = Vec::new();
    let mut i: usize = 0;
    while i < a.len()
        invariant
            i <= a@.len(),
            a@.len() == b@.len(),
            t@.len() == i,
            forall|k: int| 0 <= k < i ==> (t@[k] <==> (a@[k] || b@[k])),
        decreases a@.len() - i,
    {
        t.push(a[i] || b[i]);
        i = i + 1;
    }
    assert(set_of(t@) =~= set_of(a@).union(set_of(b@)));
    t
}

/// The union of a set with a field's values, if it has any.
pub open spec fn joined_values(a: Set<int>, rest: Option<Set<int>>) -> Option<Set<int>> {
    match rest {
        Some(b) => Some(a.union(b)),
        None => None,
    }
}

proof fn lemma_field_split(text: Seq<char>, i: int, lo: int, hi: int)
    requires
        first_index_of(text, ',') == Some(i),
    ensures
        0 <= i < text.len(),
        field_values(text, lo, hi) == match (item_values(text.take(i), lo, hi), field_values(text.skip(i + 1), lo, hi)) {
            (Some(a), Some(b)) => Some(a.union(b)),
            _ => None,
        },
{
    lemma_first_index_bounds(text, ',');
}

/// Adding a table's values to what remains of a field, item by item.
proof fn lemma_join_step(acc: Set<int>, item: Option<Set<int>>, rest: Option<Set<int>>)
    ensures
        joined_values(acc, match (item, rest) {
            (Some(a), Some(b)) => Some(a.union(b)),
            _ => None,
        }) == match item {
            Some(t) => joined_values(acc.union(t), rest),
            None => None::<Set<int>>,
        },
{
    match (item, rest) {
        (Some(t), Some(f)) => {
            assert(acc.union(t.union(f)) =~= acc.union(t).union(f));
        },
        _ => {},
    }
}

/// Parses a field whose values run from `lo` to `hi`.
fn parse_field(text: &Vec<char>, lo: usize, hi: usize) -> (r: Option<Vec<bool>>)
    requires
        lo <= hi < 100,
    ensures
        match field_values(text@, lo as int, hi as int) {
            Some(set) => r matches Some(t) && t@.len() == hi + 1 && set_of(t@) == set,
            None => r is None,
        },
{
    let mut acc: Vec<bool> = Vec::new();
    let mut k: usize = 0;
    while k <= hi
        invariant
            k <= hi + 1,
            hi < 100,
            acc@.len() == k,
            forall|j: int| 0 <= j < k ==> !acc@[j],
        decreases hi + 1 - k,
    {
        acc.push(false);
        k = k + 1;
    }
    assert(set_of(acc@) =~= Set::<int>::empty());
    assert(Set::<int>::empty().union(Set::<int>::empty()) =~= Set::<int>::empty());
    let mut rest = sub_chars(text, 0, text.len());
    assert(rest@ =~= text@);
    proof {
        match field_values(text@, lo as int, hi as int) {
            Some(f) => {
                assert(Set::<int>::empty().union(f) =~= f);
            },
            None => {},
        }
    }
    loop
        invariant
            lo <= hi < 100,
            acc@.len() == hi + 1,
            field_values(text@, lo as int, hi as int) == joined_values(
                set_of(acc@),
                field_values(rest@, lo as int, hi as int),
            ),
        decreases rest@.len(),
    {
        let n = rest.len();
        match find_char(&rest, ',') {
            Some(i) => {
                let item = sub_chars(&rest, 0, i);
                let next = sub_chars(&rest, i + 1, n);
                proof {
                    lemma_field_split(rest@, i as int, lo as int, hi as int);
                    assert(item@ =~= rest@.take(i as int));
                    assert(next@ =~= rest@.skip(i + 1));
                    lemma_join_step(
                        set_of(acc@),
                        item_values(item@, lo as int, hi as int),
                        field_values(next@, lo as int, hi as int),
                    );
                }
                match parse_item(&item, lo, hi) {
                    None => {
                        return None;
                    },
                    Some(t) => {
                        acc = union_tables(&acc, &t);
                        rest = next;
                    },
                }
            },
            None => {
                match parse_item(&rest, lo, hi) {
                    None => {
                        return None;
                    },
                    Some(t) => {
                        return Some(union_tables(&acc, &t));
                    },
                }
            },
        }
    }
}

/// Parses a cron expression into its schedule, if it is well formed.
pub fn parse_cron(expression: &str) -> (r: Option<CronSchedule>)
    ensures
        match cron_spec(expression@) {
            Some(c) => r matches Some(s) && s@ == c,
            None => r is None,
        },
{
    let chars = chars_of(expression);
    let w = split_words(&chars);
    if w.len() != 5 {
        return None;
    }
    let minutes = match parse_field(&w[0], 0, 59) {
        Some(t) => t,
        None => return None,
    };
    let hours = match parse_field(&w[1], 0, 23) {
        Some(t) => t,
        None => return None,
    };
    let days = match parse_field(&w[2], 1, 31) {
        Some(t) => t,
        None => return None,
    };
    let months = match parse_field(&w[3], 1, 12) {
        Some(t) => t,
        None => return None,
    };
    let weekdays = match parse_field(&w[4], 0, 7) {
        Some(t) => t,
        None => return None,
    };
    let days_star = w[2].len() > 0 && w[2][0] == '*';
    let weekdays_star = w[4].len() > 0 && w[4][0] == '*';
    proof {
        assert(views(w@)[0] == w@[0]@);
        assert(views(w@)[1] == w@[1]@);
        assert(views(w@)[2] == w@[2]@);
        assert(views(w@)[3] == w@[3]@);
        assert(views(w@)[4] == w@[4]@);
    }
    Some(CronSchedule { minutes, hours, days, months, weekdays, days_star, weekdays_star })
}

/// What the next run of a cron expression strictly after time `after` is:
/// `InvalidArgument` for a malformed expression, else as `cron_search` says.
pub open spec fn cron_answer(expr: Seq<char>, after: nat, res: Result<u64, BullRsError>) -> bool {
    match cron_spec(expr) {
        Some(c) => cron_search(c, after, res),
        None => res matches Err(e) && e is InvalidArgument,
    }
}

/// The next run of a cron expression strictly after time `after`
/// (milliseconds since 1970-01-01 UTC), at the start of a minute.
pub fn next_cron_time(expression: &str, after: u64) -> (res: Result<u64, BullRsError>)
    ensures
        cron_answer(expression@, after as nat, res),
{
    match parse_cron(expression) {
        Some(s) => next_run(&s, after),
        None => Err(BullRsError::InvalidArgument("invalid cron expression".to_string())),
    }
}

} // verus!
