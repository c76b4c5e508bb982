//! Cron as choices, not as a string.
//!
//! A schedule reaches the app as `0 30 9 * * 1-5`, and has to go back out in
//! that form. The app models the small set of schedules a person sets from a
//! phone — hourly, daily, weekdays, one weekday, one day of the month — and
//! the sheet builds the string.
//!
//! Every value the sheet can produce is legal, and a cron this grammar
//! cannot hold is not rewritten: [`parse`] answers `None` and the schedule
//! stays whatever it was. [`parse`] reads the 5-field and the 6-field form;
//! [`build`] writes the 6-field form with seconds pinned to `0`. Day-of-week
//! numbering is `0`–`6` from Sunday, with `7` also Sunday.

use vstd::prelude::*;

use crate::text::{
    char_string, chars_of, decimal, decimal_string, is_digit, join_spaced, no_ws,
    push_char, push_decimal, push_str, spaced, split_words, words,
};

verus! {

/// How often a schedule fires. The five shapes the sheet offers.
#[derive(Debug, Clone, Copy, PartialEq, Eq, Structural)]
pub enum Repeat {
    Hourly,
    Daily,
    Weekdays,
    Weekly,
    Monthly,
}

impl Repeat {
    /// Sheet order, coarsest interval last.
    pub const ALL: [Repeat; 5] = [
        Repeat::Hourly,
        Repeat::Daily,
        Repeat::Weekdays,
        Repeat::Weekly,
        Repeat::Monthly,
    ];

    /// Identifies the choice to the sheet's change handler. Never rendered.
    pub fn id(self) -> (s: &'static str)
        ensures
            s@ == repeat_id(self),
    {
        match self {
            Repeat::Hourly => "hourly",
            Repeat::Daily => "daily",
            Repeat::Weekdays => "weekdays",
            Repeat::Weekly => "weekly",
            Repeat::Monthly => "monthly",
        }
    }

    pub fn label(self) -> (s: &'static str)
        ensures
            s@ == repeat_label(self),
    {
        match self {
            Repeat::Hourly => "Every hour",
            Repeat::Daily => "Every day",
            Repeat::Weekdays => "Every weekday",
            Repeat::Weekly => "Every week",
            Repeat::Monthly => "Every month",
        }
    }

    /// The choice whose id is `id`, if any.
    pub fn from_id(id: &str) -> (r: Option<Repeat>)
        ensures
            r matches Some(k) ==> repeat_id(k) == id@,
            r is None ==> forall|k: Repeat| repeat_id(k) != id@,
    {
        let all = Repeat::ALL;
        let mut i: usize = 0;
        while i < 5
            invariant
                i <= 5,
                all@ == seq![Repeat::Hourly, Repeat::Daily, Repeat::Weekdays, Repeat::Weekly, Repeat::Monthly],
                forall|k: int| 0 <= k < i ==> repeat_id(#[trigger] all@[k]) != id@,
            decreases 5 - i,
        {
            let kind = all[i];
            if crate::text::same_text(kind.id(), id) {
                return Some(kind);
            }
            i += 1;
        }
        proof {
            assert forall|k: Repeat| repeat_id(k) != id@ by {
                match k {
                    Repeat::Hourly => assert(all@[0] == k),
                    Repeat::Daily => assert(all@[1] == k),
                    Repeat::Weekdays => assert(all@[2] == k),
                    Repeat::Weekly => assert(all@[3] == k),
                    Repeat::Monthly => assert(all@[4] == k),
                }
            }
        }
        None
    }
}

pub open spec fn repeat_id(r: Repeat) -> Seq<char> {
    match r {
        Repeat::Hourly => "hourly"@,
        Repeat::Daily => "daily"@,
        Repeat::Weekdays => "weekdays"@,
        Repeat::Weekly => "weekly"@,
        Repeat::Monthly => "monthly"@,
    }
}

pub open spec fn repeat_label(r: Repeat) -> Seq<char> {
    match r {
        Repeat::Hourly => "Every hour"@,
        Repeat::Daily => "Every day"@,
        Repeat::Weekdays => "Every weekday"@,
        Repeat::Weekly => "Every week"@,
        Repeat::Monthly => "Every month"@,
    }
}

/// A schedule the sheet can express, and the only thing it can write.
///
/// `weekday`, `day` and `hour` are carried whether or not the current
/// [`Repeat`] reads them, so switching repeat and back keeps what was
/// picked. [`build`] emits only the fields its `repeat` uses.
#[derive(Debug, Clone, Copy, PartialEq, Eq, Structural)]
pub struct Schedule {
    pub repeat: Repeat,
    /// 0 = Sunday … 6 = Saturday. Read by [`Repeat::Weekly`].
    pub weekday: u8,
    /// Day of the month, 1–31. Read by [`Repeat::Monthly`].
    pub day: u8,
    /// 0–23. Read by everything except [`Repeat::Hourly`].
    pub hour: u8,
    /// A multiple of five, 0–55.
    pub minute: u8,
}

/// Weekday mornings at 9.
pub open spec fn default_schedule() -> Schedule {
    Schedule { repeat: Repeat::Weekdays, weekday: 1, day: 1, hour: 9, minute: 0 }
}

impl Default for Schedule {
    /// Weekday mornings at 9, which is what the sheet opens on for a recipe
    /// that has no schedule.
    fn default() -> (s: Self)
        ensures
            s == default_schedule(),
    {
        Schedule { repeat: Repeat::Weekdays, weekday: 1, day: 1, hour: 9, minute: 0 }
    }
}

/// The minutes the sheet offers: five-minute granularity.
pub const MINUTES: [u8; 12] = [0, 5, 10, 15, 20, 25, 30, 35, 40, 45, 50, 55];

/// What a day-of-week field can say, once it is one of the three shapes
/// this grammar holds.
#[derive(Clone, Copy, PartialEq, Eq, Structural)]
pub enum Dow {
    Any,
    MonToFri,
    One(u8),
}

// ---- the grammar, as specification --------------------------------------

/// What `u8::from_str` accepts: an optional `+`, then one or more ASCII
/// digits whose value fits in a byte.
pub open spec fn parse_u8(f: Seq<char>) -> Option<u8> {
    match crate::text::parse_bounded_spec(f, 255) {
        Some(v) => Some(v as u8),
        None => None,
    }
}

/// A plain number in `min..=max`, or nothing.
pub open spec fn number_spec(f: Seq<char>, min: u8, max: u8) -> Option<u8> {
    match parse_u8(f) {
        Some(v) => if min <= v && v <= max {
            Some(v)
        } else {
            None
        },
        None => None,
    }
}

/// `*`, or a number in range: `Some(None)` for the star, `Some(Some(v))` for
/// a number, `None` for anything else.
pub open spec fn star_or_number(f: Seq<char>, min: u8, max: u8) -> Option<Option<u8>> {
    if f == seq!['*'] {
        Some(None)
    } else {
        match number_spec(f, min, max) {
            Some(v) => Some(Some(v)),
            None => None,
        }
    }
}

pub open spec fn dow_spec(f: Seq<char>) -> Option<Dow> {
    if f == seq!['*'] {
        Some(Dow::Any)
    } else if f == seq!['1', '-', '5'] {
        Some(Dow::MonToFri)
    } else {
        match number_spec(f, 0, 7) {
            Some(v) => Some(Dow::One((v % 7) as u8)),
            None => None,
        }
    }
}

/// The `k`th field after the seconds (minute, hour, day, month, weekday),
/// whichever of the two forms the line is in.
pub open spec fn field_at(f: Seq<Seq<char>>, k: int) -> Seq<char> {
    if f.len() == 5 {
        f[k]
    } else {
        f[k + 1]
    }
}

/// The schedule a set of fields means, given they passed the checks.
pub open spec fn shape(minute: u8, hour: Option<u8>, day: Option<u8>, dow: Dow) -> Option<
    Schedule,
> {
    let base = Schedule { minute, ..default_schedule() };
    match (hour, day, dow) {
        (None, None, Dow::Any) => Some(Schedule { repeat: Repeat::Hourly, ..base }),
        (Some(h), None, Dow::Any) => Some(Schedule { repeat: Repeat::Daily, hour: h, ..base }),
        (Some(h), None, Dow::MonToFri) => Some(
            Schedule { repeat: Repeat::Weekdays, hour: h, ..base },
        ),
        (Some(h), None, Dow::One(w)) => Some(
            Schedule { repeat: Repeat::Weekly, weekday: w, hour: h, ..base },
        ),
        (Some(h), Some(d), Dow::Any) => Some(
            Schedule { repeat: Repeat::Monthly, day: d, hour: h, ..base },
        ),
        _ => None,
    }
}

/// What [`parse`] answers for a cron line.
pub open spec fn parse_spec(cron: Seq<char>) -> Option<Schedule> {
    let f = words(cron);
    if f.len() != 5 && f.len() != 6 {
        None
    } else if f.len() == 6 && f[0] != seq!['0'] {
        None
    } else if field_at(f, 3) != seq!['*'] {
        None
    } else {
        match number_spec(field_at(f, 0), 0, 59) {
            None => None,
            Some(minute) => if minute % 5 != 0 {
                None
            } else {
                match (
                    star_or_number(field_at(f, 1), 0, 23),
                    star_or_number(field_at(f, 2), 1, 31),
                    dow_spec(field_at(f, 4)),
                ) {
                    (Some(hour), Some(day), Some(dow)) => shape(minute, hour, day, dow),
                    _ => None,
                }
            },
        }
    }
}

/// The six tokens [`build`] writes.
pub open spec fn build_tokens(s: Schedule) -> Seq<Seq<char>> {
    let zero = seq!['0'];
    let star = seq!['*'];
    let m = decimal(s.minute as nat);
    let h = decimal(s.hour as nat);
    match s.repeat {
        Repeat::Hourly => seq![zero, m, star, star, star, star],
        Repeat::Daily => seq![zero, m, h, star, star, star],
        Repeat::Weekdays => seq![zero, m, h, star, star, seq!['1', '-', '5']],
        Repeat::Weekly => seq![zero, m, h, star, star, decimal(s.weekday as nat)],
        Repeat::Monthly => seq![zero, m, h, decimal(s.day as nat), star, star],
    }
}

/// The cron line for a schedule, in the 6-field form.
pub open spec fn build_spec(s: Schedule) -> Seq<char> {
    spaced(build_tokens(s))
}

/// A schedule the sheet can offer: a five-minute slot, a real hour, a day
/// of the month and a weekday from Sunday to Saturday.
pub open spec fn buildable(s: Schedule) -> bool {
    &&& s.minute % 5 == 0
    &&& s.minute <= 55
    &&& s.hour <= 23
    &&& 1 <= s.day <= 31
    &&& s.weekday <= 6
}

/// `s` with every field its repeat does not read put back to the default.
pub open spec fn canonical(s: Schedule) -> Schedule {
    let d = default_schedule();
    Schedule {
        repeat: s.repeat,
        minute: s.minute,
        hour: if s.repeat is Hourly {
            d.hour
        } else {
            s.hour
        },
        day: if s.repeat is Monthly {
            s.day
        } else {
            d.day
        },
        weekday: if s.repeat is Weekly {
            s.weekday
        } else {
            d.weekday
        },
    }
}

/// `{n:02}`.
pub open spec fn two_digits(n: nat) -> Seq<char> {
    if n < 10 {
        seq!['0'] + decimal(n)
    } else {
        decimal(n)
    }
}

pub open spec fn twelve_hour_spec(hour: u8) -> (u8, Seq<char>) {
    if hour == 0 {
        (12, "AM"@)
    } else if hour <= 11 {
        (hour, "AM"@)
    } else if hour == 12 {
        (12, "PM"@)
    } else {
        ((hour - 12) as u8, "PM"@)
    }
}

pub open spec fn clock_spec(hour: u8, minute: u8) -> Seq<char> {
    let (h, meridiem) = twelve_hour_spec(hour);
    decimal(h as nat) + seq![':'] + two_digits(minute as nat) + seq![' '] + meridiem
}

pub open spec fn hour_label_spec(hour: u8) -> Seq<char> {
    let (h, meridiem) = twelve_hour_spec(hour);
    decimal(h as nat) + seq![' '] + meridiem
}

pub open spec fn minute_label_spec(minute: u8) -> Seq<char> {
    seq![':'] + two_digits(minute as nat)
}

pub open spec fn weekday_name_spec(weekday: u8) -> Seq<char> {
    if weekday == 1 {
        "Monday"@
    } else if weekday == 2 {
        "Tuesday"@
    } else if weekday == 3 {
        "Wednesday"@
    } else if weekday == 4 {
        "Thursday"@
    } else if weekday == 5 {
        "Friday"@
    } else if weekday == 6 {
        "Saturday"@
    } else {
        "Sunday"@
    }
}

pub open spec fn ordinal_suffix(day: u8) -> Seq<char> {
    if 11 <= day % 100 <= 13 {
        "th"@
    } else if day % 10 == 1 {
        "st"@
    } else if day % 10 == 2 {
        "nd"@
    } else if day % 10 == 3 {
        "rd"@
    } else {
        "th"@
    }
}

pub open spec fn ordinal_spec(day: u8) -> Seq<char> {
    decimal(day as nat) + ordinal_suffix(day)
}

pub open spec fn describe_spec(s: Schedule) -> Seq<char> {
    let at = clock_spec(s.hour, s.minute);
    match s.repeat {
        Repeat::Hourly => if s.minute == 0 {
            "Runs every hour, on the hour"@
        } else {
            "Runs every hour at "@ + minute_label_spec(s.minute)
        },
        Repeat::Daily => "Runs every day at "@ + at,
        Repeat::Weekdays => "Runs every weekday at "@ + at,
        Repeat::Weekly => "Runs every "@ + weekday_name_spec(s.weekday) + " at "@ + at,
        Repeat::Monthly => "Runs on the "@ + ordinal_spec(s.day) + " of every month at "@ + at,
    }
}

pub open spec fn summary_spec(cron: Seq<char>) -> Seq<char> {
    match parse_spec(cron) {
        Some(s) => describe_spec(s),
        None => "Runs on a schedule"@,
    }
}

// ---- executable ---------------------------------------------------------

/// `field` is exactly the one character `c`.
fn is_char_field(field: &Vec<char>, c: char) -> (b: bool)
    ensures
        b == (field@ == seq![c]),
{
    if field.len() == 1 && field[0] == c {
        assert(field@ =~= seq![c]);
        true
    } else {
        false
    }
}

fn is_mon_to_fri(field: &Vec<char>) -> (b: bool)
    ensures
        b == (field@ == seq!['1', '-', '5']),
{
    if field.len() == 3 && field[0] == '1' && field[1] == '-' && field[2] == '5' {
        assert(field@ =~= seq!['1', '-', '5']);
        true
    } else {
        false
    }
}

/// `u8::from_str` over characters.
fn parse_u8_chars(f: &Vec<char>) -> (r: Option<u8>)
    ensures
        r == parse_u8(f@),
{
    match crate::text::parse_bounded(f, 255) {
        Some(v) => Some(v as u8),
        None => None,
    }
}

/// A cron field that is a plain number in `min..=max`, or `None` for
/// anything with a `*`, a `/`, a `,` or a name in it.
pub fn number(field: &Vec<char>, min: u8, max: u8) -> (r: Option<u8>)
    ensures
        r == number_spec(field@, min, max),
{
    match parse_u8_chars(field) {
        Some(v) => if min <= v && v <= max {
            Some(v)
        } else {
            None
        },
        None => None,
    }
}

fn star_or(field: &Vec<char>, min: u8, max: u8) -> (r: Option<Option<u8>>)
    ensures
        r == star_or_number(field@, min, max),
{
    if is_char_field(field, '*') {
        Some(None)
    } else {
        match number(field, min, max) {
            Some(v) => Some(Some(v)),
            None => None,
        }
    }
}

fn dow_of(field: &Vec<char>) -> (r: Option<Dow>)
    ensures
        r == dow_spec(field@),
{
    if is_char_field(field, '*') {
        Some(Dow::Any)
    } else if is_mon_to_fri(field) {
        Some(Dow::MonToFri)
    } else {
        match number(field, 0, 7) {
            Some(v) => Some(Dow::One(v % 7)),
            None => None,
        }
    }
}

/// Read a cron expression, or answer `None` if this grammar cannot hold it.
///
/// `None` is not an error: it is the app declining to pretend it
/// understands a schedule set from somewhere with a full cron parser.
pub fn parse(cron: &str) -> (r: Option<Schedule>)
    ensures
        r == parse_spec(cron@),
{
    let chars = chars_of(cron);
    let fields = split_words(&chars);
    let ghost f = words(cron@);
    assert(fields@.len() == f.len());
    let n = fields.len();
    if n != 5 && n != 6 {
        return None;
    }
    let off: usize = if n == 5 {
        0
    } else {
        1
    };
    assert forall|k: int| 0 <= k < 5 implies #[trigger] fields@[k + off]@ == field_at(f, k) by {}
    if n == 6 && !is_char_field(&fields[0], '0') {
        return None;
    }
    if !is_char_field(&fields[off + 3], '*') {
        return None;
    }
    let minute = match number(&fields[off], 0, 59) {
        Some(m) => m,
        None => {
            return None;
        },
    };
    if minute % 5 != 0 {
        return None;
    }
    let hour = star_or(&fields[off + 1], 0, 23);
    let day = star_or(&fields[off + 2], 1, 31);
    let weekday = dow_of(&fields[off + 4]);
    let (hour, day, weekday) = match (hour, day, weekday) {
        (Some(h), Some(d), Some(w)) => (h, d, w),
        _ => {
            return None;
        },
    };
    let base = Schedule { minute, ..Schedule::default() };
    match (hour, day, weekday) {
        (None, None, Dow::Any) => Some(Schedule { repeat: Repeat::Hourly, ..base }),
        (Some(h), None, Dow::Any) => Some(Schedule { repeat: Repeat::Daily, hour: h, ..base }),
        (Some(h), None, Dow::MonToFri) => Some(
            Schedule { repeat: Repeat::Weekdays, hour: h, ..base },
        ),
        (Some(h), None, Dow::One(w)) => Some(
            Schedule { repeat: Repeat::Weekly, weekday: w, hour: h, ..base },
        ),
        (Some(h), Some(d), Dow::Any) => Some(
            Schedule { repeat: Repeat::Monthly, day: d, hour: h, ..base },
        ),
        _ => None,
    }
}

/// The cron expression for a schedule, in the 6-field form goose prefers.
pub fn build(schedule: Schedule) -> (s: String)
    ensures
        s@ == build_spec(schedule),
{
    let ghost t = build_tokens(schedule);
    let hour_tok = match schedule.repeat {
        Repeat::Hourly => char_string('*'),
        _ => decimal_string(schedule.hour as u64),
    };
    let day_tok = match schedule.repeat {
        Repeat::Monthly => decimal_string(schedule.day as u64),
        _ => char_string('*'),
    };
    let weekday_tok = match schedule.repeat {
        Repeat::Weekdays => {
            let mut w = String::new();
            push_char(&mut w, '1');
            push_char(&mut w, '-');
            push_char(&mut w, '5');
            assert(w@ =~= seq!['1', '-', '5']);
            w
        },
        Repeat::Weekly => decimal_string(schedule.weekday as u64),
        _ => char_string('*'),
    };
    assert(hour_tok@ == t[2]);
    assert(day_tok@ == t[3]);
    assert(weekday_tok@ == t[5]);
    let mut parts: Vec<String> = Vec::new();
    parts.push(char_string('0'));
    parts.push(decimal_string(schedule.minute as u64));
    parts.push(hour_tok);
    parts.push(day_tok);
    parts.push(char_string('*'));
    parts.push(weekday_tok);
    assert(parts@.map_values(|p: String| p@) =~= t);
    join_spaced(&parts)
}

/// `(hour on a twelve-hour clock, AM or PM)`.
pub fn twelve_hour(hour: u8) -> (r: (u8, &'static str))
    ensures
        r.0 == twelve_hour_spec(hour).0,
        r.1@ == twelve_hour_spec(hour).1,
{
    if hour == 0 {
        (12, "AM")
    } else if hour <= 11 {
        (hour, "AM")
    } else if hour == 12 {
        (12, "PM")
    } else {
        (hour - 12, "PM")
    }
}

fn push_two_digits(out: &mut String, n: u8)
    ensures
        final(out)@ == old(out)@ + two_digits(n as nat),
{
    if n < 10 {
        push_char(out, '0');
    }
    push_decimal(out, n as u64);
    assert(final(out)@ =~= old(out)@ + two_digits(n as nat));
}

/// `9:00 AM`.
pub fn clock(hour: u8, minute: u8) -> (s: String)
    ensures
        s@ == clock_spec(hour, minute),
{
    let (h, meridiem) = twelve_hour(hour);
    let mut s = String::new();
    push_decimal(&mut s, h as u64);
    push_char(&mut s, ':');
    push_two_digits(&mut s, minute);
    push_char(&mut s, ' ');
    push_str(&mut s, meridiem);
    assert(s@ =~= clock_spec(hour, minute));
    s
}

/// `9 AM` — the hour row's value and the labels in its choice list.
pub fn hour_label(hour: u8) -> (s: String)
    ensures
        s@ == hour_label_spec(hour),
{
    let (h, meridiem) = twelve_hour(hour);
    let mut s = String::new();
    push_decimal(&mut s, h as u64);
    push_char(&mut s, ' ');
    push_str(&mut s, meridiem);
    assert(s@ =~= hour_label_spec(hour));
    s
}

/// `:05`. The colon is what says this is a minute and not a count.
pub fn minute_label(minute: u8) -> (s: String)
    ensures
        s@ == minute_label_spec(minute),
{
    let mut s = String::new();
    push_char(&mut s, ':');
    push_two_digits(&mut s, minute);
    assert(s@ =~= minute_label_spec(minute));
    s
}

pub fn weekday_name(weekday: u8) -> (s: &'static str)
    ensures
        s@ == weekday_name_spec(weekday),
{
    if weekday == 1 {
        "Monday"
    } else if weekday == 2 {
        "Tuesday"
    } else if weekday == 3 {
        "Wednesday"
    } else if weekday == 4 {
        "Thursday"
    } else if weekday == 5 {
        "Friday"
    } else if weekday == 6 {
        "Saturday"
    } else {
        "Sunday"
    }
}

/// `1st`, `2nd`, `11th`, `21st`.
pub fn ordinal(day: u8) -> (s: String)
    ensures
        s@ == ordinal_spec(day),
{
    let ones = day % 10;
    let tens = day % 100;
    let suffix = if 11 <= tens && tens <= 13 {
        "th"
    } else if ones == 1 {
        "st"
    } else if ones == 2 {
        "nd"
    } else if ones == 3 {
        "rd"
    } else {
        "th"
    };
    let mut s = String::new();
    push_decimal(&mut s, day as u64);
    push_str(&mut s, suffix);
    assert(s@ =~= ordinal_spec(day));
    s
}

/// What a schedule does, as a sentence.
pub fn describe(schedule: Schedule) -> (s: String)
    ensures
        s@ == describe_spec(schedule),
{
    let at = clock(schedule.hour, schedule.minute);
    let mut s = String::new();
    match schedule.repeat {
        Repeat::Hourly => {
            if schedule.minute == 0 {
                push_str(&mut s, "Runs every hour, on the hour");
            } else {
                push_str(&mut s, "Runs every hour at ");
                let m = minute_label(schedule.minute);
                push_str(&mut s, m.as_str());
            }
        },
        Repeat::Daily => {
            push_str(&mut s, "Runs every day at ");
            push_str(&mut s, at.as_str());
        },
        Repeat::Weekdays => {
            push_str(&mut s, "Runs every weekday at ");
            push_str(&mut s, at.as_str());
        },
        Repeat::Weekly => {
            push_str(&mut s, "Runs every ");
            push_str(&mut s, weekday_name(schedule.weekday));
            push_str(&mut s, " at ");
            push_str(&mut s, at.as_str());
        },
        Repeat::Monthly => {
            push_str(&mut s, "Runs on the ");
            let o = ordinal(schedule.day);
            push_str(&mut s, o.as_str());
            push_str(&mut s, " of every month at ");
            push_str(&mut s, at.as_str());
        },
    }
    assert(s@ =~= describe_spec(schedule));
    s
}

/// What a stored cron string does, as a sentence — including one this
/// grammar cannot hold, which still gets words rather than its own text.
pub fn summary(cron: &str) -> (s: String)
    ensures
        s@ == summary_spec(cron@),
{
    match parse(cron) {
        Some(schedule) => describe(schedule),
        None => {
            let mut s = String::new();
            push_str(&mut s, "Runs on a schedule");
            assert(s@ =~= "Runs on a schedule"@);
            s
        },
    }
}

// ---- laws ---------------------------------------------------------------

proof fn lemma_decimal_token(n: nat)
    ensures
        decimal(n).len() > 0,
        no_ws(decimal(n)),
        decimal(n) != seq!['*'],
        decimal(n) != seq!['1', '-', '5'],
        decimal(n)[0] != '+',
{
    crate::text::lemma_decimal_reads_back(n);
    let d = decimal(n);
    assert(is_digit(d[0]));
    assert forall|i: int| 0 <= i < d.len() implies !crate::text::is_ws(#[trigger] d[i]) by {
        assert(is_digit(d[i]));
    }
    if d.len() == 3 {
        assert(is_digit(d[1]));
    }
}

proof fn lemma_number_of_decimal(n: u8, min: u8, max: u8)
    requires
        min <= n <= max,
    ensures
        number_spec(decimal(n as nat), min, max) == Some(n),
{
    crate::text::lemma_decimal_reads_back(n as nat);
    lemma_decimal_token(n as nat);
}

/// Anything the sheet can build, it reads back as the same choices: the
/// fields its repeat writes come back as they were, and the ones it does not
/// write come back as the defaults.
pub proof fn law_build_then_parse(s: Schedule)
    requires
        buildable(s),
    ensures
        parse_spec(build_spec(s)) == Some(canonical(s)),
{
    let t = build_tokens(s);
    lemma_decimal_token(s.minute as nat);
    lemma_decimal_token(s.hour as nat);
    lemma_decimal_token(s.day as nat);
    lemma_decimal_token(s.weekday as nat);
    assert forall|k: int| 0 <= k < t.len() implies (#[trigger] t[k]).len() > 0 && no_ws(t[k]) by {
        if t[k] == seq!['1', '-', '5'] {
            assert(t[k][0] == '1' && t[k][1] == '-' && t[k][2] == '5');
        }
    }
    crate::text::lemma_words_of_spaced(t);
    let f = words(build_spec(s));
    assert(f == t);
    lemma_number_of_decimal(s.minute, 0, 59);
    lemma_number_of_decimal(s.hour, 0, 23);
    lemma_number_of_decimal(s.day, 1, 31);
    lemma_number_of_decimal(s.weekday, 0, 7);
    assert(field_at(f, 3) == seq!['*']);
    assert(seq!['1', '-', '5'] != seq!['*']) by {
        assert(seq!['1', '-', '5'].len() != seq!['*'].len());
    }
}

/// Every schedule `parse` reads is one the sheet can build, with nothing
/// set that its repeat does not read — so building it and reading it back
/// gives the same schedule.
pub proof fn law_parse_then_build(cron: Seq<char>)
    ensures
        parse_spec(cron) matches Some(s) ==> {
            &&& buildable(s)
            &&& canonical(s) == s
            &&& parse_spec(build_spec(s)) == Some(s)
        },
{
    if let Some(s) = parse_spec(cron) {
        assert(buildable(s));
        assert(canonical(s) == s);
        law_build_then_parse(s);
    }
}

/// The days of the week are named Sunday for 0 through Saturday for 6, and
/// no two of them alike.
pub proof fn law_each_weekday_has_its_own_name(a: u8, b: u8)
    ensures
        weekday_name_spec(0) == "Sunday"@,
        weekday_name_spec(6) == "Saturday"@,
        a <= 6 && b <= 6 && a != b ==> weekday_name_spec(a) != weekday_name_spec(b),
{
    reveal_strlit("Sunday");
    reveal_strlit("Monday");
    reveal_strlit("Tuesday");
    reveal_strlit("Wednesday");
    reveal_strlit("Thursday");
    reveal_strlit("Friday");
    reveal_strlit("Saturday");
    if a <= 6 && b <= 6 && a != b {
        let (x, y) = (weekday_name_spec(a), weekday_name_spec(b));
        if x.len() == y.len() {
            assert(x[0] != y[0] || x[1] != y[1]);
        }
    }
}

/// A weekly schedule's description names its day: two weekly schedules at
/// the same time on different days never read the same.
pub proof fn law_a_weekly_description_names_its_day(s: Schedule, t: Schedule)
    requires
        s.repeat == Repeat::Weekly,
        t.repeat == Repeat::Weekly,
        s.hour == t.hour,
        s.minute == t.minute,
        s.weekday <= 6,
        t.weekday <= 6,
        s.weekday != t.weekday,
    ensures
        describe_spec(s) != describe_spec(t),
{
    law_each_weekday_has_its_own_name(s.weekday, t.weekday);
    let (x, y) = (weekday_name_spec(s.weekday), weekday_name_spec(t.weekday));
    let pre = "Runs every "@;
    let post = " at "@ + clock_spec(s.hour, s.minute);
    if describe_spec(s) == describe_spec(t) {
        assert(describe_spec(s) == pre + x + post);
        assert(describe_spec(t) == pre + y + post);
        assert(x.len() == y.len());
        assert(x =~= (pre + x + post).subrange(pre.len() as int, (pre.len() + x.len()) as int));
        assert(y =~= (pre + y + post).subrange(pre.len() as int, (pre.len() + y.len()) as int));
    }
}

} // verus!
