//! Minimal due-date parsing and rendering.
//!
//! Accepts the common forms a personal task manager needs: `today`,
//! `tomorrow`, `YYYY-MM-DD`, `MM-DD` (current year implied), `DD.MM`
//! (current year implied) and `DD.MM.YYYY`. Anything else is a
//! structured error, so the command line can surface a useful hint.
//!
//! Rendering produces short human-readable labels for a list view, with
//! a severity on the side so that colours stay consistent.

use vstd::prelude::*;

use crate::calendar::{
    add_days, chrono_parse_date, days_between, format_date, iso_text, max_day, min_day, month_day_text,
    parse_date, weekday_abbrev, weekday_of, year_text, CalDate,
};
use crate::text::{
    chars_of, decimal, eq_chars, extend_chars, has_prefix, lower, lower_chars, push_decimal, string_of, trim,
    trim_chars,
};

verus! {

// ---------------------------------------------------------------------------
// Parsing
// ---------------------------------------------------------------------------

/// A `--due` argument none of the accepted forms matches.
#[derive(Debug, Clone, PartialEq)]
pub struct ParseDueError {
    pub input: String,
}

/// The decimal text of an integer, with a `-` when negative (`i32`'s
/// `Display`).
pub open spec fn int_text(n: int) -> Seq<char> {
    if n < 0 {
        seq!['-'] + decimal((-n) as nat)
    } else {
        decimal(n as nat)
    }
}

/// Appends `int_text(n)`.
pub fn push_int(v: &mut Vec<char>, n: i32)
    ensures
        final(v)@ == old(v)@ + int_text(n as int),
{
    if n < 0 {
        v.push('-');
        let m: i64 = 0 - (n as i64);
        push_decimal(v, m as u64);
        assert(final(v)@ =~= old(v)@ + int_text(n as int));
    } else {
        push_decimal(v, n as u64);
    }
}

/// The first of the explicit forms that `chrono` parses from the trimmed
/// input, as (year, month, day): `%Y-%m-%d`, `%d.%m.%Y`, then the
/// current-year shortcuts `MM-DD` and `DD.MM` (the current year joined to
/// the input).
pub open spec fn explicit_date(t: Seq<char>, year: int) -> Option<(int, int, int)> {
    let iso = chrono_parse_date(t, "%Y-%m-%d"@);
    let german = chrono_parse_date(t, "%d.%m.%Y"@);
    let month_day = chrono_parse_date(int_text(year) + seq!['-'] + t, "%Y-%m-%d"@);
    let day_month = chrono_parse_date(t + seq!['.'] + int_text(year), "%d.%m.%Y"@);
    if iso is Some {
        iso
    } else if german is Some {
        german
    } else if month_day is Some {
        month_day
    } else {
        day_month
    }
}

/// What the explicit forms give: the parsed date, or `None`.
pub open spec fn explicit_result(r: Option<CalDate>, t: Seq<char>, year: int) -> bool {
    match (r, explicit_date(t, year)) {
        (Some(x), Some((y, m, d))) => x.wf() && x.year == y && x.month == m && x.day == d,
        (None, None) => true,
        _ => false,
    }
}

/// Try the explicit date forms on the trimmed input `t`, with `year` as
/// the implied year of the shortcuts.
pub fn parse_explicit(t: &Vec<char>, year: i32) -> (r: Option<CalDate>)
    ensures
        explicit_result(r, t@, year as int),
{
    let ts = string_of(t);
    if let Some(d) = parse_date(ts.as_str(), "%Y-%m-%d") {
        return Some(d);
    }
    if let Some(d) = parse_date(ts.as_str(), "%d.%m.%Y") {
        return Some(d);
    }
    let mut md: Vec<char> = Vec::new();
    push_int(&mut md, year);
    md.push('-');
    extend_chars(&mut md, t);
    let ghost prefix = int_text(year as int) + seq!['-'];
    assert(md@ =~= prefix + t@);
    let mds = string_of(&md);
    if let Some(d) = parse_date(mds.as_str(), "%Y-%m-%d") {
        return Some(d);
    }
    let mut dm: Vec<char> = Vec::new();
    extend_chars(&mut dm, t);
    dm.push('.');
    let ghost mid = t@ + seq!['.'];
    push_int(&mut dm, year);
    assert(dm@ =~= mid + int_text(year as int));
    let dms = string_of(&dm);
    parse_date(dms.as_str(), "%d.%m.%Y")
}

/// The keyword days: `today` is 0 days ahead, `tomorrow` 1, both
/// compared after lowercasing.
pub open spec fn keyword_days(l: Seq<char>) -> Option<int> {
    if l == "today"@ {
        Some(0)
    } else if l == "tomorrow"@ {
        Some(1)
    } else {
        None
    }
}

/// What parsing `input` against `today` gives: the keyword's date (an
/// error carrying the input when that date lies outside the calendar
/// `chrono` represents), else the first explicit form that parses, else
/// an error carrying the input.
pub open spec fn parses_to(input: Seq<char>, today: CalDate, r: Result<CalDate, ParseDueError>) -> bool {
    match keyword_days(lower(trim(input))) {
        Some(k) => if min_day() <= today.days() + k <= max_day() {
            r matches Ok(d) && d.wf() && d.days() == today.days() + k
        } else {
            r matches Err(e) && e.input@ == input
        },
        None => match explicit_date(trim(input), today.year as int) {
            Some((y, m, dd)) => r matches Ok(d) && d.wf() && d.year == y && d.month == m && d.day
                == dd,
            None => r matches Err(e) && e.input@ == input,
        },
    }
}

/// Parse a `--due` argument against a reference `today`.
pub fn parse_due(input: &str, today: CalDate) -> (r: Result<CalDate, ParseDueError>)
    requires
        today.wf(),
    ensures
        parses_to(input@, today, r),
{
    let iv = chars_of(input);
    let t = trim_chars(&iv);
    let l = lower_chars(&t);
    let mut k: i64 = -1;
    if eq_chars(&l, &chars_of("today")) {
        k = 0;
    } else if eq_chars(&l, &chars_of("tomorrow")) {
        k = 1;
    }
    if k >= 0 {
        return match add_days(today, k) {
            Some(d) => Ok(d),
            None => Err(ParseDueError { input: input.to_owned() }),
        };
    }
    match parse_explicit(&t, today.year) {
        Some(d) => Ok(d),
        None => Err(ParseDueError { input: input.to_owned() }),
    }
}

impl ParseDueError {
    /// The error text shown to the user.
    pub fn message(&self) -> (r: String)
        ensures
            r@ == "cannot parse due date '"@ + self.input@
                + "': expected 'today', 'tomorrow', YYYY-MM-DD, MM-DD, DD.MM, or DD.MM.YYYY"@,
    {
        let mut v = chars_of("cannot parse due date '");
        extend_chars(&mut v, &chars_of(self.input.as_str()));
        extend_chars(
            &mut v,
            &chars_of("': expected 'today', 'tomorrow', YYYY-MM-DD, MM-DD, DD.MM, or DD.MM.YYYY"),
        );
        string_of(&v)
    }
}

// ---------------------------------------------------------------------------
// Rendering
// ---------------------------------------------------------------------------

/// Relative severity of a due date compared to today.
#[derive(Clone, Copy, Debug, PartialEq, Eq, Structural)]
pub enum DueSeverity {
    Overdue,
    Today,
    Soon,
    Later,
}

/// Label length mode. `Long` is the reader-friendly form (`today`,
/// `tomorrow`, `overdue 2d`); `Short` the terminal-friendly abbreviations
/// (`tod`, `tmw`, `-2d`). Weekday renderings are the same in both modes.
#[derive(Clone, Copy, Debug, PartialEq, Eq, Structural)]
pub enum LabelMode {
    Long,
    Short,
}

/// The label and severity of `due` seen from `today`. Dates beyond the
/// next six days always carry the year, except in `Short` mode for the
/// current year (`MM-DD`).
pub open spec fn render_spec(due: CalDate, today: CalDate, mode: LabelMode) -> (
    Seq<char>,
    DueSeverity,
) {
    let delta = due.days() - today.days();
    if delta < 0 {
        if mode is Long {
            ("overdue "@ + decimal((-delta) as nat) + seq!['d'], DueSeverity::Overdue)
        } else {
            (seq!['-'] + decimal((-delta) as nat) + seq!['d'], DueSeverity::Overdue)
        }
    } else if delta == 0 {
        (if mode is Long {
            "today"@
        } else {
            "tod"@
        }, DueSeverity::Today)
    } else if delta == 1 {
        (if mode is Long {
            "tomorrow"@
        } else {
            "tmw"@
        }, DueSeverity::Soon)
    } else if delta <= 6 {
        (weekday_abbrev(weekday_of(due.days())), DueSeverity::Soon)
    } else if mode is Short && due.year == today.year {
        (month_day_text(due), DueSeverity::Later)
    } else {
        (iso_text(due), DueSeverity::Later)
    }
}

/// Render a due date as a label, with its severity so that the caller
/// can colour it.
pub fn render_due(due: CalDate, today: CalDate, mode: LabelMode) -> (r: (String, DueSeverity))
    requires
        due.wf(),
        today.wf(),
    ensures
        r.0@ == render_spec(due, today, mode).0,
        r.1 == render_spec(due, today, mode).1,
{
    let delta = days_between(due, today);
    proof {
        crate::calendar::lemma_days_bounded(due);
        crate::calendar::lemma_days_bounded(today);
    }
    if delta < 0 {
        let n: i64 = 0 - delta;
        let mut v = match mode {
            LabelMode::Long => chars_of("overdue "),
            LabelMode::Short => {
                let mut m: Vec<char> = Vec::new();
                m.push('-');
                m
            },
        };
        let ghost head = v@;
        push_decimal(&mut v, n as u64);
        v.push('d');
        assert(v@ =~= head + decimal(n as nat) + seq!['d']);
        return (string_of(&v), DueSeverity::Overdue);
    }
    if delta == 0 {
        return match mode {
            LabelMode::Long => ("today".to_owned(), DueSeverity::Today),
            LabelMode::Short => ("tod".to_owned(), DueSeverity::Today),
        };
    }
    if delta == 1 {
        return match mode {
            LabelMode::Long => ("tomorrow".to_owned(), DueSeverity::Soon),
            LabelMode::Short => ("tmw".to_owned(), DueSeverity::Soon),
        };
    }
    if delta <= 6 {
        return (format_date(due, "%a"), DueSeverity::Soon);
    }
    match mode {
        LabelMode::Short => {
            if due.year == today.year {
                (format_date(due, "%m-%d"), DueSeverity::Later)
            } else {
                (format_date(due, "%Y-%m-%d"), DueSeverity::Later)
            }
        },
        LabelMode::Long => (format_date(due, "%Y-%m-%d"), DueSeverity::Later),
    }
}

/// Beyond the next six days a label carries the due date's year, except
/// a `Short` label for a date in today's year (`MM-DD`): a date in another
/// year, or any date in `Long` mode, is shown as its full ISO date, which
/// starts with its year.
pub proof fn law_later_labels_carry_the_year(due: CalDate, today: CalDate, mode: LabelMode)
    requires
        due.days() > today.days() + 6,
    ensures
        due.year != today.year || mode is Long ==> render_spec(due, today, mode).0 == iso_text(due)
            && has_prefix(render_spec(due, today, mode).0, year_text(due.year as int)),
        due.year == today.year && mode is Short ==> render_spec(due, today, mode).0
            == month_day_text(due),
{
    let y = year_text(due.year as int);
    assert(iso_text(due).take(y.len() as int) =~= y);
}

/// The severity of a due date does not depend on the label mode.
pub proof fn law_severity_independent_of_mode(due: CalDate, today: CalDate)
    ensures
        render_spec(due, today, LabelMode::Long).1 == render_spec(due, today, LabelMode::Short).1,
{
}

/// The severity follows the calendar: overdue before today, today on
/// today, soon within the next six days, later after that.
pub proof fn law_severity_follows_the_calendar(due: CalDate, today: CalDate, mode: LabelMode)
    ensures
        render_spec(due, today, mode).1 == (if due.days() < today.days() {
            DueSeverity::Overdue
        } else if due.days() == today.days() {
            DueSeverity::Today
        } else if due.days() <= today.days() + 6 {
            DueSeverity::Soon
        } else {
            DueSeverity::Later
        }),
{
}

} // verus!
