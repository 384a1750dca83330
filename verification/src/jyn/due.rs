//! Due-date parsing and rendering for jyn.
//!
//! Accepts `today`, `tomorrow`, weekday names (`fri`, `friday`,
//! `next monday`), relative offsets (`+3d`, `3d`, `+1w`, `2w`),
//! `YYYY-MM-DD`, `MM-DD` and `DD.MM` (current year implied) and
//! `DD.MM.YYYY`.
//!
//! Weekday names always resolve to the next matching day in the future,
//! never today (so `friday` on a Friday means the following Friday); the
//! optional `next ` prefix is a synonym. Anything else is a structured
//! error. Rendering is shared with jot.

use vstd::prelude::*;

use crate::calendar::{
    add_days, english_weekday, max_day, min_day, weekday_from_monday, weekday_of, CalDate,
};
use crate::jot::due::{explicit_date, keyword_days, parse_explicit};
use crate::text::{
    chars_of, decimal, eq_chars, is_digit, extend_chars, has_prefix, lower, lower_chars, parse_u32, parse_u32_exec,
    starts_with, string_of, subvec, trim, trim_chars, ascii_lower, is_ascii_chars,
    lemma_trim_noop,
};

pub use crate::jot::due::{render_due, render_spec, DueSeverity, LabelMode};

verus! {

/// A `--due` argument none of the accepted forms matches.
#[derive(Debug, Clone, PartialEq)]
pub struct ParseDueError {
    pub input: String,
}

// ---------------------------------------------------------------------------
// The relative forms
// ---------------------------------------------------------------------------

/// The weekday (Monday is 0) of a full or three-letter English name.
pub open spec fn weekday_index(s: Seq<char>) -> Option<int> {
    if s == "monday"@ || s == "mon"@ {
        Some(0)
    } else if s == "tuesday"@ || s == "tue"@ {
        Some(1)
    } else if s == "wednesday"@ || s == "wed"@ {
        Some(2)
    } else if s == "thursday"@ || s == "thu"@ {
        Some(3)
    } else if s == "friday"@ || s == "fri"@ {
        Some(4)
    } else if s == "saturday"@ || s == "sat"@ {
        Some(5)
    } else if s == "sunday"@ || s == "sun"@ {
        Some(6)
    } else {
        None
    }
}

/// The weekday name in a lowercased input: an optional `next ` prefix
/// dropped, then trimmed.
pub open spec fn weekday_name(l: Seq<char>) -> Seq<char> {
    if has_prefix(l, "next "@) {
        trim(l.skip(5))
    } else {
        trim(l)
    }
}

/// Days from a day of weekday `today` to the next day of weekday
/// `target`: 1 to 7, never 0.
pub open spec fn days_ahead(target: int, today: int) -> int {
    let raw = (target + 7 - today) % 7;
    if raw == 0 {
        7
    } else {
        raw
    }
}

/// An offset with its optional leading `+` dropped.
pub open spec fn offset_body(l: Seq<char>) -> Seq<char> {
    if l.len() > 0 && l[0] == '+' {
        l.skip(1)
    } else {
        l
    }
}

/// Whether the offset's last char can be split off at a byte boundary
/// (it is ASCII, or there is none).
pub open spec fn offset_splits(l: Seq<char>) -> bool {
    let b = offset_body(l);
    b.len() == 0 || (b.last() as u32) < 0x80
}

/// The days of an offset `N` + unit: `d` is `N` days, `w` is `N` weeks;
/// `N` as `str::parse::<u32>` reads it.
pub open spec fn offset_days(l: Seq<char>) -> Option<int> {
    let b = offset_body(l);
    if b.len() == 0 {
        None
    } else {
        match parse_u32(b.drop_last()) {
            Some(n) => if b.last() == 'd' {
                Some(n as int)
            } else if b.last() == 'w' {
                Some(7 * n)
            } else {
                None
            },
            None => None,
        }
    }
}

/// The days after today that a relative form names, tried in order:
/// keywords, weekday names, offsets. `None` when the input is none of
/// them (or its offset cannot be split).
pub open spec fn relative_days(l: Seq<char>, today_weekday: int) -> Option<int> {
    match keyword_days(l) {
        Some(k) => Some(k),
        None => match weekday_index(weekday_name(l)) {
            Some(w) => Some(days_ahead(w, today_weekday)),
            None => if offset_splits(l) {
                offset_days(l)
            } else {
                None
            },
        },
    }
}

/// The inputs whose offset, if they look like one, can be split before
/// its last char (the unit) without cutting inside a char.
pub open spec fn due_in_bounds(input: Seq<char>, today: CalDate) -> bool {
    let l = lower(trim(input));
    relative_days(l, weekday_of(today.days())) is Some || offset_splits(l)
}

/// What parsing `input` against `today` gives: a relative form's date
/// (an error carrying the input when that date lies outside the calendar
/// `chrono` represents), else the first explicit form that parses, else
/// an error carrying the input.
pub open spec fn parses_to(input: Seq<char>, today: CalDate, r: Result<CalDate, ParseDueError>) -> bool {
    match relative_days(lower(trim(input)), weekday_of(today.days())) {
        Some(k) => if min_day() <= today.days() + k <= max_day() {
            r matches Ok(d) && d.wf() && d.days() == today.days() + k
        } else {
            r matches Err(e) && e.input@ == input
        },
        None => match explicit_date(trim(input), today.year as int) {
            Some((y, m, dd)) => r matches Ok(d) && d.wf() && d.year == y && d.month == m && d.day
                == dd,
            None => r matches Err(e) && e.input@ == input,
        },
    }
}

fn is_name(s: &Vec<char>, long: &str, short: &str) -> (r: bool)
    ensures
        r == (s@ == long@ || s@ == short@),
{
    eq_chars(s, &chars_of(long)) || eq_chars(s, &chars_of(short))
}

/// Map a full or three-letter weekday name to its index (Monday is 0).
fn weekday_from_name(s: &Vec<char>) -> (r: Option<u32>)
    ensures
        match r {
            Some(w) => weekday_index(s@) == Some(w as int),
            None => weekday_index(s@) is None,
        },
{
    if is_name(s, "monday", "mon") {
        Some(0)
    } else if is_name(s, "tuesday", "tue") {
        Some(1)
    } else if is_name(s, "wednesday", "wed") {
        Some(2)
    } else if is_name(s, "thursday", "thu") {
        Some(3)
    } else if is_name(s, "friday", "fri") {
        Some(4)
    } else if is_name(s, "saturday", "sat") {
        Some(5)
    } else if is_name(s, "sunday", "sun") {
        Some(6)
    } else {
        None
    }
}

/// The days ahead of a weekday name, strictly after today.
fn parse_weekday(l: &Vec<char>, today: CalDate) -> (r: Option<i64>)
    requires
        today.wf(),
    ensures
        match r {
            Some(k) => weekday_index(weekday_name(l@)) matches Some(w) && k == days_ahead(
                w,
                weekday_of(today.days()),
            ),
            None => weekday_index(weekday_name(l@)) is None,
        },
{
    let name = if starts_with(l, &chars_of("next ")) {
        proof {
            reveal_strlit("next ");
        }
        trim_chars(&subvec(l, 5, l.len()))
    } else {
        trim_chars(l)
    };
    proof {
        if has_prefix(l@, "next "@) {
            assert(l@.subrange(5, l@.len() as int) =~= l@.skip(5));
        }
    }
    let target = match weekday_from_name(&name) {
        Some(w) => w,
        None => {
            return None;
        },
    };
    let today_idx = weekday_from_monday(today);
    let raw = (target + 7 - today_idx) % 7;
    let ahead = if raw == 0 {
        7
    } else {
        raw
    };
    Some(ahead as i64)
}

/// Whether the offset's last char can be split off.
fn offset_splits_exec(l: &Vec<char>) -> (r: bool)
    ensures
        r == offset_splits(l@),
{
    let n = l.len();
    let start: usize = if n > 0 && l[0] == '+' {
        1
    } else {
        0
    };
    if start >= n {
        return true;
    }
    (l[n - 1] as u32) < 0x80
}

/// The days of an offset like `+3d`, `3d`, `+1w` or `2w`.
fn parse_offset(l: &Vec<char>) -> (r: Option<i64>)
    ensures
        match r {
            Some(k) => offset_days(l@) == Some(k as int),
            None => offset_days(l@) is None,
        },
{
    let n = l.len();
    let body = if n > 0 && l[0] == '+' {
        subvec(l, 1, n)
    } else {
        subvec(l, 0, n)
    };
    assert(body@ =~= offset_body(l@));
    let m = body.len();
    if m == 0 {
        return None;
    }
    let unit = body[m - 1];
    let num = subvec(&body, 0, m - 1);
    assert(num@ =~= body@.drop_last());
    match parse_u32_exec(&num) {
        Some(k) => {
            if unit == 'd' {
                Some(k as i64)
            } else if unit == 'w' {
                Some(7 * (k as i64))
            } else {
                None
            }
        },
        None => None,
    }
}

/// The days after today of a relative form, if the lowercased input is
/// one.
fn relative_days_exec(l: &Vec<char>, today: CalDate) -> (r: Option<i64>)
    requires
        today.wf(),
    ensures
        match r {
            Some(k) => relative_days(l@, weekday_of(today.days())) == Some(k as int),
            None => relative_days(l@, weekday_of(today.days())) is None,
        },
{
    if eq_chars(l, &chars_of("today")) {
        return Some(0);
    }
    if eq_chars(l, &chars_of("tomorrow")) {
        return Some(1);
    }
    if let Some(k) = parse_weekday(l, today) {
        return Some(k);
    }
    if !offset_splits_exec(l) {
        return None;
    }
    parse_offset(l)
}

/// Parse a `--due` argument against a reference `today`.
pub fn parse_due(input: &str, today: CalDate) -> (r: Result<CalDate, ParseDueError>)
    requires
        today.wf(),
        due_in_bounds(input@, today),
    ensures
        parses_to(input@, today, r),
{
    let iv = chars_of(input);
    let t = trim_chars(&iv);
    let l = lower_chars(&t);
    if let Some(k) = relative_days_exec(&l, today) {
        return match add_days(today, k) {
            Some(d) => Ok(d),
            None => Err(ParseDueError { input: input.to_owned() }),
        };
    }
    match parse_explicit(&t, today.year) {
        Some(d) => Ok(d),
        None => Err(ParseDueError { input: input.to_owned() }),
    }
}

/// `parse_due` on the inputs where it does not split an offset inside a
/// char; `None` on the others.
pub fn parse_due_checked(input: &str, today: CalDate) -> (r: Option<Result<CalDate, ParseDueError>>)
    requires
        today.wf(),
    ensures
        r is Some <==> due_in_bounds(input@, today),
        r matches Some(res) ==> parses_to(input@, today, res),
{
    let iv = chars_of(input);
    let t = trim_chars(&iv);
    let l = lower_chars(&t);
    if relative_days_exec(&l, today).is_none() && !offset_splits_exec(&l) {
        return None;
    }
    Some(parse_due(input, today))
}

impl ParseDueError {
    /// The error text shown to the user.
    pub fn message(&self) -> (r: String)
        ensures
            r@ == "cannot parse due date '"@ + self.input@
                + "': expected 'today', 'tomorrow', a weekday (e.g. 'fri', 'next monday'), an offset (e.g. '+3d', '2w'), YYYY-MM-DD, MM-DD, DD.MM, or DD.MM.YYYY"@,
    {
        let mut v = chars_of("cannot parse due date '");
        extend_chars(&mut v, &chars_of(self.input.as_str()));
        extend_chars(
            &mut v,
            &chars_of(
                "': expected 'today', 'tomorrow', a weekday (e.g. 'fri', 'next monday'), an offset (e.g. '+3d', '2w'), YYYY-MM-DD, MM-DD, DD.MM, or DD.MM.YYYY",
            ),
        );
        string_of(&v)
    }
}

// ---------------------------------------------------------------------------
// Laws
// ---------------------------------------------------------------------------

/// A weekday name resolves to the first day strictly after today that
/// falls on that weekday: between one and seven days ahead, on the named
/// weekday, with no earlier day after today on it.
pub proof fn law_weekday_is_next_future_match(l: Seq<char>, today: CalDate)
    requires
        keyword_days(l) is None,
        weekday_index(weekday_name(l)) is Some,
    ensures
        relative_days(l, weekday_of(today.days())) matches Some(k) && 1 <= k <= 7 && weekday_of(
            today.days() + k,
        ) == weekday_index(weekday_name(l)).unwrap() && forall|j: int|
            1 <= j < k ==> #[trigger] weekday_of(today.days() + j) != weekday_index(
                weekday_name(l),
            ).unwrap(),
{
    let w = weekday_index(weekday_name(l)).unwrap();
    let t = today.days();
    let a = weekday_of(t);
    let k = days_ahead(w, a);
    assert(0 <= w < 7);
    assert forall|j: int| 0 <= j <= 7 implies #[trigger] weekday_of(t + j) == (a + j) % 7 by {
        vstd::arithmetic::div_mod::lemma_add_mod_noop(t + 3, j, 7);
    }
    assert(weekday_of(t + k) == (a + k) % 7);
}

/// An offset is the number of days it names after today: `N` or `+N`
/// followed by `d` is `N` days, followed by `w` is `N` weeks.
pub proof fn law_offsets_count_days_and_weeks(n: u32, plus: bool, unit: char, today_weekday: int)
    requires
        unit == 'd' || unit == 'w',
    ensures
        relative_days(
            (if plus {
                seq!['+']
            } else {
                Seq::empty()
            }) + decimal(n as nat) + seq![unit],
            today_weekday,
        ) == Some(
            if unit == 'd' {
                n as int
            } else {
                7 * n
            },
        ),
{
    let digits = decimal(n as nat);
    crate::text::lemma_decimal_reads_back(n as nat);
    let head: Seq<char> = if plus {
        seq!['+']
    } else {
        Seq::empty()
    };
    let l = head + digits + seq![unit];
    let c = l[0];
    assert(c == '+' || is_digit(c)) by {
        if !plus {
            assert(l[0] == digits[0]);
        }
    }
    assert(!crate::text::is_ws(c) && !crate::text::is_ws(l[l.len() - 1]));
    crate::text::lemma_trim_noop(l);
    reveal_strlit("today");
    reveal_strlit("tomorrow");
    reveal_strlit("next ");
    reveal_strlit("monday");
    reveal_strlit("mon");
    reveal_strlit("tuesday");
    reveal_strlit("tue");
    reveal_strlit("wednesday");
    reveal_strlit("wed");
    reveal_strlit("thursday");
    reveal_strlit("thu");
    reveal_strlit("friday");
    reveal_strlit("fri");
    reveal_strlit("saturday");
    reveal_strlit("sat");
    reveal_strlit("sunday");
    reveal_strlit("sun");
    assert(!has_prefix(l, "next "@)) by {
        if has_prefix(l, "next "@) {
            assert(l.take(5)[0] == l[0]);
        }
    }
    assert(weekday_name(l) == l);
    assert(keyword_days(l) is None) by {
        if l == "today"@ || l == "tomorrow"@ {
            assert(l[0] == 't');
        }
    }
    assert(weekday_index(l) is None) by {
        if weekday_index(l) is Some {
            assert(l[0] == 'm' || l[0] == 't' || l[0] == 'w' || l[0] == 'f' || l[0] == 's');
        }
    }
    let body = offset_body(l);
    assert(body =~= digits + seq![unit]) by {
        if plus {
            assert(l.skip(1) =~= digits + seq![unit]);
        } else {
            assert(l =~= digits + seq![unit]);
        }
    }
    assert(body.drop_last() =~= digits);
    assert(parse_u32(digits) == Some(n)) by {
        assert(digits[0] != '+') by {
            assert(is_digit(digits[0]));
        }
    }
}

/// The full and three-letter names of weekday `k`, as typed: lowercase
/// letters, none of them a keyword or starting with `next `.
proof fn lemma_weekday_word(k: int, short: bool, w: Seq<char>)
    requires
        0 <= k < 7,
        w == (if short {
            english_weekday(k).take(3)
        } else {
            english_weekday(k)
        }),
    ensures
        w.len() >= 3,
        w.len() != 5,
        w.len() == 8 ==> w[1] != 'o',
        w[0] != 'n',
        forall|i: int| 0 <= i < w.len() ==> 'a' <= #[trigger] w[i] && w[i] <= 'z',
        weekday_index(w) == Some(k),
{
    reveal_strlit("monday");
    reveal_strlit("mon");
    reveal_strlit("tuesday");
    reveal_strlit("tue");
    reveal_strlit("wednesday");
    reveal_strlit("wed");
    reveal_strlit("thursday");
    reveal_strlit("thu");
    reveal_strlit("friday");
    reveal_strlit("fri");
    reveal_strlit("saturday");
    reveal_strlit("sat");
    reveal_strlit("sunday");
    reveal_strlit("sun");
    if k == 0 && short {
        reveal_strlit("monday");
        reveal_strlit("mon");
        assert(w =~= seq!['m', 'o', 'n']);
        assert(w == "mon"@);
        assert forall|i: int| 0 <= i < w.len() implies 'a' <= #[trigger] w[i] && w[i] <= 'z' by {
            if i == 0 {} else if i == 1 {} else if i == 2 {}
        }
    }
    if k == 0 && !short {
        reveal_strlit("monday");
        reveal_strlit("mon");
        assert(w =~= seq!['m', 'o', 'n', 'd', 'a', 'y']);
        assert(w == "monday"@);
        assert forall|i: int| 0 <= i < w.len() implies 'a' <= #[trigger] w[i] && w[i] <= 'z' by {
            if i == 0 {} else if i == 1 {} else if i == 2 {} else if i == 3 {} else if i == 4 {} else if i == 5 {}
        }
    }
    if k == 1 && short {
        reveal_strlit("tuesday");
        reveal_strlit("tue");
        assert(w =~= seq!['t', 'u', 'e']);
        assert(w == "tue"@);
        assert forall|i: int| 0 <= i < w.len() implies 'a' <= #[trigger] w[i] && w[i] <= 'z' by {
            if i == 0 {} else if i == 1 {} else if i == 2 {}
        }
    }
    if k == 1 && !short {
        reveal_strlit("tuesday");
        reveal_strlit("tue");
        assert(w =~= seq!['t', 'u', 'e', 's', 'd', 'a', 'y']);
        assert(w == "tuesday"@);
        assert forall|i: int| 0 <= i < w.len() implies 'a' <= #[trigger] w[i] && w[i] <= 'z' by {
            if i == 0 {} else if i == 1 {} else if i == 2 {} else if i == 3 {} else if i == 4 {} else if i == 5 {} else if i == 6 {}
        }
    }
    if k == 2 && short {
        reveal_strlit("wednesday");
        reveal_strlit("wed");
        assert(w =~= seq!['w', 'e', 'd']);
        assert(w == "wed"@);
        assert forall|i: int| 0 <= i < w.len() implies 'a' <= #[trigger] w[i] && w[i] <= 'z' by {
            if i == 0 {} else if i == 1 {} else if i == 2 {}
        }
    }
    if k == 2 && !short {
        reveal_strlit("wednesday");
        reveal_strlit("wed");
        assert(w =~= seq!['w', 'e', 'd', 'n', 'e', 's', 'd', 'a', 'y']);
        assert(w == "wednesday"@);
        assert forall|i: int| 0 <= i < w.len() implies 'a' <= #[trigger] w[i] && w[i] <= 'z' by {
            if i == 0 {} else if i == 1 {} else if i == 2 {} else if i == 3 {} else if i == 4 {} else if i == 5 {} else if i == 6 {} else if i == 7 {} else if i == 8 {}
        }
    }
    if k == 3 && short {
        reveal_strlit("thursday");
        reveal_strlit("thu");
        assert(w =~= seq!['t', 'h', 'u']);
        assert(w == "thu"@);
        assert forall|i: int| 0 <= i < w.len() implies 'a' <= #[trigger] w[i] && w[i] <= 'z' by {
            if i == 0 {} else if i == 1 {} else if i == 2 {}
        }
    }
    if k == 3 && !short {
        reveal_strlit("thursday");
        reveal_strlit("thu");
        assert(w =~= seq!['t', 'h', 'u', 'r', 's', 'd', 'a', 'y']);
        assert(w == "thursday"@);
        assert forall|i: int| 0 <= i < w.len() implies 'a' <= #[trigger] w[i] && w[i] <= 'z' by {
            if i == 0 {} else if i == 1 {} else if i == 2 {} else if i == 3 {} else if i == 4 {} else if i == 5 {} else if i == 6 {} else if i == 7 {}
        }
    }
    if k == 4 && short {
        reveal_strlit("friday");
        reveal_strlit("fri");
        assert(w =~= seq!['f', 'r', 'i']);
        assert(w == "fri"@);
        assert forall|i: int| 0 <= i < w.len() implies 'a' <= #[trigger] w[i] && w[i] <= 'z' by {
            if i == 0 {} else if i == 1 {} else if i == 2 {}
        }
    }
    if k == 4 && !short {
        reveal_strlit("friday");
        reveal_strlit("fri");
        assert(w =~= seq!['f', 'r', 'i', 'd', 'a', 'y']);
        assert(w == "friday"@);
        assert forall|i: int| 0 <= i < w.len() implies 'a' <= #[trigger] w[i] && w[i] <= 'z' by {
            if i == 0 {} else if i == 1 {} else if i == 2 {} else if i == 3 {} else if i == 4 {} else if i == 5 {}
        }
    }
    if k == 5 && short {
        reveal_strlit("saturday");
        reveal_strlit("sat");
        assert(w =~= seq!['s', 'a', 't']);
        assert(w == "sat"@);
        assert forall|i: int| 0 <= i < w.len() implies 'a' <= #[trigger] w[i] && w[i] <= 'z' by {
            if i == 0 {} else if i == 1 {} else if i == 2 {}
        }
    }
    if k == 5 && !short {
        reveal_strlit("saturday");
        reveal_strlit("sat");
        assert(w =~= seq!['s', 'a', 't', 'u', 'r', 'd', 'a', 'y']);
        assert(w == "saturday"@);
        assert forall|i: int| 0 <= i < w.len() implies 'a' <= #[trigger] w[i] && w[i] <= 'z' by {
            if i == 0 {} else if i == 1 {} else if i == 2 {} else if i == 3 {} else if i == 4 {} else if i == 5 {} else if i == 6 {} else if i == 7 {}
        }
    }
    if k == 6 && short {
        reveal_strlit("sunday");
        reveal_strlit("sun");
        assert(w =~= seq!['s', 'u', 'n']);
        assert(w == "sun"@);
        assert forall|i: int| 0 <= i < w.len() implies 'a' <= #[trigger] w[i] && w[i] <= 'z' by {
            if i == 0 {} else if i == 1 {} else if i == 2 {}
        }
    }
    if k == 6 && !short {
        reveal_strlit("sunday");
        reveal_strlit("sun");
        assert(w =~= seq!['s', 'u', 'n', 'd', 'a', 'y']);
        assert(w == "sunday"@);
        assert forall|i: int| 0 <= i < w.len() implies 'a' <= #[trigger] w[i] && w[i] <= 'z' by {
            if i == 0 {} else if i == 1 {} else if i == 2 {} else if i == 3 {} else if i == 4 {} else if i == 5 {}
        }
    }
}

/// A weekday name, in full or by its first three letters, stands for the
/// weekday the English word denotes (Monday being 0): `wednesday` and
/// `wed` are both Wednesday.
pub proof fn law_weekday_names_denote_their_day(k: int)
    requires
        0 <= k < 7,
    ensures
        weekday_index(english_weekday(k)) == Some(k),
        weekday_index(english_weekday(k).take(3)) == Some(k),
{
    lemma_weekday_word(k, false, english_weekday(k));
    lemma_weekday_word(k, true, english_weekday(k).take(3));
}

/// Parsing a weekday name (in full or by its first three letters) gives a
/// date on the weekday the English word denotes, one to seven days after
/// today; an error only when that date lies outside the calendar.
pub proof fn law_parsed_weekday_falls_on_that_day(k: int, short: bool, today: CalDate, r: Result<
    CalDate,
    ParseDueError,
>)
    requires
        0 <= k < 7,
        today.wf(),
        parses_to(
            if short {
                english_weekday(k).take(3)
            } else {
                english_weekday(k)
            },
            today,
            r,
        ),
    ensures
        r matches Ok(d) ==> weekday_of(d.days()) == k && today.days() < d.days() <= today.days()
            + 7,
        r is Err ==> !(min_day() <= today.days() + days_ahead(k, weekday_of(today.days()))
            <= max_day()),
{
    reveal_strlit("today");
    reveal_strlit("tomorrow");
    reveal_strlit("next ");
    let input = if short {
        english_weekday(k).take(3)
    } else {
        english_weekday(k)
    };
    lemma_weekday_word(k, short, input);
    assert(!crate::text::is_ws(input[0]) && !crate::text::is_ws(input[input.len() - 1])) by {
        assert('a' <= input[0] && input[0] <= 'z');
        assert('a' <= input[input.len() - 1] && input[input.len() - 1] <= 'z');
    }
    lemma_trim_noop(input);
    assert(is_ascii_chars(input)) by {
        assert forall|i: int| 0 <= i < input.len() implies (input[i] as u32) < 128 by {
            assert('a' <= input[i] && input[i] <= 'z');
        }
    }
    assert(ascii_lower(input) =~= input) by {
        assert forall|i: int| 0 <= i < input.len() implies ascii_lower(input)[i] == input[i] by {
            assert('a' <= input[i] && input[i] <= 'z');
        }
    }
    assert(lower(trim(input)) == input);
    assert(!has_prefix(input, "next "@)) by {
        if has_prefix(input, "next "@) {
            assert(input.take(5)[0] == input[0]);
        }
    }
    assert(weekday_name(input) == input);
    assert(input != "today"@);
    assert(input != "tomorrow"@) by {
        if input == "tomorrow"@ {
            assert(input[1] == 'o');
        }
    }
    assert(keyword_days(input) is None);
    law_weekday_is_next_future_match(input, today);
}

} // verus!
