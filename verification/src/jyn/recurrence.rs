//! Recurrence rules (RFC 5545 RRULE) for jyn tasks.
//!
//! A recurring task stores its rule as an RRULE *body* string (the part
//! after `RRULE:`, e.g. `FREQ=WEEKLY;BYDAY=MO`). This module turns the
//! phrases users type into such bodies, validates them and computes the
//! next occurrence, leaving the calendar arithmetic to the `rrule` crate.

use vstd::prelude::*;

use chrono::{Datelike, NaiveDate, NaiveTime, TimeZone, Timelike};
use rrule::{RRule, Tz, Unvalidated};

use crate::calendar::{english_weekday, is_last_date, next_day, CalDate, Instant};

use crate::text::{
    ascii_upper, byte_pos, byte_pos_exec, byte_pos_from, is_ascii_chars, lead_ws_end, chars_of, decimal, eq_chars, extend_chars, find_sub, find_sub_exec,
    has_prefix, is_digit, lemma_byte_pos_from, lower, lower_chars, parse_u32, parse_u32_exec,
    push_decimal, split_ws, starts_with, string_of, subvec, trim, trim_chars, utf8_len,
    utf8_len_exec, words,
};

verus! {

/// An invalid recurrence phrase or rule: the offending input and what is
/// wrong with it.
#[derive(Debug, Clone, PartialEq)]
pub struct RecurrenceError {
    pub rule: String,
    pub message: String,
}

// ---------------------------------------------------------------------------
// The phrase grammar
// ---------------------------------------------------------------------------

/// The RRULE weekday code of a weekday name (`weekday_short`).
pub open spec fn weekday_code(s: Seq<char>) -> Option<Seq<char>> {
    if s == "monday"@ || s == "mon"@ {
        Some("MO"@)
    } else if s == "tuesday"@ || s == "tue"@ || s == "tues"@ {
        Some("TU"@)
    } else if s == "wednesday"@ || s == "wed"@ {
        Some("WE"@)
    } else if s == "thursday"@ || s == "thu"@ || s == "thurs"@ {
        Some("TH"@)
    } else if s == "friday"@ || s == "fri"@ {
        Some("FR"@)
    } else if s == "saturday"@ || s == "sat"@ {
        Some("SA"@)
    } else if s == "sunday"@ || s == "sun"@ {
        Some("SU"@)
    } else {
        None
    }
}

/// Index of the last char before `j` that is not `c`, plus one (or 0).
pub open spec fn trail_char_start(s: Seq<char>, c: char, j: int) -> int
    decreases j,
{
    if 0 < j <= s.len() && s[j - 1] == c {
        trail_char_start(s, c, j - 1)
    } else {
        j
    }
}

/// `str::trim_end_matches(c)`.
pub open spec fn trim_end_char(s: Seq<char>, c: char) -> Seq<char> {
    s.take(trail_char_start(s, c, s.len() as int))
}

/// The RRULE frequency of a unit word, any trailing `s` ignored (`unit_to_freq`).
pub open spec fn unit_freq(unit: Seq<char>) -> Option<Seq<char>> {
    let u = trim_end_char(unit, 's');
    if u == "day"@ {
        Some("DAILY"@)
    } else if u == "week"@ {
        Some("WEEKLY"@)
    } else if u == "month"@ {
        Some("MONTHLY"@)
    } else if u == "year"@ {
        Some("YEARLY"@)
    } else if u == "hour"@ {
        Some("HOURLY"@)
    } else {
        None
    }
}

/// Index of the first char at or after `i` that is not an ASCII digit.
pub open spec fn digits_end(s: Seq<char>, i: int) -> int
    decreases s.len() - i,
{
    if 0 <= i < s.len() && is_digit(s[i]) {
        digits_end(s, i + 1)
    } else {
        i
    }
}

/// `1`, `1st`, `2nd`, ..., `31st`: the leading digits, as a day of the
/// month (`parse_day_of_month`).
pub open spec fn day_of_month(s: Seq<char>) -> Option<u32> {
    match parse_u32(s.take(digits_end(s, 0))) {
        Some(n) => if 1 <= n <= 31 {
            Some(n)
        } else {
            None
        },
        None => None,
    }
}

/// The leading number of a `for ...` suffix (`parse_count_phrase`).
pub open spec fn count_of(after: Seq<char>) -> Option<u32> {
    let ws = words(after);
    if ws.len() == 0 {
        None
    } else {
        parse_u32(ws[0])
    }
}

/// The rule parts a phrase's words give: frequency, interval, `BYDAY`
/// and `BYMONTHDAY`; or the error message.
pub open spec fn token_rule(toks: Seq<Seq<char>>, trimmed: Seq<char>) -> Result<
    (Seq<char>, u32, Option<Seq<char>>, Option<u32>),
    Seq<char>,
> {
    if toks.len() == 1 && toks[0] == "daily"@ {
        Ok(("DAILY"@, 1, None, None))
    } else if toks.len() == 1 && toks[0] == "weekly"@ {
        Ok(("WEEKLY"@, 1, None, None))
    } else if toks.len() == 1 && toks[0] == "monthly"@ {
        Ok(("MONTHLY"@, 1, None, None))
    } else if toks.len() == 1 && toks[0] == "yearly"@ {
        Ok(("YEARLY"@, 1, None, None))
    } else if toks.len() == 1 && toks[0] == "hourly"@ {
        Ok(("HOURLY"@, 1, None, None))
    } else if toks.len() == 1 && toks[0] == "weekdays"@ {
        Ok(("WEEKLY"@, 1, Some("MO,TU,WE,TH,FR"@), None))
    } else if toks.len() == 2 && toks[0] == "every"@ && weekday_code(toks[1]) is Some {
        Ok(("WEEKLY"@, 1, Some(weekday_code(toks[1]).unwrap()), None))
    } else if toks.len() == 3 && toks[0] == "every"@ {
        match parse_u32(toks[1]) {
            None => Err("expected a number, got '"@ + toks[1] + "'"@),
            Some(n) => match unit_freq(toks[2]) {
                None => Err("unknown unit '"@ + toks[2] + "'"@),
                Some(f) => Ok((f, n, None, None)),
            },
        }
    } else if (toks.len() == 4 && toks[0] == "monthly"@ && toks[1] == "on"@ && toks[2] == "the"@)
        || (toks.len() == 3 && toks[0] == "monthly"@ && toks[1] == "on"@) {
        let day = toks[toks.len() - 1];
        match day_of_month(day) {
            None => Err("expected a day of the month, got '"@ + day + "'"@),
            Some(d) => Ok(("MONTHLY"@, 1, None, Some(d))),
        }
    } else {
        Err("not a recognised recurrence phrase: '"@ + trimmed + "'"@)
    }
}

/// The RRULE body built from its parts.
pub open spec fn rule_text(
    freq: Seq<char>,
    interval: u32,
    byday: Option<Seq<char>>,
    bymonthday: Option<u32>,
    count: Option<u32>,
) -> Seq<char> {
    "FREQ="@ + freq + (if interval > 1 {
        ";INTERVAL="@ + decimal(interval as nat)
    } else {
        Seq::empty()
    }) + (match byday {
        Some(b) => ";BYDAY="@ + b,
        None => Seq::empty(),
    }) + (match bymonthday {
        Some(d) => ";BYMONTHDAY="@ + decimal(d as nat),
        None => Seq::empty(),
    }) + (match count {
        Some(c) => ";COUNT="@ + decimal(c as nat),
        None => Seq::empty(),
    })
}

/// The char position in `t` of the first ` for ` of `lower(t)` and the
/// position just past it, found by byte offset as slicing the string
/// does; `None` when either offset is not a char boundary of `t`.
pub open spec fn for_split(t: Seq<char>, p: int) -> Option<(int, int)> {
    let idx = utf8_len(lower(t).take(p));
    match (byte_pos(t, idx as int), byte_pos(t, idx as int + 5)) {
        (Some(a), Some(b)) => Some((a, b)),
        _ => None,
    }
}

/// The phrase can be read without slicing a string inside a char: the
/// byte offsets found in the lowercased phrase are char boundaries of
/// the phrase itself. This holds of every ASCII phrase.
pub open spec fn phrase_in_bounds(input: Seq<char>) -> bool {
    let t = trim(input);
    let l = lower(t);
    if t.len() == 0 || has_prefix(l, "freq="@) {
        true
    } else if has_prefix(l, "rrule:"@) {
        byte_pos(t, 6) is Some
    } else {
        match find_sub(l, " for "@) {
            Some(p) => for_split(t, p) is Some,
            None => true,
        }
    }
}

/// What the phrase parser returns: the RRULE body, or the error message.
pub open spec fn phrase_rule(input: Seq<char>) -> Result<Seq<char>, Seq<char>> {
    let t = trim(input);
    let l = lower(t);
    if t.len() == 0 {
        Err("empty recurrence"@)
    } else if has_prefix(l, "freq="@) {
        Ok(t)
    } else if has_prefix(l, "rrule:"@) {
        Ok(trim(t.skip(byte_pos(t, 6).unwrap())))
    } else {
        let (main, count): (Seq<char>, Result<Option<u32>, Seq<char>>) = match find_sub(
            l,
            " for "@,
        ) {
            Some(p) => {
                let (a, b) = for_split(t, p).unwrap();
                let after = trim(t.skip(b));
                match count_of(after) {
                    Some(n) => (trim(t.take(a)), Ok(Some(n))),
                    None => (t, Err("could not read count from 'for "@ + after + "'"@)),
                }
            },
            None => (t, Ok(None)),
        };
        match count {
            Err(m) => Err(m),
            Ok(c) => match token_rule(words(lower(main)), t) {
                Err(m) => Err(m),
                Ok((freq, interval, byday, bymonthday)) => Ok(
                    rule_text(freq, interval, byday, bymonthday, c),
                ),
            },
        }
    }
}

proof fn lemma_byte_pos_ascii(s: Seq<char>, b: int, k: int)
    requires
        is_ascii_chars(s),
        0 <= k <= b <= s.len(),
    ensures
        byte_pos_from(s, b, k) == Some(b),
    decreases b - k,
{
    assert(is_ascii_chars(s.take(k)));
    crate::text::lemma_utf8_len_ascii(s.take(k));
    if k < b {
        lemma_byte_pos_ascii(s, b, k + 1);
    }
}

/// Every ASCII phrase can be read: the byte offsets the parser finds in
/// the lowercased phrase are char boundaries of the phrase itself, so
/// `parse_input`'s precondition holds of it.
pub proof fn law_ascii_phrases_are_in_bounds(input: Seq<char>)
    requires
        is_ascii_chars(input),
    ensures
        phrase_in_bounds(input),
{
    let t = trim(input);
    crate::text::lemma_lead_ws_end(input, 0);
    crate::text::lemma_trail_ws_start(input, input.len() as int);
    assert(is_ascii_chars(t)) by {
        if lead_ws_end(input, 0) < input.len() {
            assert forall|i: int| 0 <= i < t.len() implies (t[i] as u32) < 128 by {
                assert(t[i] == input[lead_ws_end(input, 0) + i]);
            }
        }
    }
    let l = lower(t);
    assert(l.len() == t.len());
    if t.len() > 0 && !has_prefix(l, "freq="@) {
        if has_prefix(l, "rrule:"@) {
            reveal_strlit("rrule:");
            lemma_byte_pos_ascii(t, 6, 0);
        } else {
            crate::text::lemma_find_sub_some(l, " for "@);
            if let Some(p) = find_sub(l, " for "@) {
                reveal_strlit(" for ");
                assert(is_ascii_chars(l.take(p))) by {
                    assert forall|i: int| 0 <= i < p implies ((l.take(p)[i]) as u32) < 128 by {
                        assert(l[i] == crate::text::ascii_lower_char(t[i]));
                    }
                }
                crate::text::lemma_utf8_len_ascii(l.take(p));
                lemma_byte_pos_ascii(t, p, 0);
                lemma_byte_pos_ascii(t, p + 5, 0);
            }
        }
    }
}

// ---------------------------------------------------------------------------
// Executable phrase parsing
// ---------------------------------------------------------------------------

fn is_word(tok: &Vec<char>, w: &str) -> (r: bool)
    ensures
        r == (tok@ == w@),
{
    eq_chars(tok, &chars_of(w))
}

fn lit(s: &str) -> (r: Vec<char>)
    ensures
        r@ == s@,
{
    chars_of(s)
}

fn weekday_short(s: &Vec<char>) -> (r: Option<Vec<char>>)
    ensures
        match (r, weekday_code(s@)) {
            (Some(a), Some(b)) => a@ == b,
            (None, None) => true,
            _ => false,
        },
{
    if is_word(s, "monday") || is_word(s, "mon") {
        Some(lit("MO"))
    } else if is_word(s, "tuesday") || is_word(s, "tue") || is_word(s, "tues") {
        Some(lit("TU"))
    } else if is_word(s, "wednesday") || is_word(s, "wed") {
        Some(lit("WE"))
    } else if is_word(s, "thursday") || is_word(s, "thu") || is_word(s, "thurs") {
        Some(lit("TH"))
    } else if is_word(s, "friday") || is_word(s, "fri") {
        Some(lit("FR"))
    } else if is_word(s, "saturday") || is_word(s, "sat") {
        Some(lit("SA"))
    } else if is_word(s, "sunday") || is_word(s, "sun") {
        Some(lit("SU"))
    } else {
        None
    }
}

fn unit_to_freq(unit: &Vec<char>) -> (r: Option<Vec<char>>)
    ensures
        match (r, unit_freq(unit@)) {
            (Some(a), Some(b)) => a@ == b,
            (None, None) => true,
            _ => false,
        },
{
    let mut j: usize = unit.len();
    while j > 0 && unit[j - 1] == 's'
        invariant
            j <= unit@.len(),
            trail_char_start(unit@, 's', unit@.len() as int) == trail_char_start(
                unit@,
                's',
                j as int,
            ),
        decreases j,
    {
        j = j - 1;
    }
    let u = subvec(unit, 0, j);
    assert(u@ =~= trim_end_char(unit@, 's'));
    if is_word(&u, "day") {
        Some(lit("DAILY"))
    } else if is_word(&u, "week") {
        Some(lit("WEEKLY"))
    } else if is_word(&u, "month") {
        Some(lit("MONTHLY"))
    } else if is_word(&u, "year") {
        Some(lit("YEARLY"))
    } else if is_word(&u, "hour") {
        Some(lit("HOURLY"))
    } else {
        None
    }
}

/// Accept `1`, `1st`, `2nd`, ..., `31st` and return the numeric day.
fn parse_day_of_month(s: &Vec<char>) -> (r: Option<u32>)
    ensures
        r == day_of_month(s@),
{
    let mut i: usize = 0;
    while i < s.len() && '0' <= s[i] && s[i] <= '9'
        invariant
            i <= s@.len(),
            digits_end(s@, 0) == digits_end(s@, i as int),
        decreases s@.len() - i,
    {
        i = i + 1;
    }
    let digits = subvec(s, 0, i);
    assert(digits@ =~= s@.take(i as int));
    match parse_u32_exec(&digits) {
        Some(n) => if 1 <= n && n <= 31 {
            Some(n)
        } else {
            None
        },
        None => None,
    }
}

/// Read the leading number from a `for ...` suffix (`3 times` / `3 days` / `3`).
fn parse_count_phrase(after: &Vec<char>) -> (r: Option<u32>)
    ensures
        r == count_of(after@),
{
    let ws = split_ws(after);
    if ws.len() == 0 {
        None
    } else {
        parse_u32_exec(&ws[0])
    }
}

fn quoted(prefix: &str, middle: &Vec<char>) -> (r: Vec<char>)
    ensures
        r@ == prefix@ + middle@ + "'"@,
{
    let mut m = lit(prefix);
    extend_chars(&mut m, middle);
    extend_chars(&mut m, &lit("'"));
    m
}

fn token_rule_exec(toks: &Vec<Vec<char>>, trimmed: &Vec<char>) -> (r: Result<
    (Vec<char>, u32, Option<Vec<char>>, Option<u32>),
    Vec<char>,
>)
    ensures
        match (r, token_rule(toks@.map_values(|t: Vec<char>| t@), trimmed@)) {
            (Ok((f, i, b, d)), Ok((sf, si, sb, sd))) => f@ == sf && i == si && d == sd && match (
                b,
                sb,
            ) {
                (Some(x), Some(y)) => x@ == y,
                (None, None) => true,
                _ => false,
            },
            (Err(m), Err(sm)) => m@ == sm,
            _ => false,
        },
{
    let ghost ts = toks@.map_values(|t: Vec<char>| t@);
    let n = toks.len();
    assert(ts.len() == n);
    if n == 1 && is_word(&toks[0], "daily") {
        Ok((lit("DAILY"), 1, None, None))
    } else if n == 1 && is_word(&toks[0], "weekly") {
        Ok((lit("WEEKLY"), 1, None, None))
    } else if n == 1 && is_word(&toks[0], "monthly") {
        Ok((lit("MONTHLY"), 1, None, None))
    } else if n == 1 && is_word(&toks[0], "yearly") {
        Ok((lit("YEARLY"), 1, None, None))
    } else if n == 1 && is_word(&toks[0], "hourly") {
        Ok((lit("HOURLY"), 1, None, None))
    } else if n == 1 && is_word(&toks[0], "weekdays") {
        Ok((lit("WEEKLY"), 1, Some(lit("MO,TU,WE,TH,FR")), None))
    } else if n == 2 && is_word(&toks[0], "every") && weekday_short(&toks[1]).is_some() {
        let code = weekday_short(&toks[1]);
        match code {
            Some(c) => Ok((lit("WEEKLY"), 1, Some(c), None)),
            None => Err(Vec::new()),
        }
    } else if n == 3 && is_word(&toks[0], "every") {
        match parse_u32_exec(&toks[1]) {
            None => Err(quoted("expected a number, got '", &toks[1])),
            Some(num) => match unit_to_freq(&toks[2]) {
                None => Err(quoted("unknown unit '", &toks[2])),
                Some(f) => Ok((f, num, None, None)),
            },
        }
    } else if (n == 4 && is_word(&toks[0], "monthly") && is_word(&toks[1], "on") && is_word(
        &toks[2],
        "the",
    )) || (n == 3 && is_word(&toks[0], "monthly") && is_word(&toks[1], "on")) {
        let day = &toks[n - 1];
        match parse_day_of_month(day) {
            None => Err(quoted("expected a day of the month, got '", day)),
            Some(d) => Ok((lit("MONTHLY"), 1, None, Some(d))),
        }
    } else {
        Err(quoted("not a recognised recurrence phrase: '", trimmed))
    }
}

fn build_rule(
    freq: &Vec<char>,
    interval: u32,
    byday: &Option<Vec<char>>,
    bymonthday: Option<u32>,
    count: Option<u32>,
) -> (r: Vec<char>)
    ensures
        r@ == rule_text(
            freq@,
            interval,
            match byday {
                Some(b) => Some(b@),
                None => None,
            },
            bymonthday,
            count,
        ),
{
    let mut rule = lit("FREQ=");
    extend_chars(&mut rule, freq);
    let ghost r0 = rule@;
    if interval > 1 {
        extend_chars(&mut rule, &lit(";INTERVAL="));
        push_decimal(&mut rule, interval as u64);
    }
    let ghost r1 = rule@;
    match byday {
        Some(b) => {
            extend_chars(&mut rule, &lit(";BYDAY="));
            extend_chars(&mut rule, b);
        },
        None => {},
    }
    let ghost r2 = rule@;
    match bymonthday {
        Some(d) => {
            extend_chars(&mut rule, &lit(";BYMONTHDAY="));
            push_decimal(&mut rule, d as u64);
        },
        None => {},
    }
    let ghost r3 = rule@;
    match count {
        Some(c) => {
            extend_chars(&mut rule, &lit(";COUNT="));
            push_decimal(&mut rule, c as u64);
        },
        None => {},
    }
    proof {
        let sb = match byday {
            Some(b) => Some(b@),
            None => None,
        };
        assert(rule@ =~= rule_text(freq@, interval, sb, bymonthday, count));
    }
    rule
}

fn err(rule: &str, message: Vec<char>) -> (r: RecurrenceError)
    ensures
        r.rule@ == rule@,
        r.message@ == message@,
{
    RecurrenceError { rule: string_of(&chars_of(rule)), message: string_of(&message) }
}

/// Whether the phrase can be read without slicing inside a char.
fn phrase_in_bounds_exec(input: &str) -> (r: bool)
    ensures
        r == phrase_in_bounds(input@),
{
    let iv = chars_of(input);
    let t = trim_chars(&iv);
    if t.len() == 0 {
        return true;
    }
    let l = lower_chars(&t);
    if starts_with(&l, &lit("freq=")) {
        return true;
    }
    if starts_with(&l, &lit("rrule:")) {
        return byte_pos_exec(&t, 6).is_some();
    }
    match find_sub_exec(&l, &lit(" for ")) {
        Some(p) => {
            proof {
                crate::text::lemma_find_sub_some(l@, " for "@);
            }
            let lp = subvec(&l, 0, p);
            assert(lp@ =~= l@.take(p as int));
            let idx = utf8_len_exec(&lp);
            proof {
                crate::text::lemma_utf8_len_prefix(l@, p as int);
            }
            assert(idx == utf8_len(l@.take(p as int)));
            byte_pos_exec(&t, idx).is_some() && byte_pos_exec(&t, idx + 5).is_some()
        },
        None => true,
    }
}


/// Turn a human phrase into an RRULE body string (without validation).
fn parse_phrase(input: &str) -> (r: Result<String, RecurrenceError>)
    requires
        phrase_in_bounds(input@),
    ensures
        match (r, phrase_rule(input@)) {
            (Ok(s), Ok(x)) => s@ == x,
            (Err(e), Err(m)) => e.rule@ == input@ && e.message@ == m,
            _ => false,
        },
{
    let iv = chars_of(input);
    let t = trim_chars(&iv);
    if t.len() == 0 {
        return Err(err(input, lit("empty recurrence")));
    }
    let l = lower_chars(&t);
    if starts_with(&l, &lit("freq=")) {
        return Ok(string_of(&t));
    }
    if starts_with(&l, &lit("rrule:")) {
        match byte_pos_exec(&t, 6) {
            Some(k) => {
                proof {
                    lemma_byte_pos_from(t@, 6, 0);
                }
                let rest = subvec(&t, k, t.len());
                assert(rest@ =~= t@.skip(k as int));
                return Ok(string_of(&trim_chars(&rest)));
            },
            None => {
                return Err(err(input, Vec::new()));
            },
        }
    }
    let ghost tv = t@;
    let mut count: Option<u32> = None;
    let main: Vec<char> = match find_sub_exec(&l, &lit(" for ")) {
        Some(p) => {
            proof {
                crate::text::lemma_find_sub_some(l@, " for "@);
                crate::text::lemma_utf8_len_prefix(l@, p as int);
            }
            let lp = subvec(&l, 0, p);
            assert(lp@ =~= l@.take(p as int));
            let idx = utf8_len_exec(&lp);
            assert(idx == utf8_len(l@.take(p as int)));
            let a = match byte_pos_exec(&t, idx) {
                Some(a) => a,
                None => {
                    return Err(err(input, Vec::new()));
                },
            };
            let b = match byte_pos_exec(&t, idx + 5) {
                Some(b) => b,
                None => {
                    return Err(err(input, Vec::new()));
                },
            };
            proof {
                lemma_byte_pos_from(t@, idx as int, 0);
                lemma_byte_pos_from(t@, idx + 5, 0);
            }
            let tail = subvec(&t, b, t.len());
            assert(tail@ =~= t@.skip(b as int));
            let after = trim_chars(&tail);
            match parse_count_phrase(&after) {
                Some(n) => {
                    count = Some(n);
                    let head = subvec(&t, 0, a);
                    assert(head@ =~= t@.take(a as int));
                    trim_chars(&head)
                },
                None => {
                    return Err(err(input, quoted("could not read count from 'for ", &after)));
                },
            }
        },
        None => subvec(&t, 0, t.len()),
    };
    assert(t@.subrange(0, t@.len() as int) =~= t@);
    let ml = lower_chars(&main);
    let toks = split_ws(&ml);
    assert(toks@.map_values(|x: Vec<char>| x@) =~= words(ml@));
    match token_rule_exec(&toks, &t) {
        Err(m) => Err(err(input, m)),
        Ok((f, i, b, d)) => Ok(string_of(&build_rule(&f, i, &b, d, count))),
    }
}

// ---------------------------------------------------------------------------
// The rrule crate
// ---------------------------------------------------------------------------

/// Whether an RRULE body parses and its series builds from `start`.
pub uninterp spec fn rrule_valid(rule: Seq<char>, start: Instant) -> bool;

/// The occurrences of a valid rule's series from `start` that are at or
/// after `after`, at most `limit` of them, as the `rrule` crate lists
/// them.
pub uninterp spec fn rrule_dates(rule: Seq<char>, start: Instant, after: Instant, limit: u16) -> Seq<
    Instant,
>;

/// `rule.parse::<RRule<Unvalidated>>()`, then `.build(start)` with `start`
/// in UTC: `None` when both succeed, else the error's `Display` text. Only
/// whether there is an error is stated; its text (which for an `UNTIL`
/// without `Z` can depend on the machine's time zone) is not.
#[verifier::external_body]
fn rrule_check(rule: &str, start: Instant) -> (r: Option<String>)
    requires
        start.wf(),
    ensures
        r is None <==> rrule_valid(rule@, start),
{
    let d = NaiveDate::from_ymd_opt(start.date.year, start.date.month, start.date.day);
    let t = NaiveTime::from_num_seconds_from_midnight_opt(start.secs, start.nanos);
    let dt = Tz::UTC.from_utc_datetime(&d.unwrap().and_time(t.unwrap()));
    match rule.parse::<RRule<Unvalidated>>() {
        Err(e) => Some(e.to_string()),
        Ok(parsed) => parsed.build(dt).err().map(|e| e.to_string()),
    }
}

/// `rule.parse::<RRule<Unvalidated>>()?.build(start)?.after(after).all(limit)`
/// with `start` and `after` in UTC, the dates converted back to UTC
/// instants, an error by its `Display` text. The `rrule` crate lists at
/// most `limit` occurrences, none before `after`. The error's text is not
/// stated.
#[verifier::external_body]
fn rrule_occurrences(rule: &str, start: Instant, after: Instant, limit: u16) -> (r: Result<
    Vec<Instant>,
    String,
>)
    requires
        start.wf(),
        after.wf(),
    ensures
        r is Ok <==> rrule_valid(rule@, start),
        r matches Ok(v) ==> v@ == rrule_dates(rule@, start, after, limit),
        r matches Ok(v) ==> v@.len() <= limit && forall|i: int|
            0 <= i < v@.len() ==> (#[trigger] v@[i]).wf() && !v@[i].before(after),
{
    let tz = |i: Instant| Tz::UTC.from_utc_datetime(&NaiveDate::from_ymd_opt(i.date.year, i.date.month, i.date.day).unwrap().and_time(NaiveTime::from_num_seconds_from_midnight_opt(i.secs, i.nanos).unwrap()));
    let set = rule.parse::<RRule<Unvalidated>>().map_err(|e| e.to_string())?.build(tz(start)).map_err(|e| e.to_string())?;
    Ok(set.after(tz(after)).all(limit).dates.iter().map(|u| Instant {
        date: CalDate { year: u.year(), month: u.month(), day: u.day() },
        secs: u.num_seconds_from_midnight(),
        nanos: u.nanosecond(),
    }).collect())
}

// ---------------------------------------------------------------------------
// Validation and next occurrences
// ---------------------------------------------------------------------------

/// The anchor a rule is validated against: 2000-01-01 at midnight UTC.
/// The specific date does not affect whether a rule is valid.
pub open spec fn validation_start() -> Instant {
    Instant::midnight(CalDate { year: 2000, month: 1, day: 1 })
}

/// Validate an RRULE body string. Returns `Ok(())` when the rule parses
/// and builds, otherwise a [`RecurrenceError`] carrying the rule and the
/// problem.
pub fn validate(rule: &str) -> (r: Result<(), RecurrenceError>)
    ensures
        r is Ok <==> rrule_valid(rule@, validation_start()),
        r matches Err(e) ==> e.rule@ == rule@,
{
    let reference = Instant::at_midnight(CalDate { year: 2000, month: 1, day: 1 });
    match rrule_check(rule, reference) {
        None => Ok(()),
        Some(m) => Err(err(rule, chars_of(m.as_str()))),
    }
}

/// The first instant in `dates` strictly after `after`.
pub open spec fn first_instant_after_spec(dates: Seq<Instant>, after: Instant) -> Option<Instant>
    decreases dates.len(),
{
    if dates.len() == 0 {
        None
    } else if after.before(dates[0]) {
        Some(dates[0])
    } else {
        first_instant_after_spec(dates.drop_first(), after)
    }
}

/// The first occurrence in `dates` strictly after `after`.
pub fn first_instant_after(dates: &Vec<Instant>, after: Instant) -> (r: Option<Instant>)
    ensures
        r == first_instant_after_spec(dates@, after),
        r matches Some(d) ==> after.before(d) && exists|i: int|
            0 <= i < dates@.len() && dates@[i] == d,
{
    let mut i: usize = 0;
    assert(dates@.skip(0) =~= dates@);
    while i < dates.len()
        invariant
            i <= dates@.len(),
            first_instant_after_spec(dates@, after) == first_instant_after_spec(
                dates@.skip(i as int),
                after,
            ),
        decreases dates@.len() - i,
    {
        assert(dates@.skip(i as int).drop_first() =~= dates@.skip(i + 1));
        if after.is_before(&dates[i]) {
            assert(dates@.skip(i as int)[0] == dates@[i as int]);
            return Some(dates[i]);
        }
        i = i + 1;
    }
    None
}

/// What `next_occurrence` gives: `Err` for an invalid rule; else the date
/// of the first occurrence at or after midnight of the day after `after`
/// (so the earliest occurrence date strictly after `after`), or `None`
/// when the series has none (always so after the last date `chrono`
/// represents).
pub open spec fn next_date_spec(rule: Seq<char>, anchor: CalDate, after: CalDate) -> Result<
    Option<CalDate>,
    (),
> {
    let start = Instant::midnight(anchor);
    if !rrule_valid(rule, start) {
        Err(())
    } else if is_last_date(after) {
        Ok(None)
    } else {
        let listed = rrule_dates(rule, start, Instant::midnight(next_day(after)), 1);
        if listed.len() == 0 {
            Ok(None)
        } else {
            Ok(Some(listed[0].date))
        }
    }
}

/// What `next_occurrence_at` gives: `Err` for an invalid rule, else the
/// first occurrence strictly after `after` among the two the series lists
/// from `after` on.
pub open spec fn next_instant_spec(rule: Seq<char>, anchor: Instant, after: Instant) -> Result<
    Option<Instant>,
    (),
> {
    if !rrule_valid(rule, anchor) {
        Err(())
    } else {
        Ok(first_instant_after_spec(rrule_dates(rule, anchor, after, 2), after))
    }
}

/// Compute the next occurrence strictly after `after`, for a rule whose
/// series is anchored at `anchor` (at UTC midnight): the earliest date
/// with an occurrence that is later than `after`, however many
/// occurrences a day the series has. Returns `Ok(None)` only when the
/// series has no further occurrence (e.g. an exhausted `COUNT`/`UNTIL`).
pub fn next_occurrence(rule: &str, anchor: CalDate, after: CalDate) -> (r: Result<
    Option<CalDate>,
    RecurrenceError,
>)
    requires
        anchor.wf(),
        after.wf(),
    ensures
        match (r, next_date_spec(rule@, anchor, after)) {
            (Ok(x), Ok(y)) => x == y,
            (Err(e), Err(())) => e.rule@ == rule@,
            _ => false,
        },
        r matches Ok(Some(d)) ==> d.wf() && after.before(d),
{
    let start = Instant::at_midnight(anchor);
    let following = match after.succ() {
        Some(n) => n,
        None => {
            // Nothing comes after the last representable date; only the
            // rule's validity is left to report.
            return match rrule_check(rule, start) {
                None => Ok(None),
                Some(m) => Err(err(rule, chars_of(m.as_str()))),
            };
        },
    };
    // Every occurrence on a later day is at or after midnight of the
    // following day, and every one listed from there is on a later day.
    let dates = match rrule_occurrences(rule, start, Instant::at_midnight(following), 1) {
        Ok(v) => v,
        Err(m) => {
            return Err(err(rule, chars_of(m.as_str())));
        },
    };
    if dates.len() == 0 {
        Ok(None)
    } else {
        let first = dates[0];
        proof {
            assert(first.wf());
            assert(!first.before(Instant::midnight(following)));
        }
        Ok(Some(first.date))
    }
}

/// Datetime variant for time-bearing series (e.g. `FREQ=HOURLY`): the
/// anchor and bound are UTC instants, so sub-day recurrence works.
pub fn next_occurrence_at(rule: &str, anchor: Instant, after: Instant) -> (r: Result<
    Option<Instant>,
    RecurrenceError,
>)
    requires
        anchor.wf(),
        after.wf(),
    ensures
        match (r, next_instant_spec(rule@, anchor, after)) {
            (Ok(x), Ok(y)) => x == y,
            (Err(e), Err(())) => e.rule@ == rule@,
            _ => false,
        },
        r matches Ok(Some(d)) ==> d.wf() && after.before(d),
{
    let dates = match rrule_occurrences(rule, anchor, after, 2) {
        Ok(v) => v,
        Err(m) => {
            return Err(err(rule, chars_of(m.as_str())));
        },
    };
    let next = first_instant_after(&dates, after);
    proof {
        if next is Some {
            let i = choose|i: int| 0 <= i < dates@.len() && dates@[i] == next.unwrap();
            assert(dates@[i].wf());
        }
    }
    Ok(next)
}

// ---------------------------------------------------------------------------
// Phrase input
// ---------------------------------------------------------------------------

/// Turn a human-friendly recurrence input into a validated RRULE
/// body, ready to store on a task. Accepts `daily`, `every Monday`,
/// `every 2 weeks`, `weekdays`, `monthly on the 1st`, with an optional
/// `for N <unit>` / `for N times` suffix that becomes `COUNT`, and a raw
/// RRULE body (`FREQ=...`) or `RRULE:...` line.
pub fn parse_input(input: &str) -> (r: Result<String, RecurrenceError>)
    requires
        phrase_in_bounds(input@),
    ensures
        match phrase_rule(input@) {
            Err(m) => r matches Err(e) && e.rule@ == input@ && e.message@ == m,
            Ok(x) => if rrule_valid(x, validation_start()) {
                r matches Ok(s) && s@ == x
            } else {
                r matches Err(e) && e.rule@ == x
            },
        },
{
    let rule = parse_phrase(input)?;
    validate(rule.as_str())?;
    Ok(rule)
}

/// `parse_input` where the phrase can be read without slicing inside a
/// char; `None` for the (non-ASCII) phrases on which the byte offsets
/// found in the lowercased phrase are not char boundaries of the phrase.
pub fn parse_input_checked(input: &str) -> (r: Option<Result<String, RecurrenceError>>)
    ensures
        r is Some <==> phrase_in_bounds(input@),
        r matches Some(res) ==> match phrase_rule(input@) {
            Err(m) => res matches Err(e) && e.rule@ == input@ && e.message@ == m,
            Ok(x) => if rrule_valid(x, validation_start()) {
                res matches Ok(s) && s@ == x
            } else {
                res matches Err(e) && e.rule@ == x
            },
        },
{
    if phrase_in_bounds_exec(input) {
        Some(parse_input(input))
    } else {
        None
    }
}

/// The code RRULE gives weekday `k` (Monday being 0): the first two
/// letters of its English name, uppercased.
pub open spec fn day_code(k: int) -> Seq<char> {
    ascii_upper(english_weekday(k).take(2))
}

/// `every <weekday>` names that weekday: a weekday's English name and its
/// first three letters both get the weekday's code (`thursday` and `thu`
/// get `TH`).
pub proof fn law_weekday_codes_name_their_day(k: int)
    requires
        0 <= k < 7,
    ensures
        weekday_code(english_weekday(k)) == Some(day_code(k)),
        weekday_code(english_weekday(k).take(3)) == Some(day_code(k)),
{
    reveal_strlit("monday");
    reveal_strlit("mon");
    reveal_strlit("MO");
    reveal_strlit("tuesday");
    reveal_strlit("tue");
    reveal_strlit("TU");
    reveal_strlit("tues");
    reveal_strlit("wednesday");
    reveal_strlit("wed");
    reveal_strlit("WE");
    reveal_strlit("thursday");
    reveal_strlit("thu");
    reveal_strlit("TH");
    reveal_strlit("thurs");
    reveal_strlit("friday");
    reveal_strlit("fri");
    reveal_strlit("FR");
    reveal_strlit("saturday");
    reveal_strlit("sat");
    reveal_strlit("SA");
    reveal_strlit("sunday");
    reveal_strlit("sun");
    reveal_strlit("SU");
    if k == 0 {
        assert(english_weekday(k).take(3) =~= "mon"@);
        assert(english_weekday(k).take(2) =~= seq!['m', 'o']);
        assert(day_code(k) =~= "MO"@);
    }
    if k == 1 {
        assert(english_weekday(k).take(3) =~= "tue"@);
        assert(english_weekday(k).take(2) =~= seq!['t', 'u']);
        assert(day_code(k) =~= "TU"@);
    }
    if k == 2 {
        assert(english_weekday(k).take(3) =~= "wed"@);
        assert(english_weekday(k).take(2) =~= seq!['w', 'e']);
        assert(day_code(k) =~= "WE"@);
    }
    if k == 3 {
        assert(english_weekday(k).take(3) =~= "thu"@);
        assert(english_weekday(k).take(2) =~= seq!['t', 'h']);
        assert(day_code(k) =~= "TH"@);
    }
    if k == 4 {
        assert(english_weekday(k).take(3) =~= "fri"@);
        assert(english_weekday(k).take(2) =~= seq!['f', 'r']);
        assert(day_code(k) =~= "FR"@);
    }
    if k == 5 {
        assert(english_weekday(k).take(3) =~= "sat"@);
        assert(english_weekday(k).take(2) =~= seq!['s', 'a']);
        assert(day_code(k) =~= "SA"@);
    }
    if k == 6 {
        assert(english_weekday(k).take(3) =~= "sun"@);
        assert(english_weekday(k).take(2) =~= seq!['s', 'u']);
        assert(day_code(k) =~= "SU"@);
    }
}

/// Every weekday name the grammar accepts abbreviates (by at least three
/// letters) the English name of the weekday whose code it gets.
pub proof fn law_weekday_code_comes_from_its_name(s: Seq<char>)
    ensures
        weekday_code(s) matches Some(c) ==> exists|k: int|
            0 <= k < 7 && s.len() >= 3 && has_prefix(english_weekday(k), s) && c == day_code(k),
{
    reveal_strlit("monday");
    reveal_strlit("mon");
    reveal_strlit("MO");
    reveal_strlit("tuesday");
    reveal_strlit("tue");
    reveal_strlit("TU");
    reveal_strlit("tues");
    reveal_strlit("wednesday");
    reveal_strlit("wed");
    reveal_strlit("WE");
    reveal_strlit("thursday");
    reveal_strlit("thu");
    reveal_strlit("TH");
    reveal_strlit("thurs");
    reveal_strlit("friday");
    reveal_strlit("fri");
    reveal_strlit("FR");
    reveal_strlit("saturday");
    reveal_strlit("sat");
    reveal_strlit("SA");
    reveal_strlit("sunday");
    reveal_strlit("sun");
    reveal_strlit("SU");
    if s == "monday"@ {
        assert(english_weekday(0).take(6) =~= s);
        assert(day_code(0) =~= "MO"@) by {
            assert(english_weekday(0).take(2) =~= seq!['m', 'o']);
        }
        assert(has_prefix(english_weekday(0), s));
    }
    if s == "mon"@ {
        assert(english_weekday(0).take(3) =~= s);
        assert(day_code(0) =~= "MO"@) by {
            assert(english_weekday(0).take(2) =~= seq!['m', 'o']);
        }
        assert(has_prefix(english_weekday(0), s));
    }
    if s == "tuesday"@ {
        assert(english_weekday(1).take(7) =~= s);
        assert(day_code(1) =~= "TU"@) by {
            assert(english_weekday(1).take(2) =~= seq!['t', 'u']);
        }
        assert(has_prefix(english_weekday(1), s));
    }
    if s == "tue"@ {
        assert(english_weekday(1).take(3) =~= s);
        assert(day_code(1) =~= "TU"@) by {
            assert(english_weekday(1).take(2) =~= seq!['t', 'u']);
        }
        assert(has_prefix(english_weekday(1), s));
    }
    if s == "tues"@ {
        assert(english_weekday(1).take(4) =~= s);
        assert(day_code(1) =~= "TU"@) by {
            assert(english_weekday(1).take(2) =~= seq!['t', 'u']);
        }
        assert(has_prefix(english_weekday(1), s));
    }
    if s == "wednesday"@ {
        assert(english_weekday(2).take(9) =~= s);
        assert(day_code(2) =~= "WE"@) by {
            assert(english_weekday(2).take(2) =~= seq!['w', 'e']);
        }
        assert(has_prefix(english_weekday(2), s));
    }
    if s == "wed"@ {
        assert(english_weekday(2).take(3) =~= s);
        assert(day_code(2) =~= "WE"@) by {
            assert(english_weekday(2).take(2) =~= seq!['w', 'e']);
        }
        assert(has_prefix(english_weekday(2), s));
    }
    if s == "thursday"@ {
        assert(english_weekday(3).take(8) =~= s);
        assert(day_code(3) =~= "TH"@) by {
            assert(english_weekday(3).take(2) =~= seq!['t', 'h']);
        }
        assert(has_prefix(english_weekday(3), s));
    }
    if s == "thu"@ {
        assert(english_weekday(3).take(3) =~= s);
        assert(day_code(3) =~= "TH"@) by {
            assert(english_weekday(3).take(2) =~= seq!['t', 'h']);
        }
        assert(has_prefix(english_weekday(3), s));
    }
    if s == "thurs"@ {
        assert(english_weekday(3).take(5) =~= s);
        assert(day_code(3) =~= "TH"@) by {
            assert(english_weekday(3).take(2) =~= seq!['t', 'h']);
        }
        assert(has_prefix(english_weekday(3), s));
    }
    if s == "friday"@ {
        assert(english_weekday(4).take(6) =~= s);
        assert(day_code(4) =~= "FR"@) by {
            assert(english_weekday(4).take(2) =~= seq!['f', 'r']);
        }
        assert(has_prefix(english_weekday(4), s));
    }
    if s == "fri"@ {
        assert(english_weekday(4).take(3) =~= s);
        assert(day_code(4) =~= "FR"@) by {
            assert(english_weekday(4).take(2) =~= seq!['f', 'r']);
        }
        assert(has_prefix(english_weekday(4), s));
    }
    if s == "saturday"@ {
        assert(english_weekday(5).take(8) =~= s);
        assert(day_code(5) =~= "SA"@) by {
            assert(english_weekday(5).take(2) =~= seq!['s', 'a']);
        }
        assert(has_prefix(english_weekday(5), s));
    }
    if s == "sat"@ {
        assert(english_weekday(5).take(3) =~= s);
        assert(day_code(5) =~= "SA"@) by {
            assert(english_weekday(5).take(2) =~= seq!['s', 'a']);
        }
        assert(has_prefix(english_weekday(5), s));
    }
    if s == "sunday"@ {
        assert(english_weekday(6).take(6) =~= s);
        assert(day_code(6) =~= "SU"@) by {
            assert(english_weekday(6).take(2) =~= seq!['s', 'u']);
        }
        assert(has_prefix(english_weekday(6), s));
    }
    if s == "sun"@ {
        assert(english_weekday(6).take(3) =~= s);
        assert(day_code(6) =~= "SU"@) by {
            assert(english_weekday(6).take(2) =~= seq!['s', 'u']);
        }
        assert(has_prefix(english_weekday(6), s));
    }
}

} // verus!
