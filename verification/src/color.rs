//! Colour and layout helpers for the command lines.
//!
//! Semantic ANSI colours (a dim label colour for structural chrome and
//! identifiers, green for success, red for danger, and so on) and the
//! table frame of a listing. Whether colour is on is decided once, from
//! the `--color` choice, `NO_COLOR` and whether stdout is a terminal;
//! every helper takes that decision as its `enabled` argument.

use vstd::prelude::*;

use crate::text::{chars_of, decimal, extend_chars, push_decimal, string_of};

verus! {

/// The `--color` choice.
#[derive(Clone, Copy, Debug, PartialEq, Eq, Structural)]
pub enum ColorChoice {
    Auto,
    Always,
    Never,
}

/// Whether colour is on: forced by `always` and `never`; under `auto`,
/// on when stdout is a terminal and `NO_COLOR` is not set.
pub open spec fn colour_on(choice: ColorChoice, no_color_set: bool, stdout_is_tty: bool) -> bool {
    match choice {
        ColorChoice::Always => true,
        ColorChoice::Never => false,
        ColorChoice::Auto => !no_color_set && stdout_is_tty,
    }
}

/// Decide whether colour is on.
pub fn enabled_for(choice: ColorChoice, no_color_set: bool, stdout_is_tty: bool) -> (r: bool)
    ensures
        r == colour_on(choice, no_color_set, stdout_is_tty),
{
    match choice {
        ColorChoice::Always => true,
        ColorChoice::Never => false,
        ColorChoice::Auto => !no_color_set && stdout_is_tty,
    }
}

/// `text` between an ANSI start sequence and the reset sequence, when
/// colour is on; `text` itself otherwise.
pub open spec fn wrapped(code: Seq<char>, text: Seq<char>, enabled: bool) -> Seq<char> {
    if enabled {
        code + text + "\x1b[0m"@
    } else {
        text
    }
}

fn wrap(code: &str, text: &str, enabled: bool) -> (r: String)
    ensures
        r@ == wrapped(code@, text@, enabled),
{
    if enabled {
        let mut v = chars_of(code);
        extend_chars(&mut v, &chars_of(text));
        extend_chars(&mut v, &chars_of("\x1b[0m"));
        string_of(&v)
    } else {
        text.to_owned()
    }
}

fn wrap2(code1: &str, code2: &str, text: &str, enabled: bool) -> (r: String)
    ensures
        r@ == wrapped(code1@ + code2@, text@, enabled),
{
    if enabled {
        let mut v = chars_of(code1);
        extend_chars(&mut v, &chars_of(code2));
        let ghost codes = v@;
        extend_chars(&mut v, &chars_of(text));
        extend_chars(&mut v, &chars_of("\x1b[0m"));
        assert(v@ =~= codes + text@ + "\x1b[0m"@);
        string_of(&v)
    } else {
        text.to_owned()
    }
}

/// Inactive (dim grey), for de-emphasised bits.
pub fn inactive(text: &str, enabled: bool) -> (r: String)
    ensures
        r@ == wrapped("\x1b[38;5;8m"@, text@, enabled),
{
    wrap("\x1b[38;5;8m", text, enabled)
}

/// Bold danger red, for critical priorities.
pub fn danger_bold(text: &str, enabled: bool) -> (r: String)
    ensures
        r@ == wrapped("\x1b[1m"@ + "\x1b[31m"@, text@, enabled),
{
    wrap2("\x1b[1m", "\x1b[31m", text, enabled)
}

/// The secondary colour, for structural chrome (header, separators,
/// footer).
pub fn label(text: &str, enabled: bool) -> (r: String)
    ensures
        r@ == wrapped("\x1b[32m"@, text@, enabled),
{
    wrap("\x1b[32m", text, enabled)
}

/// The secondary colour, on an ID.
pub fn id(text: &str, enabled: bool) -> (r: String)
    ensures
        r@ == wrapped("\x1b[32m"@, text@, enabled),
{
    wrap("\x1b[32m", text, enabled)
}

/// Success green, for "added", "removed" and other done words.
pub fn success(text: &str, enabled: bool) -> (r: String)
    ensures
        r@ == wrapped("\x1b[38;5;10m"@, text@, enabled),
{
    wrap("\x1b[38;5;10m", text, enabled)
}

/// Danger red, for errors and overdue dates.
pub fn danger(text: &str, enabled: bool) -> (r: String)
    ensures
        r@ == wrapped("\x1b[31m"@, text@, enabled),
{
    wrap("\x1b[31m", text, enabled)
}

/// Warning yellow, for due-today highlights.
pub fn warning(text: &str, enabled: bool) -> (r: String)
    ensures
        r@ == wrapped("\x1b[33m"@, text@, enabled),
{
    wrap("\x1b[33m", text, enabled)
}

/// Info cyan, for tag chips.
pub fn info(text: &str, enabled: bool) -> (r: String)
    ensures
        r@ == wrapped("\x1b[36m"@, text@, enabled),
{
    wrap("\x1b[36m", text, enabled)
}

/// `n` copies of `c`.
pub open spec fn repeat_char(c: char, n: nat) -> Seq<char> {
    Seq::new(n, |i: int| c)
}

fn push_repeat(v: &mut Vec<char>, c: char, n: usize)
    ensures
        final(v)@ == old(v)@ + repeat_char(c, n as nat),
{
    let ghost start = v@;
    let mut i: usize = 0;
    while i < n
        invariant
            i <= n,
            v@ == start + repeat_char(c, i as nat),
        decreases n - i,
    {
        v.push(c);
        i = i + 1;
        assert(v@ =~= start + repeat_char(c, i as nat));
    }
}

/// The separator line: `width` dashes in the label colour.
pub open spec fn separator_text(width: nat, enabled: bool) -> Seq<char> {
    wrapped("\x1b[32m"@, repeat_char('-', width), enabled)
}

/// A separator line spanning `width` columns, in the label colour.
pub fn separator(width: usize, enabled: bool) -> (r: String)
    ensures
        r@ == separator_text(width as nat, enabled),
{
    let mut v: Vec<char> = Vec::new();
    push_repeat(&mut v, '-', width);
    assert(v@ =~= repeat_char('-', width as nat));
    label(string_of(&v).as_str(), enabled)
}

/// `s` padded on the right with spaces to `w` chars (`{:<w$}`).
pub open spec fn pad_right(s: Seq<char>, w: nat) -> Seq<char> {
    if s.len() < w {
        s + repeat_char(' ', (w - s.len()) as nat)
    } else {
        s
    }
}

/// `s` padded on the right with spaces to `w` chars.
pub fn pad_right_exec(s: &str, w: usize) -> (r: String)
    ensures
        r@ == pad_right(s@, w as nat),
{
    let mut v = chars_of(s);
    if v.len() < w {
        let k = w - v.len();
        push_repeat(&mut v, ' ', k);
    }
    string_of(&v)
}

/// The header row: each column name padded to its width, in the label
/// colour, joined by single spaces.
pub open spec fn header_row(columns: Seq<(Seq<char>, nat)>, enabled: bool) -> Seq<char>
    decreases columns.len(),
{
    if columns.len() == 0 {
        Seq::empty()
    } else if columns.len() == 1 {
        wrapped("\x1b[32m"@, pad_right(columns[0].0, columns[0].1), enabled)
    } else {
        header_row(columns.drop_last(), enabled) + seq![' '] + wrapped(
            "\x1b[32m"@,
            pad_right(columns.last().0, columns.last().1),
            enabled,
        )
    }
}

/// The column names and widths, as plain values.
pub open spec fn column_views(columns: Seq<(&str, usize)>) -> Seq<(Seq<char>, nat)> {
    Seq::new(columns.len(), |i: int| (columns[i].0@, columns[i].1 as nat))
}

/// The top frame of a table: separator, header row, separator.
pub fn header(columns: &[(&str, usize)], width: usize, enabled: bool) -> (r: String)
    ensures
        r@ == separator_text(width as nat, enabled) + seq!['\n'] + header_row(
            column_views(columns@),
            enabled,
        ) + seq!['\n'] + separator_text(width as nat, enabled),
{
    let sep = separator(width, enabled);
    let sepv = chars_of(sep.as_str());
    let mut row: Vec<char> = Vec::new();
    let mut i: usize = 0;
    while i < columns.len()
        invariant
            i <= columns@.len(),
            row@ == header_row(column_views(columns@).take(i as int), enabled),
        decreases columns@.len() - i,
    {
        let (name, w) = columns[i];
        if i > 0 {
            row.push(' ');
        }
        let cell = label(pad_right_exec(name, w).as_str(), enabled);
        extend_chars(&mut row, &chars_of(cell.as_str()));
        proof {
            let cols = column_views(columns@);
            let t = cols.take(i + 1);
            assert(t.drop_last() =~= cols.take(i as int));
            assert(t.last() == (name@, w as nat));
            if i == 0 {
                assert(cols.take(0) =~= Seq::<(Seq<char>, nat)>::empty());
                assert(row@ =~= header_row(t, enabled));
            } else {
                assert(row@ =~= header_row(t, enabled));
            }
        }
        i = i + 1;
    }
    assert(column_views(columns@).take(columns@.len() as int) =~= column_views(columns@));
    let mut v = sepv.clone();
    v.push('\n');
    extend_chars(&mut v, &row);
    v.push('\n');
    extend_chars(&mut v, &sepv);
    string_of(&v)
}

/// The bottom frame of a table: separator, then the summary line in the
/// label colour.
pub fn footer(message: &str, width: usize, enabled: bool) -> (r: String)
    ensures
        r@ == separator_text(width as nat, enabled) + seq!['\n'] + wrapped(
            "\x1b[32m"@,
            message@,
            enabled,
        ),
{
    let sep = separator(width, enabled);
    let mut v = chars_of(sep.as_str());
    v.push('\n');
    extend_chars(&mut v, &chars_of(label(message, enabled).as_str()));
    string_of(&v)
}

/// `count` and the noun, with an `s` unless the count is one: "1 task",
/// "3 tasks".
pub open spec fn plural_text(count: nat, singular: Seq<char>) -> Seq<char> {
    decimal(count) + seq![' '] + singular + if count == 1 {
        Seq::empty()
    } else {
        seq!['s']
    }
}

/// Pluralise: "1 task" / "3 tasks".
pub fn plural(count: usize, singular: &str) -> (r: String)
    ensures
        r@ == plural_text(count as nat, singular@),
{
    let mut v: Vec<char> = Vec::new();
    push_decimal(&mut v, count as u64);
    v.push(' ');
    extend_chars(&mut v, &chars_of(singular));
    if count != 1 {
        v.push('s');
    }
    assert(v@ =~= plural_text(count as nat, singular@));
    string_of(&v)
}

} // verus!
