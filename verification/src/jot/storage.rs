//! The jot workspace: where tasks live and how their files are named.
//!
//! Tasks are YAML files under `<root>/.jot/items/`, named `{ID}-{slug}.yaml`
//! where the ID is `TODO-XXXX-YY`: a four-digit hex counter and a
//! two-digit hex hash of the title. Reading and writing the files is the
//! caller's; here are the names, the next free ID among the existing file
//! names and the lookup of a task's file by full or short ID.

use vstd::prelude::*;

use crate::jot::display::{
    acronym_dash, acronym_dash_vec, canonical_parts, full_id, is_upper_hex,
    law_short_id_normalizes_to_prefix, normalize_id_input, normalize_spec, short_id_spec, views_of,
};
use crate::paths::{join_path, path_join};
use crate::text::{
    all_hex, chars_of, decimal, extend_chars, has_prefix, is_ascii_chars, is_hex, is_ws,
    lemma_trim_noop, lemma_upper_concat, lemma_upper_noop, push_decimal, skip_char_end, starts_with, string_of, subvec,
    upper, upper_chars,
};

verus! {

pub const JOT_DIR: &'static str = ".jot";

pub const ITEMS_DIR: &'static str = "items";

pub const ACRONYM: &'static str = "TODO";

// ---------------------------------------------------------------------------
// Paths
// ---------------------------------------------------------------------------

/// `<root>/.jot`.
pub fn jot_dir(root: &str) -> (r: String)
    ensures
        r@ == path_join(root@, JOT_DIR@),
{
    join_path(root, JOT_DIR)
}

/// `<root>/.jot/items`.
pub fn items_dir(root: &str) -> (r: String)
    ensures
        r@ == path_join(path_join(root@, JOT_DIR@), ITEMS_DIR@),
{
    join_path(jot_dir(root).as_str(), ITEMS_DIR)
}

/// The slug `joy_core` makes of a title for file names.
pub uninterp spec fn slug_of(title: Seq<char>) -> Seq<char>;

/// `joy_core::model::item::item_filename`: `{id}-{slug}.yaml`, the slug
/// being `joy_core`'s slug of the title.
#[verifier::external_body]
fn item_filename(id: &str, title: &str) -> (r: String)
    ensures
        r@ == id@ + seq!['-'] + slug_of(title@) + ".yaml"@,
{
    joy_core::model::item::item_filename(id, title)
}

/// The file a task is written to: `<root>/.jot/items/{ID}-{slug}.yaml`.
pub fn task_file_path(root: &str, id: &str, title: &str) -> (r: String)
    ensures
        r@ == path_join(
            path_join(path_join(root@, JOT_DIR@), ITEMS_DIR@),
            id@ + seq!['-'] + slug_of(title@) + ".yaml"@,
        ),
{
    join_path(items_dir(root).as_str(), item_filename(id, title).as_str())
}

// ---------------------------------------------------------------------------
// The next ID
// ---------------------------------------------------------------------------

/// What `joy_core::items::title_hash_suffix` gives for a title.
pub uninterp spec fn title_hash_of(title: Seq<char>) -> Seq<char>;

/// Uppercase hex digits.
pub open spec fn is_upper_hex_digit(c: char) -> bool {
    ('0' <= c && c <= '9') || ('A' <= c && c <= 'F')
}

/// `joy_core::items::title_hash_suffix`: the first byte of the title's
/// SHA-256, as two uppercase hex digits.
#[verifier::external_body]
fn title_hash_suffix(title: &str) -> (r: String)
    ensures
        r@ == title_hash_of(title@),
        r@.len() == 2,
        is_upper_hex_digit(r@[0]) && is_upper_hex_digit(r@[1]),
{
    joy_core::items::title_hash_suffix(title)
}

/// The value of a hex digit.
pub open spec fn hex_val(c: char) -> nat {
    if '0' <= c && c <= '9' {
        ((c as u32) - 48) as nat
    } else if 'a' <= c && c <= 'f' {
        ((c as u32) - 87) as nat
    } else {
        ((c as u32) - 55) as nat
    }
}

/// The value of a string of hex digits.
pub open spec fn hex_value(s: Seq<char>) -> nat
    decreases s.len(),
{
    if s.len() == 0 {
        0
    } else {
        hex_value(s.drop_last()) * 16 + hex_val(s.last())
    }
}

/// `u16::from_str_radix(s, 16)` on at most four chars: an optional `+`,
/// then one or more hex digits (either case).
pub open spec fn parse_hex(s: Seq<char>) -> Option<nat> {
    let d = if s.len() > 0 && s[0] == '+' {
        s.skip(1)
    } else {
        s
    };
    if d.len() > 0 && all_hex(d) {
        Some(hex_value(d))
    } else {
        None
    }
}

/// The counter of a task file name: the four bytes after `TODO-` read as
/// hex. When those bytes are not four ASCII chars they are not a hex
/// number either, so only ASCII chars are read.
pub open spec fn counter_of(name: Seq<char>) -> Option<nat> {
    if has_prefix(name, acronym_dash()) {
        let rest = name.skip(5);
        if rest.len() >= 4 && is_ascii_chars(rest.take(4)) {
            parse_hex(rest.take(4))
        } else {
            None
        }
    } else {
        None
    }
}

/// The greatest counter among the names, 0 when there is none.
pub open spec fn max_counter(names: Seq<Seq<char>>) -> nat
    decreases names.len(),
{
    if names.len() == 0 {
        0
    } else {
        let m = max_counter(names.drop_last());
        match counter_of(names.last()) {
            Some(c) => if c > m {
                c
            } else {
                m
            },
            None => m,
        }
    }
}

/// An uppercase hex digit of a value below 16.
pub open spec fn hex_digit(d: nat) -> char {
    if d < 10 {
        ((d + 48) as u32) as char
    } else {
        ((d + 55) as u32) as char
    }
}

/// A value below 0x10000 as four uppercase hex digits (`{:04X}`).
pub open spec fn hex4(n: nat) -> Seq<char> {
    seq![hex_digit(n / 4096), hex_digit((n / 256) % 16), hex_digit((n / 16) % 16), hex_digit(n % 16)]
}

/// The error when every counter is taken.
pub open spec fn exhausted_message() -> Seq<char> {
    "TODO ID space exhausted (max TODO-FFFF)"@
}

/// What `next_id` gives: `TODO-{max+1:04X}-{hash}`, or the exhausted
/// error when the greatest counter is already `FFFF`.
pub open spec fn next_id_spec(names: Seq<Seq<char>>, title: Seq<char>) -> Result<Seq<char>, Seq<char>> {
    let next = max_counter(names) + 1;
    if next > 0xFFFF {
        Err(exhausted_message())
    } else {
        Ok(acronym_dash() + hex4(next) + seq!['-'] + title_hash_of(title))
    }
}

fn hex_val_exec(c: char) -> (r: u32)
    requires
        is_hex(c),
    ensures
        r == hex_val(c),
        r < 16,
{
    if '0' <= c && c <= '9' {
        (c as u32) - 48
    } else if 'a' <= c && c <= 'f' {
        (c as u32) - 87
    } else {
        (c as u32) - 55
    }
}

/// The counter of one file name.
fn counter_of_exec(name: &Vec<char>) -> (r: Option<u32>)
    ensures
        match r {
            Some(c) => counter_of(name@) == Some(c as nat) && c <= 0xFFFF,
            None => counter_of(name@) is None,
        },
{
    if !starts_with(name, &acronym_dash_vec()) {
        return None;
    }
    let n = name.len();
    if n < 9 {
        return None;
    }
    let four = subvec(name, 5, 9);
    assert(four@ =~= name@.skip(5).take(4));
    let mut k: usize = 0;
    while k < 4
        invariant
            k <= 4,
            four@.len() == 4,
            forall|j: int| 0 <= j < k ==> ((#[trigger] four@[j]) as u32) < 128,
            four@ == name@.skip(5).take(4),
            has_prefix(name@, acronym_dash()),
            name@.len() >= 9,
        decreases 4 - k,
    {
        if (four[k] as u32) >= 128 {
            assert(!((four@[k as int] as u32) < 128));
            assert(!is_ascii_chars(four@));
            return None;
        }
        k = k + 1;
    }
    let start: usize = if four[0] == '+' {
        1
    } else {
        0
    };
    let ghost d = if four@[0] == '+' {
        four@.skip(1)
    } else {
        four@
    };
    assert(d =~= four@.subrange(start as int, 4));
    let mut i: usize = start;
    let mut acc: u32 = 0;
    while i < 4
        invariant
            start <= i <= 4,
            four@.len() == 4,
            d == four@.subrange(start as int, 4),
            acc == hex_value(d.take(i - start)),
            acc < 0x10000,
            i - start <= 4,
            acc < pow16(i - start),
            all_hex(d.take(i - start)),
            start <= 1,
            d == (if four@[0] == '+' {
                four@.skip(1)
            } else {
                four@
            }),
            four@ == name@.skip(5).take(4),
            is_ascii_chars(four@),
            has_prefix(name@, acronym_dash()),
            name@.len() >= 9,
        decreases 4 - i,
    {
        let c = four[i];
        assert(d[i - start] == c);
        if !(('0' <= c && c <= '9') || ('a' <= c && c <= 'f') || ('A' <= c && c <= 'F')) {
            assert(!is_hex(d[i - start]));
            assert(!all_hex(d));
            return None;
        }
        let v = hex_val_exec(c);
        let ghost t = d.take(i - start + 1);
        assert(t.drop_last() =~= d.take(i - start));
        assert(t.last() == c);
        assert(acc * 16 + v < pow16(i - start + 1)) by {
            assert(pow16(i - start + 1) == pow16(i - start) * 16);
        }
        acc = acc * 16 + v;
        assert(all_hex(t)) by {
            assert forall|j: int| 0 <= j < t.len() implies is_hex(#[trigger] t[j]) by {
                if j < i - start {
                    assert(t[j] == d.take(i - start)[j]);
                }
            }
        }
        i = i + 1;
    }
    assert(d.take(4 - start) =~= d);
    Some(acc)
}

/// 16 to the power `k`, for `k` at most 4.
pub open spec fn pow16(k: int) -> int {
    if k <= 0 {
        1
    } else if k == 1 {
        16
    } else if k == 2 {
        256
    } else if k == 3 {
        4096
    } else {
        65536
    }
}

fn hex_digit_exec(d: u32) -> (c: char)
    requires
        d < 16,
    ensures
        c == hex_digit(d as nat),
{
    if d < 10 {
        char_of(d + 48)
    } else {
        char_of(d + 55)
    }
}

fn char_of(u: u32) -> (c: char)
    requires
        48 <= u <= 70,
    ensures
        c == (u as char),
{
    match u {
        48 => '0',
        49 => '1',
        50 => '2',
        51 => '3',
        52 => '4',
        53 => '5',
        54 => '6',
        55 => '7',
        56 => '8',
        57 => '9',
        58 => ':',
        59 => ';',
        60 => '<',
        61 => '=',
        62 => '>',
        63 => '?',
        64 => '@',
        65 => 'A',
        66 => 'B',
        67 => 'C',
        68 => 'D',
        69 => 'E',
        _ => 'F',
    }
}

/// Generate the next ID, `TODO-XXXX-YY`, from the names of the files
/// already in the items directory (none when it does not exist): one past
/// the greatest counter found, with the title's hash as suffix.
pub fn next_id(names: &[&str], title: &str) -> (r: Result<String, String>)
    ensures
        match (r, next_id_spec(views_of(names@), title@)) {
            (Ok(s), Ok(x)) => s@ == x,
            (Err(e), Err(m)) => e@ == m,
            _ => false,
        },
{
    let suffix = title_hash_suffix(title);
    let ghost ns = views_of(names@);
    let mut max_num: u32 = 0;
    let mut i: usize = 0;
    while i < names.len()
        invariant
            i <= names@.len(),
            ns == views_of(names@),
            max_num == max_counter(ns.take(i as int)),
            max_num <= 0xFFFF,
        decreases names@.len() - i,
    {
        let name = chars_of(names[i]);
        assert(ns.take(i + 1).drop_last() =~= ns.take(i as int));
        assert(ns.take(i + 1).last() == name@);
        if let Some(c) = counter_of_exec(&name) {
            if c > max_num {
                max_num = c;
            }
        }
        i = i + 1;
    }
    assert(ns.take(names@.len() as int) =~= ns);
    if max_num >= 0xFFFF {
        return Err("TODO ID space exhausted (max TODO-FFFF)".to_owned());
    }
    let next = max_num + 1;
    let mut v = acronym_dash_vec();
    v.push(hex_digit_exec(next / 4096));
    v.push(hex_digit_exec((next / 256) % 16));
    v.push(hex_digit_exec((next / 16) % 16));
    v.push(hex_digit_exec(next % 16));
    v.push('-');
    extend_chars(&mut v, &chars_of(suffix.as_str()));
    assert(v@ =~= acronym_dash() + hex4(next as nat) + seq!['-'] + title_hash_of(title@));
    Ok(string_of(&v))
}

proof fn lemma_max_counter(names: Seq<Seq<char>>, i: int)
    requires
        0 <= i < names.len(),
    ensures
        counter_of(names[i]) matches Some(c) ==> c <= max_counter(names),
    decreases names.len(),
{
    if i < names.len() - 1 {
        lemma_max_counter(names.drop_last(), i);
        assert(names.drop_last()[i] == names[i]);
    }
}

proof fn lemma_hex_digit(d: nat)
    requires
        d < 16,
    ensures
        hex_val(hex_digit(d)) == d,
        is_hex(hex_digit(d)),
        (hex_digit(d) as u32) < 128,
        hex_digit(d) != '+',
{
    if d < 10 {
        assert((((d + 48) as u32) as char) as u32 == d + 48);
    } else {
        assert((((d + 55) as u32) as char) as u32 == d + 55);
    }
}

proof fn lemma_hex4_reads_back(n: nat)
    requires
        n < 0x10000,
    ensures
        is_ascii_chars(hex4(n)),
        parse_hex(hex4(n)) == Some(n),
{
    let h = hex4(n);
    let d3 = n / 4096;
    let d2 = (n / 256) % 16;
    let d1 = (n / 16) % 16;
    let d0 = n % 16;
    assert(n == ((d3 * 16 + d2) * 16 + d1) * 16 + d0) by (nonlinear_arith)
        requires
            d3 == n / 4096,
            d2 == (n / 256) % 16,
            d1 == (n / 16) % 16,
            d0 == n % 16,
    ;
    assert(d3 < 16);
    lemma_hex_digit(d3);
    lemma_hex_digit(d2);
    lemma_hex_digit(d1);
    lemma_hex_digit(d0);
    assert(all_hex(h));
    assert(h[0] != '+');
    assert(h.drop_last().drop_last().drop_last().drop_last() =~= Seq::<char>::empty());
    assert(h.drop_last().drop_last().drop_last() =~= seq![h[0]]);
    assert(h.drop_last().drop_last() =~= seq![h[0], h[1]]);
    assert(h.drop_last() =~= seq![h[0], h[1], h[2]]);
    assert(hex_value(Seq::<char>::empty()) == 0);
    assert(hex_value(seq![h[0]]) == d3) by {
        assert(seq![h[0]].drop_last() =~= Seq::<char>::empty());
    }
    assert(hex_value(seq![h[0], h[1]]) == d3 * 16 + d2) by {
        assert(seq![h[0], h[1]].drop_last() =~= seq![h[0]]);
    }
    assert(hex_value(seq![h[0], h[1], h[2]]) == (d3 * 16 + d2) * 16 + d1) by {
        assert(seq![h[0], h[1], h[2]].drop_last() =~= seq![h[0], h[1]]);
    }
    assert(hex_value(h) == n);
}

/// `next_id` never reuses a counter: the new ID's counter reads back as one
/// past the greatest counter among the existing files, so it is greater
/// than the counter of every existing file.
pub proof fn law_next_id_is_fresh(names: Seq<Seq<char>>, title: Seq<char>)
    ensures
        next_id_spec(names, title) matches Ok(id) ==> counter_of(id) == Some(max_counter(names) + 1)
            && forall|i: int|
            0 <= i < names.len() ==> ((#[trigger] counter_of(names[i])) matches Some(c) ==> c
                < max_counter(names) + 1),
{
    let n = max_counter(names) + 1;
    if n <= 0xFFFF {
        let id = acronym_dash() + hex4(n) + seq!['-'] + title_hash_of(title);
        lemma_hex4_reads_back(n);
        assert(id.take(5) =~= acronym_dash());
        assert(id.skip(5).take(4) =~= hex4(n));
        assert forall|i: int| 0 <= i < names.len() implies ((#[trigger] counter_of(names[i])) matches Some(
            c,
        ) ==> c < n) by {
            lemma_max_counter(names, i);
        }
    }
}

// ---------------------------------------------------------------------------
// Finding a task's file
// ---------------------------------------------------------------------------

/// Whether a file name belongs to the ID typed as `id`: its uppercase
/// starts with the normalised ID and a dash.
pub open spec fn names_task(name: Seq<char>, id: Seq<char>) -> bool {
    has_prefix(upper(name), normalize_spec(id) + seq!['-'])
}

/// The file names that belong to `id`, in order.
pub open spec fn task_files(names: Seq<Seq<char>>, id: Seq<char>) -> Seq<Seq<char>> {
    names.filter(|n: Seq<char>| names_task(n, id))
}

/// The error for an ID that matches no file.
pub open spec fn not_found_message(id: Seq<char>) -> Seq<char> {
    "task not found: "@ + id
}

/// The error for an ID that matches several files.
pub open spec fn ambiguous_message(id: Seq<char>, count: nat) -> Seq<char> {
    "ambiguous ID "@ + id + ": "@ + decimal(count) + " matches"@
}

/// Find the file of a task among the names of the files in the items
/// directory (none when it does not exist). Accepts the display short
/// form (`#A1`, `A1`), the short form (`TODO-00A1`) or the full form
/// (`TODO-00A1-EA`); fails when no file or several files match.
pub fn find_task_file(names: &[&str], id: &str) -> (r: Result<String, String>)
    ensures
        ({
            let found = task_files(views_of(names@), id@);
            if found.len() == 0 {
                r matches Err(e) && e@ == not_found_message(id@)
            } else if found.len() == 1 {
                r matches Ok(n) && n@ == found[0]
            } else {
                r matches Err(e) && e@ == ambiguous_message(id@, found.len())
            }
        }),
{
    let ghost ns = views_of(names@);
    let ghost pred = |n: Seq<char>| names_task(n, id@);
    let normalized = normalize_id_input(id);
    let mut prefix = chars_of(normalized.as_str());
    prefix.push('-');
    let mut matches: Vec<&str> = Vec::new();
    let mut i: usize = 0;
    while i < names.len()
        invariant
            i <= names@.len(),
            ns == views_of(names@),
            pred == (|n: Seq<char>| names_task(n, id@)),
            prefix@ == normalize_spec(id@) + seq!['-'],
            views_of(matches@) == ns.take(i as int).filter(pred),
        decreases names@.len() - i,
    {
        let name = names[i];
        let up = upper_chars(&chars_of(name));
        proof {
            assert(ns.take(i + 1) =~= ns.take(i as int).push(name@));
            ns.take(i as int).lemma_filter_push(name@, pred);
        }
        if starts_with(&up, &prefix) {
            matches.push(name);
            assert(views_of(matches@) =~= ns.take(i as int).filter(pred).push(name@));
        }
        i = i + 1;
    }
    assert(ns.take(names@.len() as int) =~= ns);
    let count = matches.len();
    if count == 0 {
        let mut e = chars_of("task not found: ");
        extend_chars(&mut e, &chars_of(id));
        return Err(string_of(&e));
    }
    if count == 1 {
        assert(views_of(matches@)[0] == matches@[0]@);
        return Ok(matches[0].to_owned());
    }
    let mut e = chars_of("ambiguous ID ");
    extend_chars(&mut e, &chars_of(id));
    extend_chars(&mut e, &chars_of(": "));
    let ghost head = e@;
    push_decimal(&mut e, count as u64);
    extend_chars(&mut e, &chars_of(" matches"));
    assert(e@ =~= head + decimal(count as nat) + " matches"@);
    Err(string_of(&e))
}

// ---------------------------------------------------------------------------
// Laws
// ---------------------------------------------------------------------------

/// The chars of a canonical full ID are ASCII, none a lowercase letter,
/// whitespace or `#`.
proof fn lemma_full_id_chars(counter: Seq<char>, suffix: Seq<char>)
    requires
        canonical_parts(counter, suffix),
    ensures
        forall|j: int|
            0 <= j < full_id(counter, suffix).len() ==> {
                let c = #[trigger] full_id(counter, suffix)[j];
                &&& (c as u32) < 128
                &&& !('a' <= c && c <= 'z')
                &&& !is_ws(c)
                &&& c != '#'
            },
{
    let f = full_id(counter, suffix);
    assert forall|j: int| 0 <= j < f.len() implies {
        let c = #[trigger] f[j];
        &&& (c as u32) < 128
        &&& !('a' <= c && c <= 'z')
        &&& !is_ws(c)
        &&& c != '#'
    } by {
        if 5 <= j < 9 {
            assert(f[j] == counter[j - 5]);
            assert(is_upper_hex(counter[j - 5]));
        } else if 10 <= j {
            assert(f[j] == suffix[j - 10]);
            assert(is_upper_hex(suffix[j - 10]));
        }
    }
}

/// The file a task with a canonical ID `TODO-XXXX-YY` is saved to,
/// `{ID}-{slug}.yaml`, is among the files that `find_task_file` matches
/// for that full ID and for the short form `format_ids` shows for it,
/// whatever the title.
pub proof fn law_saved_file_matches_its_ids(counter: Seq<char>, suffix: Seq<char>, title: Seq<char>)
    requires
        canonical_parts(counter, suffix),
    ensures
        names_task(
            full_id(counter, suffix) + seq!['-'] + slug_of(title) + ".yaml"@,
            full_id(counter, suffix),
        ),
        names_task(
            full_id(counter, suffix) + seq!['-'] + slug_of(title) + ".yaml"@,
            short_id_spec(full_id(counter, suffix)),
        ),
{
    let f = full_id(counter, suffix);
    let head = f + seq!['-'];
    let tail = slug_of(title) + ".yaml"@;
    let name = f + seq!['-'] + slug_of(title) + ".yaml"@;
    assert(name =~= head + tail);
    lemma_full_id_chars(counter, suffix);
    // The ID and its dash are already uppercase, and the mapping goes
    // char by char.
    assert forall|j: int| 0 <= j < head.len() implies (#[trigger] head[j] as u32) < 128 && !('a'
        <= head[j] && head[j] <= 'z') by {
        if j < f.len() {
            assert(head[j] == f[j]);
        }
    }
    lemma_upper_noop(head);
    lemma_upper_concat(head, tail);
    assert(upper(name).take(head.len() as int) =~= head);
    // The full ID normalizes to itself.
    assert(f[0] == 'T');
    lemma_trim_noop(f);
    assert(skip_char_end(f, '#', 0) == 0);
    assert(f.skip(0) =~= f);
    lemma_upper_noop(f);
    assert(f.take(5) =~= acronym_dash());
    assert(normalize_spec(f) == f);
    // The short form normalizes to `TODO-XXXX`, the first nine chars.
    law_short_id_normalizes_to_prefix(counter, suffix);
    let p = normalize_spec(short_id_spec(f)) + seq!['-'];
    assert(p =~= acronym_dash() + counter + seq!['-']);
    assert(upper(name).take(10) =~= p) by {
        assert forall|j: int| 0 <= j < 10 implies upper(name).take(10)[j] == p[j] by {
            assert(upper(name).take(head.len() as int)[j] == head[j]);
            assert(f[j] == p[j]);
        }
    }
}

} // verus!
