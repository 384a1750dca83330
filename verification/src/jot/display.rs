//! Short-form task IDs.
//!
//! Full IDs look like `TODO-00A1-EA`: the acronym, a hex counter and a
//! two-hex-digit title hash. For display only the counter is shown,
//! without leading zeros: `#A1`. When two IDs in one list share a
//! counter, those rows keep the suffix so they stay addressable:
//! `#A1-EA`, `#A1-7F`.

use vstd::prelude::*;

use crate::text::{
    all_hex, all_hex_exec, find_char_from, is_ascii_chars, is_ws, lemma_find_char_absent,
    lemma_find_char_at, lemma_find_char_from, lemma_skip_char_end, lemma_trim_noop, lemma_upper_fixed, lemma_upper_noop, upper_char,
    lemma_utf8_len_ascii, skip_char_end, eq_chars, trim, trim_chars, upper_chars, upper, utf8_len, utf8_len_le,
    chars_of, extend_chars, has_prefix, split_once, split_once_chars, starts_with, string_of,
    subvec, trim_start_char, trim_start_char_exec,
};

verus! {

/// `TODO-`, the acronym and its dash.
pub open spec fn acronym_dash() -> Seq<char> {
    seq!['T', 'O', 'D', 'O', '-']
}

/// `todo-`, the lowercase acronym and its dash.
pub open spec fn acronym_dash_lower() -> Seq<char> {
    seq!['t', 'o', 'd', 'o', '-']
}

/// A full ID without its acronym prefix (either case), if it has one.
pub open spec fn strip_acronym(full: Seq<char>) -> Seq<char> {
    if has_prefix(full, acronym_dash()) || has_prefix(full, acronym_dash_lower()) {
        full.skip(5)
    } else {
        full
    }
}

/// The counter and optional title-hash suffix of a full ID.
pub open spec fn split_full_id_spec(full: Seq<char>) -> (Seq<char>, Option<Seq<char>>) {
    let w = strip_acronym(full);
    match split_once(w, '-') {
        Some((c, s)) => (c, Some(s)),
        None => (w, None),
    }
}

/// A hex counter without leading zeros, keeping at least one digit.
pub open spec fn strip_zeros_spec(hex: Seq<char>) -> Seq<char> {
    let t = trim_start_char(hex, '0');
    if t.len() == 0 {
        seq!['0']
    } else {
        t
    }
}

/// The short display form of one full ID: `#` and the counter without
/// leading zeros.
pub open spec fn short_id_spec(full: Seq<char>) -> Seq<char> {
    seq!['#'] + strip_zeros_spec(split_full_id_spec(full).0)
}

pub fn acronym_dash_vec() -> (r: Vec<char>)
    ensures
        r@ == acronym_dash(),
{
    let mut v: Vec<char> = Vec::new();
    v.push('T');
    v.push('O');
    v.push('D');
    v.push('O');
    v.push('-');
    assert(v@ =~= acronym_dash());
    v
}

fn acronym_dash_lower_vec() -> (r: Vec<char>)
    ensures
        r@ == acronym_dash_lower(),
{
    let mut v: Vec<char> = Vec::new();
    v.push('t');
    v.push('o');
    v.push('d');
    v.push('o');
    v.push('-');
    assert(v@ =~= acronym_dash_lower());
    v
}

/// Split a full ID `TODO-00A1-EA` into its counter (`00A1`) and optional
/// title-hash suffix (`EA`).
fn split_full_id(full: &Vec<char>) -> (r: (Vec<char>, Option<Vec<char>>))
    ensures
        r.0@ == split_full_id_spec(full@).0,
        match (r.1, split_full_id_spec(full@).1) {
            (Some(a), Some(b)) => a@ == b,
            (None, None) => true,
            _ => false,
        },
{
    let up = acronym_dash_vec();
    let low = acronym_dash_lower_vec();
    let without_prefix = if starts_with(full, &up) || starts_with(full, &low) {
        let w = subvec(full, 5, full.len());
        assert(w@ =~= full@.skip(5));
        w
    } else {
        subvec(full, 0, full.len())
    };
    assert(without_prefix@ =~= strip_acronym(full@));
    match split_once_chars(&without_prefix, '-') {
        Some((c, s)) => (c, Some(s)),
        None => (without_prefix, None),
    }
}

/// Strip leading zeros from a hex counter, keeping at least one digit.
fn strip_leading_zeros(hex: &Vec<char>) -> (r: Vec<char>)
    ensures
        r@ == strip_zeros_spec(hex@),
{
    let trimmed = trim_start_char_exec(hex, '0');
    if trimmed.len() == 0 {
        let mut v: Vec<char> = Vec::new();
        v.push('0');
        assert(v@ =~= seq!['0']);
        v
    } else {
        trimmed
    }
}

/// Render a short display ID for a single full ID, without disambiguation.
/// Use `format_ids` when rendering a list where collisions must be handled.
pub fn short_id(full: &str) -> (r: String)
    ensures
        r@ == short_id_spec(full@),
{
    let f = chars_of(full);
    let (counter, _) = split_full_id(&f);
    let digits = strip_leading_zeros(&counter);
    let mut out: Vec<char> = Vec::new();
    out.push('#');
    extend_chars(&mut out, &digits);
    string_of(&out)
}


/// The uppercased counter of a full ID, as `format_ids` compares them.
pub open spec fn id_counter(id: Seq<char>) -> Seq<char> {
    upper(split_full_id_spec(id).0)
}

/// The uppercased title-hash suffix of a full ID, if it has one.
pub open spec fn id_suffix(id: Seq<char>) -> Option<Seq<char>> {
    match split_full_id_spec(id).1 {
        Some(s) => Some(upper(s)),
        None => None,
    }
}

/// Another ID of the list has the same (uppercased) counter as `ids[i]`.
pub open spec fn counter_collides(ids: Seq<Seq<char>>, i: int) -> bool {
    exists|j: int| 0 <= j < ids.len() && j != i && id_counter(ids[j]) == id_counter(ids[i])
}

/// The label `format_ids` gives `ids[i]`: the short counter, plus the
/// suffix when the counter collides within the list.
pub open spec fn list_label(ids: Seq<Seq<char>>, i: int) -> Seq<char> {
    let short = seq!['#'] + strip_zeros_spec(id_counter(ids[i]));
    if counter_collides(ids, i) && id_suffix(ids[i]) is Some {
        short + seq!['-'] + id_suffix(ids[i]).unwrap()
    } else {
        short
    }
}

/// The views of a list of string slices.
pub open spec fn views_of(ids: Seq<&str>) -> Seq<Seq<char>> {
    Seq::new(ids.len(), |i: int| ids[i]@)
}

/// Render short display IDs for a list of full IDs, expanding only the
/// rows whose counters collide within the list. Returns one string per
/// input, in the same order.
pub fn format_ids(full_ids: &[&str]) -> (r: Vec<String>)
    ensures
        r@.len() == full_ids@.len(),
        forall|i: int| 0 <= i < r@.len() ==> (#[trigger] r@[i])@ == list_label(views_of(full_ids@), i),
{
    let ghost ids = views_of(full_ids@);
    let n = full_ids.len();
    let mut counters: Vec<Vec<char>> = Vec::new();
    let mut suffixes: Vec<Option<Vec<char>>> = Vec::new();
    let mut i: usize = 0;
    while i < n
        invariant
            n == full_ids@.len(),
            ids == views_of(full_ids@),
            i <= n,
            counters@.len() == i,
            suffixes@.len() == i,
            forall|k: int| 0 <= k < i ==> (#[trigger] counters@[k])@ == id_counter(ids[k]),
            forall|k: int|
                0 <= k < i ==> match (#[trigger] suffixes@[k], id_suffix(ids[k])) {
                    (Some(a), Some(b)) => a@ == b,
                    (None, None) => true,
                    _ => false,
                },
        decreases n - i,
    {
        let f = chars_of(full_ids[i]);
        let (c, sfx) = split_full_id(&f);
        counters.push(upper_chars(&c));
        match sfx {
            Some(x) => suffixes.push(Some(upper_chars(&x))),
            None => suffixes.push(None),
        }
        i = i + 1;
    }
    let mut out: Vec<String> = Vec::new();
    let mut i: usize = 0;
    while i < n
        invariant
            n == full_ids@.len(),
            ids == views_of(full_ids@),
            i <= n,
            counters@.len() == n,
            suffixes@.len() == n,
            forall|k: int| 0 <= k < n ==> (#[trigger] counters@[k])@ == id_counter(ids[k]),
            forall|k: int|
                0 <= k < n ==> match (#[trigger] suffixes@[k], id_suffix(ids[k])) {
                    (Some(a), Some(b)) => a@ == b,
                    (None, None) => true,
                    _ => false,
                },
            out@.len() == i,
            forall|k: int| 0 <= k < i ==> (#[trigger] out@[k])@ == list_label(ids, k),
        decreases n - i,
    {
        let mut collides = false;
        let mut j: usize = 0;
        while j < n
            invariant
                n == counters@.len(),
                i < n,
                j <= n,
                forall|k: int| 0 <= k < n ==> (#[trigger] counters@[k])@ == id_counter(ids[k]),
                collides == exists|m: int|
                    0 <= m < j && m != i && id_counter(ids[m]) == id_counter(ids[i as int]),
            decreases n - j,
        {
            if j != i && eq_chars(&counters[j], &counters[i]) {
                assert(id_counter(ids[j as int]) == id_counter(ids[i as int]));
                collides = true;
            }
            j = j + 1;
        }
        let short = strip_leading_zeros(&counters[i]);
        let mut label: Vec<char> = Vec::new();
        label.push('#');
        extend_chars(&mut label, &short);
        match &suffixes[i] {
            Some(sfx) => {
                if collides {
                    label.push('-');
                    extend_chars(&mut label, sfx);
                }
            },
            None => {},
        }
        out.push(string_of(&label));
        i = i + 1;
    }
    out
}

/// Pad with `0` on the left to at least four chars (`format!("{:0>4}")`).
pub open spec fn pad4_spec(s: Seq<char>) -> Seq<char> {
    if s.len() < 4 {
        Seq::new((4 - s.len()) as nat, |i: int| '0') + s
    } else {
        s
    }
}

/// The ID typed by a user without its surrounding whitespace and
/// leading `#` marks.
pub open spec fn id_input_core(raw: Seq<char>) -> Seq<char> {
    trim_start_char(trim(raw), '#')
}

/// The counter and optional suffix of a short-form input.
pub open spec fn input_parts(t: Seq<char>) -> (Seq<char>, Option<Seq<char>>) {
    match split_once(t, '-') {
        Some((c, s)) => (c, Some(s)),
        None => (t, None),
    }
}

/// A counter of one to four hex digits (at most four bytes).
pub open spec fn valid_counter(c: Seq<char>) -> bool {
    c.len() > 0 && utf8_len(c) <= 4 && all_hex(c)
}

/// A suffix of exactly two hex digits.
pub open spec fn valid_suffix(s: Seq<char>) -> bool {
    utf8_len(s) == 2 && all_hex(s)
}

/// What `normalize_id_input` returns.
pub open spec fn normalize_spec(raw: Seq<char>) -> Seq<char> {
    let t = id_input_core(raw);
    let up = upper(t);
    if has_prefix(up, acronym_dash()) {
        up
    } else {
        let (counter, suffix) = input_parts(t);
        if !valid_counter(counter) {
            raw
        } else {
            let padded = pad4_spec(upper(counter));
            if suffix is Some && valid_suffix(suffix.unwrap()) {
                acronym_dash() + padded + seq!['-'] + upper(suffix.unwrap())
            } else {
                acronym_dash() + padded
            }
        }
    }
}

fn pad4(s: &Vec<char>) -> (r: Vec<char>)
    ensures
        r@ == pad4_spec(s@),
{
    if s.len() < 4 {
        let mut r: Vec<char> = Vec::new();
        let k = 4 - s.len();
        let mut i: usize = 0;
        while i < k
            invariant
                i <= k,
                k == 4 - s@.len(),
                r@ == Seq::new(i as nat, |m: int| '0'),
            decreases k - i,
        {
            r.push('0');
            i = i + 1;
            assert(r@ =~= Seq::new(i as nat, |m: int| '0'));
        }
        extend_chars(&mut r, s);
        r
    } else {
        subvec(s, 0, s.len())
    }
}

/// Normalize any of `#A1`, `A1`, `a1`, `TODO-00A1`, `TODO-00A1-EA`,
/// `#A1-EA` to the full form a lookup understands (uppercase, with the
/// `TODO-` prefix and a 4-digit counter). Anything that does not look
/// like a short or full ID comes back unchanged.
pub fn normalize_id_input(raw: &str) -> (r: String)
    ensures
        r@ == normalize_spec(raw@),
{
    let rv = chars_of(raw);
    let t0 = trim_chars(&rv);
    let t = trim_start_char_exec(&t0, '#');
    let up = upper_chars(&t);
    let acr = acronym_dash_vec();
    if starts_with(&up, &acr) {
        return string_of(&up);
    }
    let (counter, suffix) = match split_once_chars(&t, '-') {
        Some((c, s)) => (c, Some(s)),
        None => (subvec(&t, 0, t.len()), None),
    };
    assert(counter@ == input_parts(t@).0);
    let counter_valid = counter.len() > 0 && utf8_len_le(&counter, 4) && all_hex_exec(&counter);
    if !counter_valid {
        return string_of(&rv);
    }
    let padded = pad4(&upper_chars(&counter));
    let mut out = acr;
    extend_chars(&mut out, &padded);
    match suffix {
        Some(sfx) => {
            let sfx_valid = utf8_len_le(&sfx, 2) && !utf8_len_le(&sfx, 1) && all_hex_exec(&sfx);
            if sfx_valid {
                out.push('-');
                extend_chars(&mut out, &upper_chars(&sfx));
            }
        },
        None => {},
    }
    string_of(&out)
}


/// An uppercase hex digit.
pub open spec fn is_upper_hex(c: char) -> bool {
    ('0' <= c && c <= '9') || ('A' <= c && c <= 'F')
}

/// A counter of exactly four and a suffix of exactly two uppercase hex
/// digits, as the ID generator writes them.
pub open spec fn canonical_parts(counter: Seq<char>, suffix: Seq<char>) -> bool {
    &&& counter.len() == 4
    &&& suffix.len() == 2
    &&& forall|i: int| 0 <= i < 4 ==> is_upper_hex(#[trigger] counter[i])
    &&& forall|i: int| 0 <= i < 2 ==> is_upper_hex(#[trigger] suffix[i])
}

/// The full ID `TODO-<counter>-<suffix>`.
pub open spec fn full_id(counter: Seq<char>, suffix: Seq<char>) -> Seq<char> {
    acronym_dash() + counter + seq!['-'] + suffix
}

proof fn lemma_split_canonical(counter: Seq<char>, suffix: Seq<char>)
    requires
        canonical_parts(counter, suffix),
    ensures
        split_full_id_spec(full_id(counter, suffix)) == (counter, Some(suffix)),
{
    let full = full_id(counter, suffix);
    assert(full.take(5) =~= acronym_dash());
    let w = full.skip(5);
    assert(w =~= counter + seq!['-'] + suffix);
    assert(strip_acronym(full) == w);
    assert(w[4] == '-');
    assert forall|k: int| 0 <= k < 4 implies #[trigger] w[k] != '-' by {
        assert(w[k] == counter[k]);
        assert(is_upper_hex(counter[k]));
    }
    lemma_find_char_at(w, '-', 0, 4);
    assert(w.take(4) =~= counter);
    assert(w.skip(5) =~= suffix);
}

/// Stripping leading zeros from a four-digit counter and padding back to
/// four digits gives the counter again; the stripped form is a nonempty
/// run of uppercase hex digits.
proof fn lemma_strip_pad(counter: Seq<char>)
    requires
        counter.len() == 4,
        forall|i: int| 0 <= i < 4 ==> is_upper_hex(#[trigger] counter[i]),
    ensures
        pad4_spec(strip_zeros_spec(counter)) == counter,
        1 <= strip_zeros_spec(counter).len() <= 4,
        forall|i: int| 0 <= i < strip_zeros_spec(counter).len()
            ==> is_upper_hex(#[trigger] strip_zeros_spec(counter)[i]),
{
    lemma_skip_char_end(counter, '0', 0);
    let k = skip_char_end(counter, '0', 0);
    let x = strip_zeros_spec(counter);
    if k < 4 {
        assert(x =~= counter.skip(k));
        assert(pad4_spec(x) =~= counter) by {
            assert forall|i: int| 0 <= i < 4 implies pad4_spec(x)[i] == counter[i] by {
                if i < k {
                    assert(counter[i] == '0');
                }
            }
        }
    } else {
        assert(x =~= seq!['0']);
        assert(pad4_spec(x) =~= counter) by {
            assert forall|i: int| 0 <= i < 4 implies pad4_spec(x)[i] == counter[i] by {
                assert(counter[i] == '0');
            }
        }
    }
}

/// What a short input `#<digits>` or `#<digits>-<suffix>` normalizes to,
/// for uppercase hex digits.
proof fn lemma_normalize_short(x: Seq<char>, suffix: Option<Seq<char>>)
    requires
        1 <= x.len() <= 4,
        forall|i: int| 0 <= i < x.len() ==> is_upper_hex(#[trigger] x[i]),
        suffix matches Some(s) ==> s.len() == 2 && forall|i: int|
            0 <= i < 2 ==> is_upper_hex(#[trigger] s[i]),
    ensures
        normalize_spec(
            match suffix {
                Some(s) => seq!['#'] + x + seq!['-'] + s,
                None => seq!['#'] + x,
            },
        ) == match suffix {
            Some(s) => acronym_dash() + pad4_spec(x) + seq!['-'] + s,
            None => acronym_dash() + pad4_spec(x),
        },
{
    let core = match suffix {
        Some(s) => x + seq!['-'] + s,
        None => x,
    };
    let raw = seq!['#'] + core;
    assert(raw =~= match suffix {
        Some(s) => seq!['#'] + x + seq!['-'] + s,
        None => seq!['#'] + x,
    });
    assert forall|i: int| 0 <= i < core.len() implies (#[trigger] core[i] as u32) < 128 && !(
    'a' <= core[i] && core[i] <= 'z') && core[i] != '#' && !is_ws(core[i]) by {
        if i < x.len() {
            assert(core[i] == x[i]);
            assert(is_upper_hex(x[i]));
        } else if i > x.len() {
            let s = suffix.unwrap();
            assert(core[i] == s[i - x.len() - 1]);
            assert(is_upper_hex(s[i - x.len() - 1]));
        }
    }
    assert(raw[raw.len() - 1] == core[core.len() - 1]);
    lemma_trim_noop(raw);
    assert(skip_char_end(raw, '#', 1) == 1);
    assert(skip_char_end(raw, '#', 0) == 1);
    assert(raw.skip(1) =~= core);
    assert(id_input_core(raw) == core);
    lemma_upper_noop(core);
    assert(!has_prefix(core, acronym_dash())) by {
        if core.len() >= 5 {
            assert(core.take(5)[0] == core[0]);
            assert(is_upper_hex(x[0]));
        }
    }
    assert forall|i: int| 0 <= i < x.len() implies (#[trigger] x[i] as u32) < 128 && !('a' <= x[i]
        && x[i] <= 'z') by {
        assert(is_upper_hex(x[i]));
    }
    lemma_upper_noop(x);
    lemma_utf8_len_ascii(x);
    assert(all_hex(x)) by {
        assert forall|i: int| 0 <= i < x.len() implies crate::text::is_hex(#[trigger] x[i]) by {
            assert(is_upper_hex(x[i]));
        }
    }
    match suffix {
        Some(s) => {
            assert(core[x.len() as int] == '-');
            assert forall|k: int| 0 <= k < x.len() implies #[trigger] core[k] != '-' by {
                assert(core[k] == x[k]);
                assert(is_upper_hex(x[k]));
            }
            lemma_find_char_at(core, '-', 0, x.len() as int);
            assert(core.take(x.len() as int) =~= x);
            assert(core.skip(x.len() as int + 1) =~= s);
            assert forall|i: int| 0 <= i < s.len() implies (#[trigger] s[i] as u32) < 128 && !('a'
                <= s[i] && s[i] <= 'z') by {
                assert(is_upper_hex(s[i]));
            }
            lemma_upper_noop(s);
            assert(is_ascii_chars(s));
            lemma_utf8_len_ascii(s);
            assert(all_hex(s)) by {
                assert forall|i: int| 0 <= i < s.len() implies crate::text::is_hex(#[trigger] s[i]) by {
                    assert(is_upper_hex(s[i]));
                }
            }
        },
        None => {
            assert forall|k: int| 0 <= k < core.len() implies #[trigger] core[k] != '-' by {
                assert(is_upper_hex(x[k]));
            }
            lemma_find_char_absent(core, '-', 0);
        },
    }
}

/// A displayed short ID, typed back in, normalizes to the `TODO-XXXX`
/// prefix of the ID it was shown for, which is the form a lookup matches
/// against file names.
pub proof fn law_short_id_normalizes_to_prefix(counter: Seq<char>, suffix: Seq<char>)
    requires
        canonical_parts(counter, suffix),
    ensures
        normalize_spec(short_id_spec(full_id(counter, suffix))) == acronym_dash() + counter,
        has_prefix(full_id(counter, suffix), acronym_dash() + counter),
{
    lemma_split_canonical(counter, suffix);
    lemma_strip_pad(counter);
    let x = strip_zeros_spec(counter);
    lemma_normalize_short(x, None);
    assert(full_id(counter, suffix).take(9) =~= acronym_dash() + counter);
}

/// The disambiguated label of a colliding row (`#A1-EA`), typed back in,
/// normalizes to the full ID it was shown for.
pub proof fn law_suffixed_label_normalizes_to_full_id(counter: Seq<char>, suffix: Seq<char>)
    requires
        canonical_parts(counter, suffix),
    ensures
        normalize_spec(seq!['#'] + strip_zeros_spec(counter) + seq!['-'] + suffix) == full_id(
            counter,
            suffix,
        ),
{
    lemma_strip_pad(counter);
    let x = strip_zeros_spec(counter);
    lemma_normalize_short(x, Some(suffix));
}

/// An ID each of whose chars is its own uppercase, so that uppercasing
/// leaves it unchanged (as the ID generator writes IDs).
pub open spec fn uppercase_id(id: Seq<char>) -> bool {
    forall|j: int| 0 <= j < id.len() ==> upper_char(#[trigger] id[j]) == seq![id[j]]
}

/// The counter of an uppercase ID is already uppercase: it is the
/// counter `format_ids` compares.
proof fn lemma_counter_of_uppercase_id(id: Seq<char>)
    requires
        uppercase_id(id),
    ensures
        id_counter(id) == split_full_id_spec(id).0,
{
    let w = strip_acronym(id);
    assert(uppercase_id(w)) by {
        if has_prefix(id, acronym_dash()) || has_prefix(id, acronym_dash_lower()) {
            assert forall|j: int| 0 <= j < w.len() implies upper_char(#[trigger] w[j]) == seq![w[j]] by {
                assert(w[j] == id[j + 5]);
            }
        }
    }
    let c = split_full_id_spec(id).0;
    assert(uppercase_id(c)) by {
        lemma_find_char_from(w, '-', 0);
        let k = find_char_from(w, '-', 0);
        if k < w.len() {
            assert(c == w.take(k));
            assert forall|j: int| 0 <= j < c.len() implies upper_char(#[trigger] c[j]) == seq![c[j]] by {
                assert(c[j] == w[j]);
            }
        }
    }
    lemma_upper_fixed(c);
}

/// In a list of uppercase IDs (each char its own uppercase) whose
/// counters (the text after an optional `TODO-` up to the first `-`) are
/// pairwise distinct, every row keeps its short form: `format_ids` labels
/// each ID as `short_id` does.
pub proof fn law_distinct_counters_stay_short(ids: Seq<Seq<char>>, i: int)
    requires
        0 <= i < ids.len(),
        forall|k: int| 0 <= k < ids.len() ==> uppercase_id(#[trigger] ids[k]),
        forall|k: int, j: int|
            0 <= k < ids.len() && 0 <= j < ids.len() && k != j ==> split_full_id_spec(
                #[trigger] ids[k],
            ).0 != split_full_id_spec(#[trigger] ids[j]).0,
    ensures
        list_label(ids, i) == short_id_spec(ids[i]),
{
    lemma_counter_of_uppercase_id(ids[i]);
    assert(!counter_collides(ids, i)) by {
        if counter_collides(ids, i) {
            let j = choose|j: int|
                0 <= j < ids.len() && j != i && id_counter(ids[j]) == id_counter(ids[i]);
            lemma_counter_of_uppercase_id(ids[j]);
        }
    }
}

} // verus!
