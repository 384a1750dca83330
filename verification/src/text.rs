//! Character-sequence helpers shared by the parsers and renderers.
//!
//! Strings are handled as sequences of `char`s. Byte lengths, where the
//! rules of a format speak of them, are the UTF-8 lengths of those chars.

use vstd::prelude::*;

verus! {

// ---------------------------------------------------------------------------
// Conversions between `str` / `String` and `Vec<char>`
// ---------------------------------------------------------------------------

/// The chars of a string slice, in order (`str::chars`, collected). A
/// string slice never spans more than `isize::MAX` bytes.
#[verifier::external_body]
pub fn chars_of(s: &str) -> (r: Vec<char>)
    ensures
        r@ == s@,
        utf8_len(r@) <= isize::MAX,
{
    s.chars().collect()
}

/// A `String` holding the given chars, in order (`FromIterator<char>`).
#[verifier::external_body]
pub fn string_of(v: &Vec<char>) -> (r: String)
    ensures
        r@ == v@,
{
    v.iter().collect()
}

/// Full Unicode lowercase mapping of a string (`str::to_lowercase`).
pub uninterp spec fn lowercase_of(s: Seq<char>) -> Seq<char>;

/// Full Unicode uppercase mapping of a char (`char::to_uppercase`).
pub uninterp spec fn char_uppercase_of(c: char) -> Seq<char>;

pub open spec fn is_ascii_chars(s: Seq<char>) -> bool {
    forall|i: int| 0 <= i < s.len() ==> (s[i] as u32) < 128
}

pub open spec fn ascii_lower_char(c: char) -> char {
    if 'A' <= c && c <= 'Z' {
        ((c as u32) + 32) as char
    } else {
        c
    }
}

pub open spec fn ascii_upper_char(c: char) -> char {
    if 'a' <= c && c <= 'z' {
        ((c as u32) - 32) as char
    } else {
        c
    }
}

pub open spec fn ascii_lower(s: Seq<char>) -> Seq<char> {
    Seq::new(s.len(), |i: int| ascii_lower_char(s[i]))
}

pub open spec fn ascii_upper(s: Seq<char>) -> Seq<char> {
    Seq::new(s.len(), |i: int| ascii_upper_char(s[i]))
}

/// The lowercase mapping: exact on ASCII-only strings, named otherwise.
pub open spec fn lower(s: Seq<char>) -> Seq<char> {
    if is_ascii_chars(s) {
        ascii_lower(s)
    } else {
        lowercase_of(s)
    }
}

/// The uppercase mapping of one char: for an ASCII char the ASCII
/// uppercase (only `a`..=`z` change), else as Unicode maps it.
pub open spec fn upper_char(c: char) -> Seq<char> {
    if (c as u32) < 128 {
        seq![ascii_upper_char(c)]
    } else {
        char_uppercase_of(c)
    }
}

/// The uppercase mapping of a string: each char mapped in turn, the
/// results joined.
pub open spec fn upper(s: Seq<char>) -> Seq<char>
    decreases s.len(),
{
    if s.len() == 0 {
        Seq::empty()
    } else {
        upper(s.drop_last()) + upper_char(s.last())
    }
}

/// `str::to_lowercase`. The result is the Unicode lowercase mapping of
/// the input; on an ASCII-only input that is the ASCII lowercase mapping
/// (only `A`..=`Z` change).
#[verifier::external_body]
pub fn to_lowercase(s: &str) -> (r: String)
    ensures
        r@ == lowercase_of(s@),
        is_ascii_chars(s@) ==> r@ == ascii_lower(s@),
{
    s.to_lowercase()
}

/// `char::to_uppercase`, collected: the Unicode uppercase mapping of a
/// char; for an ASCII char that is its ASCII uppercase (only `a`..=`z`
/// change, to `A`..=`Z`).
#[verifier::external_body]
fn char_to_uppercase(c: char) -> (r: Vec<char>)
    ensures
        r@ == char_uppercase_of(c),
        (c as u32) < 128 ==> r@ == seq![ascii_upper_char(c)],
{
    c.to_uppercase().collect()
}

/// Lowercase of a char sequence, as chars.
pub fn lower_chars(v: &Vec<char>) -> (r: Vec<char>)
    ensures
        r@ == lower(v@),
        utf8_len(r@) <= isize::MAX,
{
    let s = string_of(v);
    let l = to_lowercase(s.as_str());
    chars_of(l.as_str())
}

/// Uppercase of a char sequence, as chars (what `str::to_uppercase`
/// gives: the chars mapped one by one).
pub fn upper_chars(v: &Vec<char>) -> (r: Vec<char>)
    ensures
        r@ == upper(v@),
{
    let mut out: Vec<char> = Vec::new();
    let mut i: usize = 0;
    while i < v.len()
        invariant
            i <= v@.len(),
            out@ == upper(v@.take(i as int)),
        decreases v@.len() - i,
    {
        let u = char_to_uppercase(v[i]);
        assert(v@.take(i + 1).drop_last() =~= v@.take(i as int));
        assert(upper_char(v@[i as int]) == u@);
        let ghost before = out@;
        extend_chars(&mut out, &u);
        assert(out@ =~= before + u@);
        i = i + 1;
    }
    assert(v@.take(v@.len() as int) =~= v@);
    out
}

// ---------------------------------------------------------------------------
// Whitespace and trimming
// ---------------------------------------------------------------------------

/// Unicode `White_Space`, the set that `char::is_whitespace` and `str::trim` use.
pub open spec fn is_ws(c: char) -> bool {
    let u = c as u32;
    (0x9 <= u && u <= 0xd) || u == 0x20 || u == 0x85 || u == 0xa0 || u == 0x1680 || (0x2000 <= u
        && u <= 0x200a) || u == 0x2028 || u == 0x2029 || u == 0x202f || u == 0x205f || u == 0x3000
}

/// Executable whitespace test.
pub fn char_is_ws(c: char) -> (r: bool)
    ensures
        r == is_ws(c),
{
    let u = c as u32;
    (0x9 <= u && u <= 0xd) || u == 0x20 || u == 0x85 || u == 0xa0 || u == 0x1680 || (0x2000 <= u
        && u <= 0x200a) || u == 0x2028 || u == 0x2029 || u == 0x202f || u == 0x205f || u == 0x3000
}

/// Index of the first char at or after `i` that is not whitespace (or the length).
pub open spec fn lead_ws_end(s: Seq<char>, i: int) -> int
    decreases s.len() - i,
{
    if 0 <= i < s.len() && is_ws(s[i]) {
        lead_ws_end(s, i + 1)
    } else {
        i
    }
}

/// Index just past the last char before `j` that is not whitespace (or 0).
pub open spec fn trail_ws_start(s: Seq<char>, j: int) -> int
    decreases j,
{
    if 0 < j <= s.len() && is_ws(s[j - 1]) {
        trail_ws_start(s, j - 1)
    } else {
        j
    }
}

pub proof fn lemma_lead_ws_end(s: Seq<char>, i: int)
    requires
        0 <= i <= s.len(),
    ensures
        i <= lead_ws_end(s, i) <= s.len(),
        lead_ws_end(s, i) < s.len() ==> !is_ws(s[lead_ws_end(s, i)]),
        forall|k: int| i <= k < lead_ws_end(s, i) ==> is_ws(#[trigger] s[k]),
    decreases s.len() - i,
{
    if i < s.len() && is_ws(s[i]) {
        lemma_lead_ws_end(s, i + 1);
    }
}

pub proof fn lemma_trail_ws_start(s: Seq<char>, j: int)
    requires
        0 <= j <= s.len(),
    ensures
        0 <= trail_ws_start(s, j) <= j,
        trail_ws_start(s, j) > 0 ==> !is_ws(s[trail_ws_start(s, j) - 1]),
        forall|k: int| trail_ws_start(s, j) <= k < j ==> is_ws(#[trigger] s[k]),
    decreases j,
{
    if 0 < j && is_ws(s[j - 1]) {
        lemma_trail_ws_start(s, j - 1);
    }
}

/// `str::trim`: leading and trailing whitespace removed.
pub open spec fn trim(s: Seq<char>) -> Seq<char> {
    let a = lead_ws_end(s, 0);
    if a >= s.len() {
        Seq::empty()
    } else {
        s.subrange(a, trail_ws_start(s, s.len() as int))
    }
}

/// Executable `trim`.
pub fn trim_chars(v: &Vec<char>) -> (r: Vec<char>)
    ensures
        r@ == trim(v@),
{
    let n = v.len();
    let mut a: usize = 0;
    while a < n && char_is_ws(v[a])
        invariant
            a <= n,
            n == v@.len(),
            lead_ws_end(v@, 0) == lead_ws_end(v@, a as int),
        decreases n - a,
    {
        a = a + 1;
    }
    if a >= n {
        return Vec::new();
    }
    let mut b: usize = n;
    proof {
        lemma_lead_ws_end(v@, 0);
    }
    while b > a && char_is_ws(v[b - 1])
        invariant
            a < b <= n,
            n == v@.len(),
            !is_ws(v@[a as int]),
            trail_ws_start(v@, n as int) == trail_ws_start(v@, b as int),
        decreases b,
    {
        b = b - 1;
    }
    subvec(v, a, b)
}

/// A copy of `v[from..to]`.
pub fn subvec(v: &Vec<char>, from: usize, to: usize) -> (r: Vec<char>)
    requires
        from <= to <= v@.len(),
    ensures
        r@ == v@.subrange(from as int, to as int),
{
    let mut r: Vec<char> = Vec::new();
    let mut i: usize = from;
    while i < to
        invariant
            from <= i <= to,
            to <= v@.len(),
            r@ == v@.subrange(from as int, i as int),
        decreases to - i,
    {
        r.push(v[i]);
        i = i + 1;
    }
    r
}


// ---------------------------------------------------------------------------
// Comparison, search
// ---------------------------------------------------------------------------

/// `s` starts with `p`.
pub open spec fn has_prefix(s: Seq<char>, p: Seq<char>) -> bool {
    p.len() <= s.len() && s.take(p.len() as int) == p
}

/// Executable equality of two char sequences.
pub fn eq_chars(a: &Vec<char>, b: &Vec<char>) -> (r: bool)
    ensures
        r == (a@ == b@),
{
    if a.len() != b.len() {
        return false;
    }
    let mut i: usize = 0;
    while i < a.len()
        invariant
            i <= a@.len(),
            a@.len() == b@.len(),
            forall|k: int| 0 <= k < i ==> a@[k] == b@[k],
        decreases a@.len() - i,
    {
        if a[i] != b[i] {
            return false;
        }
        i = i + 1;
    }
    assert(a@ =~= b@);
    true
}

/// Executable prefix test.
pub fn starts_with(s: &Vec<char>, p: &Vec<char>) -> (r: bool)
    ensures
        r == has_prefix(s@, p@),
{
    if p.len() > s.len() {
        return false;
    }
    let mut i: usize = 0;
    while i < p.len()
        invariant
            i <= p@.len(),
            p@.len() <= s@.len(),
            forall|k: int| 0 <= k < i ==> s@[k] == p@[k],
        decreases p@.len() - i,
    {
        if s[i] != p[i] {
            assert(s@.take(p@.len() as int)[i as int] != p@[i as int]);
            return false;
        }
        i = i + 1;
    }
    assert(s@.take(p@.len() as int) =~= p@);
    true
}

/// Index of the first occurrence of `c` at or after `i` (or the length).
pub open spec fn find_char_from(s: Seq<char>, c: char, i: int) -> int
    decreases s.len() - i,
{
    if 0 <= i < s.len() && s[i] != c {
        find_char_from(s, c, i + 1)
    } else {
        i
    }
}

pub proof fn lemma_find_char_from(s: Seq<char>, c: char, i: int)
    requires
        0 <= i <= s.len(),
    ensures
        i <= find_char_from(s, c, i) <= s.len(),
        find_char_from(s, c, i) < s.len() ==> s[find_char_from(s, c, i)] == c,
        forall|k: int| i <= k < find_char_from(s, c, i) ==> #[trigger] s[k] != c,
    decreases s.len() - i,
{
    if i < s.len() && s[i] != c {
        lemma_find_char_from(s, c, i + 1);
    }
}

/// `str::split_once(c)`: the parts before and after the first `c`.
pub open spec fn split_once(s: Seq<char>, c: char) -> Option<(Seq<char>, Seq<char>)> {
    let k = find_char_from(s, c, 0);
    if k < s.len() {
        Some((s.take(k), s.skip(k + 1)))
    } else {
        None
    }
}

/// Executable first-occurrence search for a char.
pub fn find_char(s: &Vec<char>, c: char) -> (r: usize)
    ensures
        r == find_char_from(s@, c, 0),
{
    let mut i: usize = 0;
    while i < s.len() && s[i] != c
        invariant
            i <= s@.len(),
            find_char_from(s@, c, 0) == find_char_from(s@, c, i as int),
        decreases s@.len() - i,
    {
        i = i + 1;
    }
    i
}

/// Executable `split_once`.
pub fn split_once_chars(s: &Vec<char>, c: char) -> (r: Option<(Vec<char>, Vec<char>)>)
    ensures
        match (r, split_once(s@, c)) {
            (Some((a, b)), Some((x, y))) => a@ == x && b@ == y,
            (None, None) => true,
            _ => false,
        },
{
    let k = find_char(s, c);
    proof {
        lemma_find_char_from(s@, c, 0);
    }
    if k < s.len() {
        let a = subvec(s, 0, k);
        let b = subvec(s, k + 1, s.len());
        assert(a@ =~= s@.take(k as int));
        assert(b@ =~= s@.skip(k + 1));
        Some((a, b))
    } else {
        None
    }
}

/// `str::split(c)`: the parts between the occurrences of `c`, empty parts
/// included (an empty string is one empty part).
pub open spec fn split_char(s: Seq<char>, c: char) -> Seq<Seq<char>>
    decreases s.len(),
{
    let k = find_char_from(s, c, 0);
    if 0 <= k < s.len() {
        seq![s.take(k)] + split_char(s.skip(k + 1), c)
    } else {
        seq![s]
    }
}

/// Executable `split_char`.
pub fn split_chars(s: &Vec<char>, c: char) -> (r: Vec<Vec<char>>)
    ensures
        r@.len() == split_char(s@, c).len(),
        forall|i: int| 0 <= i < r@.len() ==> (#[trigger] r@[i])@ == split_char(s@, c)[i],
{
    let mut out: Vec<Vec<char>> = Vec::new();
    let mut rest = subvec(s, 0, s.len());
    assert(rest@ =~= s@);
    loop
        invariant
            out@.len() + split_char(rest@, c).len() == split_char(s@, c).len(),
            forall|i: int| 0 <= i < out@.len() ==> (#[trigger] out@[i])@ == split_char(s@, c)[i],
            forall|i: int|
                0 <= i < split_char(rest@, c).len() ==> #[trigger] split_char(rest@, c)[i]
                    == split_char(s@, c)[out@.len() + i],
        decreases rest@.len(),
    {
        let k = find_char(&rest, c);
        proof {
            lemma_find_char_from(rest@, c, 0);
        }
        if k < rest.len() {
            let head = subvec(&rest, 0, k);
            let tail = subvec(&rest, k + 1, rest.len());
            proof {
                assert(head@ =~= rest@.take(k as int));
                assert(tail@ =~= rest@.skip(k + 1));
                let sp = split_char(rest@, c);
                assert(sp == seq![rest@.take(k as int)] + split_char(rest@.skip(k + 1), c));
                assert(sp[0] == head@);
                assert forall|i: int| 0 <= i < split_char(tail@, c).len() implies #[trigger] split_char(
                    tail@,
                    c,
                )[i] == sp[i + 1] by {}
            }
            out.push(head);
            rest = tail;
        } else {
            proof {
                assert(split_char(rest@, c) == seq![rest@]);
                assert(split_char(rest@, c)[0] == split_char(s@, c)[out@.len() as int + 0]);
            }
            out.push(rest);
            return out;
        }
    }
}

/// `p` occurs in `s` at position `i`.
pub open spec fn occurs_at(s: Seq<char>, p: Seq<char>, i: int) -> bool {
    0 <= i && i + p.len() <= s.len() && s.subrange(i, i + p.len()) == p
}

/// `str::find(p)`: the first position at which `p` occurs.
#[verifier::opaque]
pub open spec fn find_sub(s: Seq<char>, p: Seq<char>) -> Option<int> {
    if exists|i: int| occurs_at(s, p, i) {
        Some(choose|i: int| occurs_at(s, p, i) && forall|j: int| 0 <= j < i ==> !occurs_at(s, p, j))
    } else {
        None
    }
}

/// Executable occurrence test at a position.
pub fn occurs_at_exec(s: &Vec<char>, p: &Vec<char>, i: usize) -> (r: bool)
    ensures
        r == occurs_at(s@, p@, i as int),
{
    if i > s.len() || p.len() > s.len() - i {
        return false;
    }
    let mut k: usize = 0;
    while k < p.len()
        invariant
            k <= p@.len(),
            i + p@.len() <= s@.len(),
            s@.len() == s.len(),
            forall|m: int| 0 <= m < k ==> s@[i + m] == p@[m],
        decreases p@.len() - k,
    {
        if s[i + k] != p[k] {
            assert(s@.subrange(i as int, i + p@.len())[k as int] != p@[k as int]);
            return false;
        }
        k = k + 1;
    }
    assert(s@.subrange(i as int, i + p@.len()) =~= p@);
    true
}

/// Executable `find`.
pub fn find_sub_exec(s: &Vec<char>, p: &Vec<char>) -> (r: Option<usize>)
    ensures
        match r {
            Some(i) => find_sub(s@, p@) == Some(i as int),
            None => find_sub(s@, p@) is None,
        },
{
    let n = s.len();
    let mut i: usize = 0;
    while i <= n
        invariant
            n == s@.len(),
            i <= n,
            forall|j: int| 0 <= j < i ==> !occurs_at(s@, p@, j),
        ensures
            forall|j: int| 0 <= j <= n ==> !occurs_at(s@, p@, j),
        decreases n + 1 - i,
    {
        if occurs_at_exec(s, p, i) {
            proof {
                lemma_first_occurrence(s@, p@, i as int);
            }
            return Some(i);
        }
        if i == n {
            break;
        }
        i = i + 1;
    }
    proof {
        lemma_no_occurrence(s@, p@);
    }
    None
}

pub proof fn lemma_no_occurrence(s: Seq<char>, p: Seq<char>)
    requires
        forall|j: int| 0 <= j <= s.len() ==> !occurs_at(s, p, j),
    ensures
        find_sub(s, p) is None,
{
    reveal(find_sub);
    assert(!exists|i: int| occurs_at(s, p, i)) by {
        assert forall|j: int| !occurs_at(s, p, j) by {
            if 0 <= j && j + p.len() <= s.len() {
                assert(j <= s.len());
            }
        }
    }
}

pub proof fn lemma_first_occurrence(s: Seq<char>, p: Seq<char>, i: int)
    requires
        occurs_at(s, p, i),
        forall|j: int| 0 <= j < i ==> !occurs_at(s, p, j),
    ensures
        find_sub(s, p) == Some(i),
{
    reveal(find_sub);
    let w = choose|w: int| occurs_at(s, p, w) && forall|j: int| 0 <= j < w ==> !occurs_at(s, p, j);
    assert(occurs_at(s, p, w) && forall|j: int| 0 <= j < w ==> !occurs_at(s, p, j));
    if w < i {
        assert(!occurs_at(s, p, w));
    } else if w > i {
        assert(!occurs_at(s, p, i));
    }
}


// ---------------------------------------------------------------------------
// Whitespace-separated words (`str::split_whitespace`)
// ---------------------------------------------------------------------------

/// Index of the first whitespace char at or after `i` (or the length).
pub open spec fn word_end(s: Seq<char>, i: int) -> int
    decreases s.len() - i,
{
    if 0 <= i < s.len() && !is_ws(s[i]) {
        word_end(s, i + 1)
    } else {
        i
    }
}

pub proof fn lemma_word_end(s: Seq<char>, i: int)
    requires
        0 <= i <= s.len(),
    ensures
        i <= word_end(s, i) <= s.len(),
        word_end(s, i) < s.len() ==> is_ws(s[word_end(s, i)]),
        forall|k: int| i <= k < word_end(s, i) ==> !is_ws(#[trigger] s[k]),
    decreases s.len() - i,
{
    if i < s.len() && !is_ws(s[i]) {
        lemma_word_end(s, i + 1);
    }
}

/// The maximal runs of non-whitespace chars of `s` at or after `i`, in order.
pub open spec fn words_from(s: Seq<char>, i: int) -> Seq<Seq<char>>
    decreases s.len() - i,
{
    if i < 0 || i > s.len() || lead_ws_end(s, i) >= s.len() {
        Seq::empty()
    } else {
        let a = lead_ws_end(s, i);
        proof {
            lemma_lead_ws_end(s, i);
            lemma_word_end(s, a);
        }
        let b = word_end(s, a);
        seq![s.subrange(a, b)] + words_from(s, b)
    }
}

/// `str::split_whitespace`, collected.
pub open spec fn words(s: Seq<char>) -> Seq<Seq<char>> {
    words_from(s, 0)
}

/// Executable `split_whitespace`.
pub fn split_ws(s: &Vec<char>) -> (r: Vec<Vec<char>>)
    ensures
        r@.len() == words(s@).len(),
        forall|k: int| 0 <= k < r@.len() ==> (#[trigger] r@[k])@ == words(s@)[k],
{
    let n = s.len();
    let mut r: Vec<Vec<char>> = Vec::new();
    let mut i: usize = 0;
    let ghost done: Seq<Seq<char>> = Seq::empty();
    while i < n
        invariant
            n == s@.len(),
            i <= n,
            r@.len() == done.len(),
            forall|k: int| 0 <= k < r@.len() ==> (#[trigger] r@[k])@ == done[k],
            words(s@) == done + words_from(s@, i as int),
        decreases n - i,
    {
        let mut a: usize = i;
        while a < n && char_is_ws(s[a])
            invariant
                i <= a <= n,
                n == s@.len(),
                lead_ws_end(s@, i as int) == lead_ws_end(s@, a as int),
            decreases n - a,
        {
            a = a + 1;
        }
        proof {
            lemma_lead_ws_end(s@, i as int);
        }
        if a >= n {
            assert(words_from(s@, i as int) =~= Seq::<Seq<char>>::empty());
            assert(done + words_from(s@, i as int) =~= done);
            i = n;
            assert(words_from(s@, n as int) =~= Seq::<Seq<char>>::empty());
            assert(done + words_from(s@, i as int) =~= done);
        } else {
            let mut b: usize = a;
            while b < n && !char_is_ws(s[b])
                invariant
                    a <= b <= n,
                    n == s@.len(),
                    word_end(s@, a as int) == word_end(s@, b as int),
                decreases n - b,
            {
                b = b + 1;
            }
            proof {
                lemma_word_end(s@, a as int);
            }
            let w = subvec(s, a, b);
            r.push(w);
            proof {
                let ws = words_from(s@, i as int);
                assert(ws == seq![s@.subrange(a as int, b as int)] + words_from(s@, b as int));
                assert(done + ws =~= done.push(s@.subrange(a as int, b as int)) + words_from(s@, b as int));
                done = done.push(s@.subrange(a as int, b as int));
            }
            i = b;
        }
    }
    assert(words_from(s@, n as int) =~= Seq::<Seq<char>>::empty());
    assert(done + words_from(s@, n as int) =~= done);
    r
}

// ---------------------------------------------------------------------------
// Decimal numbers
// ---------------------------------------------------------------------------

pub open spec fn is_digit(c: char) -> bool {
    '0' <= c && c <= '9'
}

pub open spec fn digit_val(c: char) -> nat {
    ((c as u32) - 48) as nat
}

pub open spec fn all_digits(s: Seq<char>) -> bool {
    forall|i: int| 0 <= i < s.len() ==> is_digit(#[trigger] s[i])
}

/// The value of a string of decimal digits.
pub open spec fn digits_value(s: Seq<char>) -> nat
    decreases s.len(),
{
    if s.len() == 0 {
        0
    } else {
        digits_value(s.drop_last()) * 10 + digit_val(s.last())
    }
}

pub proof fn lemma_digits_value_prefix(s: Seq<char>, i: int)
    requires
        0 <= i <= s.len(),
    ensures
        digits_value(s.take(i)) <= digits_value(s),
    decreases s.len(),
{
    if i < s.len() {
        assert(s.drop_last().take(i) =~= s.take(i));
        lemma_digits_value_prefix(s.drop_last(), i);
    } else {
        assert(s.take(i) =~= s);
    }
}

/// `str::parse::<u32>`: an optional `+`, then one or more ASCII digits
/// whose value fits in a `u32`.
pub open spec fn parse_u32(s: Seq<char>) -> Option<u32> {
    let d = if s.len() > 0 && s[0] == '+' {
        s.skip(1)
    } else {
        s
    };
    if d.len() > 0 && all_digits(d) && digits_value(d) <= u32::MAX {
        Some(digits_value(d) as u32)
    } else {
        None
    }
}

/// Executable `parse_u32`.
pub fn parse_u32_exec(s: &Vec<char>) -> (r: Option<u32>)
    ensures
        r == parse_u32(s@),
{
    let n = s.len();
    let start: usize = if n > 0 && s[0] == '+' {
        1
    } else {
        0
    };
    let ghost d = if s@.len() > 0 && s@[0] == '+' {
        s@.skip(1)
    } else {
        s@
    };
    assert(d =~= s@.subrange(start as int, n as int));
    if start >= n {
        return None;
    }
    let mut i: usize = start;
    let mut acc: u64 = 0;
    while i < n
        invariant
            start <= i <= n,
            n == s@.len(),
            d == s@.subrange(start as int, n as int),
            d == (if s@.len() > 0 && s@[0] == '+' {
                s@.skip(1)
            } else {
                s@
            }),
            d.len() > 0,
            acc == digits_value(d.take(i - start)),
            acc <= u32::MAX,
            all_digits(d.take(i - start)),
        decreases n - i,
    {
        let c = s[i];
        assert(d[i - start] == c);
        if c < '0' || c > '9' {
            assert(!is_digit(d[i - start]));
            assert(!all_digits(d));
            return None;
        }
        let dv = (c as u32 - 48) as u64;
        let ghost t = d.take(i - start + 1);
        assert(t.drop_last() =~= d.take(i - start));
        assert(t.last() == c);
        assert(digits_value(t) == digits_value(t.drop_last()) * 10 + digit_val(t.last()));
        acc = acc * 10 + dv;
        assert(acc == digits_value(t));
        assert(all_digits(t)) by {
            assert forall|k: int| 0 <= k < t.len() implies is_digit(#[trigger] t[k]) by {
                if k < i - start {
                    assert(t[k] == d.take(i - start)[k]);
                }
            }
        }
        if acc > 0xffff_ffff {
            proof {
                lemma_digits_value_prefix(d, i - start + 1);
            }
            assert(digits_value(d) > u32::MAX);
            return None;
        }
        i = i + 1;
    }
    assert(d.take(n - start) =~= d);
    Some(acc as u32)
}

/// The char of a decimal digit value.
pub open spec fn digit_char(d: nat) -> char {
    ((d + 48) as u32) as char
}

/// Decimal rendering of a natural number, without leading zeros.
pub open spec fn decimal(n: nat) -> Seq<char>
    decreases n,
{
    if n < 10 {
        seq![digit_char(n)]
    } else {
        decimal(n / 10).push(digit_char(n % 10))
    }
}

/// The decimal rendering of `n` is a non-empty string of digits that
/// reads back as `n`.
pub proof fn lemma_decimal_reads_back(n: nat)
    ensures
        decimal(n).len() > 0,
        all_digits(decimal(n)),
        digits_value(decimal(n)) == n,
        (decimal(n)[0] as u32) < 128,
    decreases n,
{
    let d = digit_char(n % 10);
    assert((((n % 10 + 48) as u32) as char) as u32 == n % 10 + 48);
    assert(is_digit(d) && digit_val(d) == n % 10);
    if n < 10 {
        assert(digits_value(Seq::<char>::empty()) == 0);
        assert(seq![d].drop_last() =~= Seq::<char>::empty());
        assert(digits_value(seq![d]) == n);
    } else {
        lemma_decimal_reads_back(n / 10);
        let p = decimal(n / 10);
        assert(decimal(n) == p.push(d));
        assert(p.push(d).drop_last() =~= p);
        assert(digits_value(p.push(d)) == digits_value(p) * 10 + digit_val(d));
        assert((n / 10) * 10 + n % 10 == n);
        assert(all_digits(p.push(d))) by {
            assert forall|i: int| 0 <= i < p.len() + 1 implies is_digit(#[trigger] p.push(d)[i]) by {
                if i < p.len() {
                    assert(p.push(d)[i] == p[i]);
                }
            }
        }
    }
}

/// The char of a digit value below 10.
pub fn digit_to_char(d: u64) -> (c: char)
    requires
        d < 10,
    ensures
        c == digit_char(d as nat),
        is_digit(c),
{
    match d {
        0 => '0',
        1 => '1',
        2 => '2',
        3 => '3',
        4 => '4',
        5 => '5',
        6 => '6',
        7 => '7',
        8 => '8',
        _ => '9',
    }
}

/// Appends the decimal rendering of `n`.
pub fn push_decimal(v: &mut Vec<char>, n: u64)
    ensures
        final(v)@ == old(v)@ + decimal(n as nat),
    decreases n,
{
    if n >= 10 {
        push_decimal(v, n / 10);
    }
    let c = digit_to_char(n % 10);
    v.push(c);
    assert(decimal(n as nat) == if n < 10 {
        seq![digit_char(n as nat)]
    } else {
        decimal((n / 10) as nat).push(digit_char((n % 10) as nat))
    });
}

// ---------------------------------------------------------------------------
// UTF-8 lengths
// ---------------------------------------------------------------------------

/// Number of bytes of `c` in UTF-8.
pub open spec fn char_utf8_len(c: char) -> nat {
    let u = c as u32;
    if u < 0x80 {
        1
    } else if u < 0x800 {
        2
    } else if u < 0x10000 {
        3
    } else {
        4
    }
}

/// Number of bytes of `s` in UTF-8 (`str::len`).
pub open spec fn utf8_len(s: Seq<char>) -> nat
    decreases s.len(),
{
    if s.len() == 0 {
        0
    } else {
        utf8_len(s.drop_last()) + char_utf8_len(s.last())
    }
}


// ---------------------------------------------------------------------------
// Runs of one char, hex digits
// ---------------------------------------------------------------------------

/// Index of the first char at or after `i` that is not `c` (or the length).
pub open spec fn skip_char_end(s: Seq<char>, c: char, i: int) -> int
    decreases s.len() - i,
{
    if 0 <= i < s.len() && s[i] == c {
        skip_char_end(s, c, i + 1)
    } else {
        i
    }
}

pub proof fn lemma_skip_char_end(s: Seq<char>, c: char, i: int)
    requires
        0 <= i <= s.len(),
    ensures
        i <= skip_char_end(s, c, i) <= s.len(),
        skip_char_end(s, c, i) < s.len() ==> s[skip_char_end(s, c, i)] != c,
        forall|k: int| i <= k < skip_char_end(s, c, i) ==> #[trigger] s[k] == c,
    decreases s.len() - i,
{
    if i < s.len() && s[i] == c {
        lemma_skip_char_end(s, c, i + 1);
    }
}

/// `str::trim_start_matches(c)`.
pub open spec fn trim_start_char(s: Seq<char>, c: char) -> Seq<char> {
    s.skip(skip_char_end(s, c, 0))
}

/// Executable `trim_start_matches(c)`.
pub fn trim_start_char_exec(s: &Vec<char>, c: char) -> (r: Vec<char>)
    ensures
        r@ == trim_start_char(s@, c),
{
    let n = s.len();
    let mut i: usize = 0;
    while i < n && s[i] == c
        invariant
            i <= n,
            n == s@.len(),
            skip_char_end(s@, c, 0) == skip_char_end(s@, c, i as int),
        decreases n - i,
    {
        i = i + 1;
    }
    let r = subvec(s, i, n);
    assert(r@ =~= s@.skip(i as int));
    r
}

/// `char::is_ascii_hexdigit`.
pub open spec fn is_hex(c: char) -> bool {
    ('0' <= c && c <= '9') || ('a' <= c && c <= 'f') || ('A' <= c && c <= 'F')
}

pub open spec fn all_hex(s: Seq<char>) -> bool {
    forall|i: int| 0 <= i < s.len() ==> is_hex(#[trigger] s[i])
}

/// Executable `all_hex`.
pub fn all_hex_exec(s: &Vec<char>) -> (r: bool)
    ensures
        r == all_hex(s@),
{
    let mut i: usize = 0;
    while i < s.len()
        invariant
            i <= s@.len(),
            forall|k: int| 0 <= k < i ==> is_hex(#[trigger] s@[k]),
        decreases s@.len() - i,
    {
        let c = s[i];
        if !(('0' <= c && c <= '9') || ('a' <= c && c <= 'f') || ('A' <= c && c <= 'F')) {
            assert(!is_hex(s@[i as int]));
            return false;
        }
        i = i + 1;
    }
    true
}

pub proof fn lemma_utf8_len_ascii(s: Seq<char>)
    requires
        is_ascii_chars(s),
    ensures
        utf8_len(s) == s.len(),
    decreases s.len(),
{
    if s.len() > 0 {
        lemma_utf8_len_ascii(s.drop_last());
    }
}

pub proof fn lemma_utf8_len_prefix(s: Seq<char>, i: int)
    requires
        0 <= i <= s.len(),
    ensures
        utf8_len(s.take(i)) <= utf8_len(s),
    decreases s.len(),
{
    if i < s.len() {
        assert(s.drop_last().take(i) =~= s.take(i));
        lemma_utf8_len_prefix(s.drop_last(), i);
    } else {
        assert(s.take(i) =~= s);
    }
}

/// Whether `s` takes at most `limit` bytes in UTF-8.
pub fn utf8_len_le(s: &Vec<char>, limit: usize) -> (r: bool)
    ensures
        r == (utf8_len(s@) <= limit),
{
    let mut i: usize = 0;
    let mut acc: usize = 0;
    while i < s.len()
        invariant
            i <= s@.len(),
            acc == utf8_len(s@.take(i as int)),
            acc <= limit,
        decreases s@.len() - i,
    {
        let u = s[i] as u32;
        let k: usize = if u < 0x80 {
            1
        } else if u < 0x800 {
            2
        } else if u < 0x10000 {
            3
        } else {
            4
        };
        assert(s@.take(i + 1).drop_last() =~= s@.take(i as int));
        if k > limit - acc {
            proof {
                lemma_utf8_len_prefix(s@, i + 1);
            }
            return false;
        }
        acc = acc + k;
        i = i + 1;
    }
    assert(s@.take(s@.len() as int) =~= s@);
    true
}


/// Appends all chars of `v`.
pub fn extend_chars(out: &mut Vec<char>, v: &Vec<char>)
    ensures
        final(out)@ == old(out)@ + v@,
{
    let ghost start = out@;
    let mut i: usize = 0;
    while i < v.len()
        invariant
            i <= v@.len(),
            out@ == start + v@.take(i as int),
        decreases v@.len() - i,
    {
        out.push(v[i]);
        i = i + 1;
        assert(out@ =~= start + v@.take(i as int));
    }
    assert(v@.take(v@.len() as int) =~= v@);
}


pub proof fn lemma_find_char_at(s: Seq<char>, c: char, i: int, j: int)
    requires
        0 <= i <= j < s.len(),
        s[j] == c,
        forall|k: int| i <= k < j ==> #[trigger] s[k] != c,
    ensures
        find_char_from(s, c, i) == j,
    decreases j - i,
{
    if i < j {
        lemma_find_char_at(s, c, i + 1, j);
    }
}

pub proof fn lemma_find_char_absent(s: Seq<char>, c: char, i: int)
    requires
        0 <= i <= s.len(),
        forall|k: int| i <= k < s.len() ==> #[trigger] s[k] != c,
    ensures
        find_char_from(s, c, i) == s.len(),
    decreases s.len() - i,
{
    if i < s.len() {
        lemma_find_char_absent(s, c, i + 1);
    }
}

/// A string that neither starts nor ends with whitespace is its own trim.
pub proof fn lemma_trim_noop(s: Seq<char>)
    requires
        s.len() > 0,
        !is_ws(s[0]),
        !is_ws(s[s.len() - 1]),
    ensures
        trim(s) == s,
{
    assert(lead_ws_end(s, 0) == 0);
    assert(trail_ws_start(s, s.len() as int) == s.len());
    assert(s.subrange(0, s.len() as int) =~= s);
}

/// The uppercase of a concatenation is the concatenation of the
/// uppercases.
pub proof fn lemma_upper_concat(a: Seq<char>, b: Seq<char>)
    ensures
        upper(a + b) == upper(a) + upper(b),
    decreases b.len(),
{
    if b.len() == 0 {
        assert(a + b =~= a);
        assert(upper(a) + upper(b) =~= upper(a));
    } else {
        assert((a + b).drop_last() =~= a + b.drop_last());
        assert((a + b).last() == b.last());
        lemma_upper_concat(a, b.drop_last());
        assert(upper(a + b) =~= upper(a) + upper(b));
    }
}

/// A string each of whose chars is its own uppercase is its own
/// uppercase.
pub proof fn lemma_upper_fixed(s: Seq<char>)
    requires
        forall|i: int| 0 <= i < s.len() ==> upper_char(#[trigger] s[i]) == seq![s[i]],
    ensures
        upper(s) == s,
    decreases s.len(),
{
    if s.len() > 0 {
        let t = s.drop_last();
        assert forall|i: int| 0 <= i < t.len() implies upper_char(#[trigger] t[i]) == seq![t[i]] by {
            assert(t[i] == s[i]);
        }
        lemma_upper_fixed(t);
        assert(upper_char(s[s.len() - 1]) == seq![s.last()]);
        assert(upper(s) =~= s);
    }
}

/// An ASCII string without lowercase letters is its own uppercase.
pub proof fn lemma_upper_noop(s: Seq<char>)
    requires
        forall|i: int| 0 <= i < s.len() ==> (#[trigger] s[i] as u32) < 128 && !('a' <= s[i] && s[i] <= 'z'),
    ensures
        upper(s) == s,
{
    assert forall|i: int| 0 <= i < s.len() implies upper_char(#[trigger] s[i]) == seq![s[i]] by {
        assert((s[i] as u32) < 128);
    }
    lemma_upper_fixed(s);
}

/// On an ASCII string the uppercase mapping is the ASCII one.
pub proof fn lemma_upper_ascii(s: Seq<char>)
    requires
        is_ascii_chars(s),
    ensures
        upper(s) == ascii_upper(s),
    decreases s.len(),
{
    if s.len() > 0 {
        let t = s.drop_last();
        assert(is_ascii_chars(t)) by {
            assert forall|i: int| 0 <= i < t.len() implies (t[i] as u32) < 128 by {
                assert(t[i] == s[i]);
            }
        }
        lemma_upper_ascii(t);
        assert((s[s.len() - 1] as u32) < 128);
        assert(upper(s) =~= ascii_upper(s));
    }
}


/// Index of the first char at or after `i` whose UTF-8 offset in `s` is
/// exactly `b` bytes, if some char boundary lies there.
pub open spec fn byte_pos_from(s: Seq<char>, b: int, k: int) -> Option<int>
    decreases s.len() - k,
{
    if k < 0 || k > s.len() {
        None
    } else if utf8_len(s.take(k)) == b {
        Some(k)
    } else if k == s.len() || utf8_len(s.take(k)) > b {
        None
    } else {
        byte_pos_from(s, b, k + 1)
    }
}

/// The char index at byte offset `b` of `s`, when `b` is a char boundary.
pub open spec fn byte_pos(s: Seq<char>, b: int) -> Option<int> {
    byte_pos_from(s, b, 0)
}

pub proof fn lemma_byte_pos_from(s: Seq<char>, b: int, k: int)
    requires
        0 <= k <= s.len(),
    ensures
        byte_pos_from(s, b, k) matches Some(p) ==> k <= p <= s.len() && utf8_len(s.take(p)) == b,
    decreases s.len() - k,
{
    if utf8_len(s.take(k)) != b && k < s.len() && utf8_len(s.take(k)) <= b {
        lemma_byte_pos_from(s, b, k + 1);
    }
}

/// Executable `byte_pos`.
pub fn byte_pos_exec(s: &Vec<char>, b: usize) -> (r: Option<usize>)
    ensures
        match (r, byte_pos(s@, b as int)) {
            (Some(x), Some(y)) => x == y,
            (None, None) => true,
            _ => false,
        },
{
    let n = s.len();
    let mut k: usize = 0;
    let mut acc: usize = 0;
    while k < n
        invariant
            k <= n,
            n == s@.len(),
            acc == utf8_len(s@.take(k as int)),
            acc <= b,
            byte_pos(s@, b as int) == byte_pos_from(s@, b as int, k as int),
        decreases n - k,
    {
        if acc == b {
            return Some(k);
        }
        let u = s[k] as u32;
        let w: usize = if u < 0x80 {
            1
        } else if u < 0x800 {
            2
        } else if u < 0x10000 {
            3
        } else {
            4
        };
        assert(s@.take(k + 1).drop_last() =~= s@.take(k as int));
        if w > b - acc {
            assert(byte_pos_from(s@, b as int, k + 1) is None);
            return None;
        }
        acc = acc + w;
        k = k + 1;
    }
    if acc == b {
        Some(k)
    } else {
        None
    }
}

/// UTF-8 length of a char sequence, saturating at `usize::MAX`.
pub fn utf8_len_exec(s: &Vec<char>) -> (r: usize)
    ensures
        utf8_len(s@) <= usize::MAX ==> r == utf8_len(s@),
        utf8_len(s@) > usize::MAX ==> r == usize::MAX,
{
    let mut i: usize = 0;
    let mut acc: usize = 0;
    while i < s.len()
        invariant
            i <= s@.len(),
            acc == utf8_len(s@.take(i as int)),
        decreases s@.len() - i,
    {
        let u = s[i] as u32;
        let w: usize = if u < 0x80 {
            1
        } else if u < 0x800 {
            2
        } else if u < 0x10000 {
            3
        } else {
            4
        };
        assert(s@.take(i + 1).drop_last() =~= s@.take(i as int));
        if w > usize::MAX - acc {
            proof {
                lemma_utf8_len_prefix(s@, i + 1);
            }
            return usize::MAX;
        }
        acc = acc + w;
        i = i + 1;
    }
    assert(s@.take(s@.len() as int) =~= s@);
    acc
}


pub proof fn lemma_find_sub_some(s: Seq<char>, p: Seq<char>)
    ensures
        find_sub(s, p) matches Some(i) ==> occurs_at(s, p, i) && forall|j: int|
            0 <= j < i ==> !occurs_at(s, p, j),
{
    reveal(find_sub);
    if exists|i: int| occurs_at(s, p, i) {
        let k = choose|i: int| occurs_at(s, p, i);
        lemma_first_exists(s, p, k);
    }
}

proof fn lemma_first_exists(s: Seq<char>, p: Seq<char>, k: int)
    requires
        occurs_at(s, p, k),
    ensures
        exists|m: int| occurs_at(s, p, m) && forall|j: int| 0 <= j < m ==> !occurs_at(s, p, j),
    decreases k,
{
    if exists|j: int| 0 <= j < k && occurs_at(s, p, j) {
        let j = choose|j: int| 0 <= j < k && occurs_at(s, p, j);
        lemma_first_exists(s, p, j);
    } else {
        assert(occurs_at(s, p, k) && forall|j: int| 0 <= j < k ==> !occurs_at(s, p, j));
    }
}

} // verus!
