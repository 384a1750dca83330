//! What the jot command line prints: the task list and the confirmations
//! of `add` and `rm`.

use vstd::prelude::*;

use crate::color::{
    footer, header, header_row, id, pad_right, pad_right_exec, plural, plural_text, separator_text,
    success, wrapped,
};
use crate::item::Status;
use crate::jot::display::{format_ids, list_label, views_of};
use crate::jot::model::Task;
use crate::text::{chars_of, eq_chars, extend_chars, string_of, utf8_len, utf8_len_exec};

verus! {

/// Whether a task shows in the list (not closed or deferred).
pub open spec fn is_open(t: Task) -> bool {
    !(t.item.status == Status::Closed || t.item.status == Status::Deferred)
}

/// The IDs of the open tasks, in order.
pub open spec fn open_ids(ts: Seq<Task>) -> Seq<Seq<char>>
    decreases ts.len(),
{
    if ts.len() == 0 {
        Seq::empty()
    } else if is_open(ts.last()) {
        open_ids(ts.drop_last()).push(ts.last().item.id@)
    } else {
        open_ids(ts.drop_last())
    }
}

/// The titles of the open tasks, in order.
pub open spec fn open_titles(ts: Seq<Task>) -> Seq<Seq<char>>
    decreases ts.len(),
{
    if ts.len() == 0 {
        Seq::empty()
    } else if is_open(ts.last()) {
        open_titles(ts.drop_last()).push(ts.last().item.title@)
    } else {
        open_titles(ts.drop_last())
    }
}

/// The display labels of a list of IDs (see `format_ids`).
pub open spec fn labels_of(ids: Seq<Seq<char>>) -> Seq<Seq<char>> {
    Seq::new(ids.len(), |i: int| list_label(ids, i))
}

/// The greatest byte length among the labels, 0 for none.
pub open spec fn max_len(labels: Seq<Seq<char>>) -> nat
    decreases labels.len(),
{
    if labels.len() == 0 {
        0
    } else {
        let m = max_len(labels.drop_last());
        let l = utf8_len(labels.last());
        if l > m {
            l
        } else {
            m
        }
    }
}

/// The ID column's width: the longest label, at least 2.
pub open spec fn id_width(labels: Seq<Seq<char>>) -> nat {
    if max_len(labels) > 2 {
        max_len(labels)
    } else {
        2
    }
}

/// The title column's width: what the terminal leaves after the ID
/// column and a space, at least 20.
pub open spec fn title_width(idw: nat, term_w: nat) -> nat {
    let fixed = idw + 1;
    if term_w > fixed + 20 {
        (term_w - fixed) as nat
    } else {
        20
    }
}

/// The frame's width: both columns, but no wider than the terminal (and
/// at least 1).
pub open spec fn frame_width(idw: nat, term_w: nat) -> nat {
    let total = idw + 1 + title_width(idw, term_w);
    let cap = if term_w > 1 {
        term_w
    } else {
        1
    };
    if total < cap {
        total
    } else {
        cap
    }
}

/// One row: the label padded to the ID column, in the ID colour, then the
/// title.
pub open spec fn row_text(label: Seq<char>, title: Seq<char>, idw: nat, enabled: bool) -> Seq<char> {
    wrapped("\x1b[32m"@, pad_right(label, idw), enabled) + seq![' '] + title
}

/// The message when nothing is open.
pub open spec fn empty_list_message() -> Seq<char> {
    "No open tasks. Add one with: jot add \"<title>\""@
}

/// The lines `jot ls` prints: the table frame's top, one row per open
/// task, and the count in the frame's bottom; or a hint when no task is
/// open.
pub open spec fn ls_spec(ts: Seq<Task>, term_w: nat, enabled: bool) -> Seq<Seq<char>> {
    let ids = open_ids(ts);
    let titles = open_titles(ts);
    if ids.len() == 0 {
        seq![empty_list_message()]
    } else {
        let labels = labels_of(ids);
        let w = id_width(labels);
        let tc = title_width(w, term_w);
        let fw = frame_width(w, term_w);
        let top = separator_text(fw, enabled) + seq!['\n'] + header_row(
            seq![("ID"@, w), ("TITLE"@, tc)],
            enabled,
        ) + seq!['\n'] + separator_text(fw, enabled);
        let bottom = separator_text(fw, enabled) + seq!['\n'] + wrapped(
            "\x1b[32m"@,
            plural_text(ids.len(), "task"@),
            enabled,
        );
        seq![top] + Seq::new(ids.len(), |i: int| row_text(labels[i], titles[i], w, enabled))
            + seq![bottom]
    }
}

proof fn lemma_open_lengths(ts: Seq<Task>)
    ensures
        open_ids(ts).len() == open_titles(ts).len(),
        open_ids(ts).len() <= ts.len(),
    decreases ts.len(),
{
    if ts.len() > 0 {
        lemma_open_lengths(ts.drop_last());
    }
}

/// The lines `jot ls` prints for the tasks, on a terminal `term_w`
/// columns wide.
pub fn ls_lines(tasks: &[Task], term_w: usize, enabled: bool) -> (r: Vec<String>)
    ensures
        r@.len() == ls_spec(tasks@, term_w as nat, enabled).len(),
        forall|i: int| 0 <= i < r@.len() ==> (#[trigger] r@[i])@ == ls_spec(tasks@, term_w as nat, enabled)[i],
{
    let mut ids: Vec<&str> = Vec::new();
    let mut titles: Vec<&str> = Vec::new();
    let mut i: usize = 0;
    while i < tasks.len()
        invariant
            i <= tasks@.len(),
            views_of(ids@) == open_ids(tasks@.take(i as int)),
            views_of(titles@) == open_titles(tasks@.take(i as int)),
        decreases tasks@.len() - i,
    {
        let t = &tasks[i];
        proof {
            assert(tasks@.take(i + 1).drop_last() =~= tasks@.take(i as int));
            assert(tasks@.take(i + 1).last() == tasks@[i as int]);
        }
        if t.item.is_active() {
            ids.push(t.item.id.as_str());
            titles.push(t.item.title.as_str());
            assert(views_of(ids@) =~= open_ids(tasks@.take(i as int)).push(t.item.id@));
            assert(views_of(titles@) =~= open_titles(tasks@.take(i as int)).push(t.item.title@));
        }
        i = i + 1;
    }
    assert(tasks@.take(tasks@.len() as int) =~= tasks@);
    let ghost oids = open_ids(tasks@);
    let ghost otitles = open_titles(tasks@);
    proof {
        lemma_open_lengths(tasks@);
    }
    let mut out: Vec<String> = Vec::new();
    if ids.len() == 0 {
        out.push("No open tasks. Add one with: jot add \"<title>\"".to_owned());
        return out;
    }
    let labels = format_ids(&ids);
    let ghost ls = labels_of(oids);
    assert(forall|k: int| 0 <= k < labels@.len() ==> (#[trigger] labels@[k])@ == ls[k]);
    let mut width: usize = 0;
    let mut k: usize = 0;
    while k < labels.len()
        invariant
            k <= labels@.len(),
            labels@.len() == ls.len(),
            forall|j: int| 0 <= j < labels@.len() ==> (#[trigger] labels@[j])@ == ls[j],
            width == max_len(ls.take(k as int)),
            width <= isize::MAX,
        decreases labels@.len() - k,
    {
        let l = utf8_len_exec(&chars_of(labels[k].as_str()));
        proof {
            assert(ls.take(k + 1).drop_last() =~= ls.take(k as int));
            assert(ls.take(k + 1).last() == ls[k as int]);
        }
        if l > width {
            width = l;
        }
        k = k + 1;
    }
    assert(ls.take(ls.len() as int) =~= ls);
    let idw: usize = if width > 2 {
        width
    } else {
        2
    };
    let fixed = idw + 1;
    let title_col: usize = if term_w > fixed + 20 {
        term_w - fixed
    } else {
        20
    };
    let cap: usize = if term_w > 1 {
        term_w
    } else {
        1
    };
    let frame_w: usize = if fixed + title_col < cap {
        fixed + title_col
    } else {
        cap
    };
    let top = header(&[("ID", idw), ("TITLE", title_col)], frame_w, enabled);
    proof {
        let cols = seq![("ID", idw), ("TITLE", title_col)];
        assert(crate::color::column_views(cols) =~= seq![("ID"@, idw as nat), ("TITLE"@, title_col as nat)]);
    }
    out.push(top);
    let ghost spec_lines = ls_spec(tasks@, term_w as nat, enabled);
    let mut j: usize = 0;
    while j < ids.len()
        invariant
            j <= ids@.len(),
            ids@.len() == labels@.len(),
            ids@.len() == titles@.len(),
            views_of(ids@) == oids,
            views_of(titles@) == otitles,
            oids.len() == otitles.len(),
            oids.len() > 0,
            labels@.len() == ls.len(),
            ls == labels_of(oids),
            forall|q: int| 0 <= q < labels@.len() ==> (#[trigger] labels@[q])@ == ls[q],
            idw == id_width(ls),
            spec_lines == ls_spec(tasks@, term_w as nat, enabled),
            oids == open_ids(tasks@),
            otitles == open_titles(tasks@),
            out@.len() == j + 1,
            forall|q: int| 0 <= q < j + 1 ==> (#[trigger] out@[q])@ == spec_lines[q],
        decreases ids@.len() - j,
    {
        let padded = pad_right_exec(labels[j].as_str(), idw);
        let mut row = chars_of(id(padded.as_str(), enabled).as_str());
        row.push(' ');
        extend_chars(&mut row, &chars_of(titles[j]));
        proof {
            assert(labels@[j as int]@ == ls[j as int]);
            assert(titles@[j as int]@ == otitles[j as int]);
            assert(row@ =~= row_text(ls[j as int], otitles[j as int], idw as nat, enabled));
        }
        out.push(string_of(&row));
        j = j + 1;
    }
    let bottom = footer(plural(ids.len(), "task").as_str(), frame_w, enabled);
    out.push(bottom);
    out
}

/// The label `format_ids` gives the first of the IDs equal to `id`, or
/// none.
pub open spec fn label_of_id(ids: Seq<Seq<char>>, id: Seq<char>) -> Seq<char>
    decreases ids.len(),
{
    first_label(ids, id, 0)
}

/// The label of the first ID at or after `i` equal to `id`, or none.
pub open spec fn first_label(ids: Seq<Seq<char>>, id: Seq<char>, i: int) -> Seq<char>
    decreases ids.len() - i,
{
    if i < 0 || i >= ids.len() {
        Seq::empty()
    } else if ids[i] == id {
        list_label(ids, i)
    } else {
        first_label(ids, id, i + 1)
    }
}

/// The line `jot add` prints: `added`, the new task's label among all
/// the tasks' IDs, and its title.
pub fn added_line(all_ids: &[&str], new_id: &str, title: &str, enabled: bool) -> (r: String)
    ensures
        r@ == wrapped("\x1b[38;5;10m"@, "added"@, enabled) + seq![' '] + wrapped(
            "\x1b[32m"@,
            label_of_id(views_of(all_ids@), new_id@),
            enabled,
        ) + seq![' ', ' '] + title@,
{
    let labels = format_ids(all_ids);
    let ghost ids = views_of(all_ids@);
    let target = chars_of(new_id);
    let n = all_ids.len();
    let mut idx: usize = n;
    let mut i: usize = 0;
    while i < n
        invariant
            i <= n,
            n == all_ids@.len(),
            ids == views_of(all_ids@),
            target@ == new_id@,
            idx == n ==> first_label(ids, new_id@, 0) == first_label(ids, new_id@, i as int),
            idx < n ==> first_label(ids, new_id@, 0) == list_label(ids, idx as int),
            idx <= n,
        decreases n - i,
    {
        if idx == n && eq_chars(&chars_of(all_ids[i]), &target) {
            idx = i;
        }
        i = i + 1;
    }
    let label: Vec<char> = if idx < n {
        chars_of(labels[idx].as_str())
    } else {
        Vec::new()
    };
    assert(label@ == label_of_id(ids, new_id@));
    let mut line = chars_of(success("added", enabled).as_str());
    line.push(' ');
    extend_chars(&mut line, &chars_of(id(string_of(&label).as_str(), enabled).as_str()));
    line.push(' ');
    line.push(' ');
    extend_chars(&mut line, &chars_of(title));
    string_of(&line)
}

/// The line `jot rm` prints: `removed`, the removed task's label among
/// the remaining tasks' IDs followed by its own, and its title.
pub fn removed_line(remaining_ids: &[&str], removed_id: &str, title: &str, enabled: bool) -> (r:
    String)
    ensures
        r@ == wrapped("\x1b[38;5;10m"@, "removed"@, enabled) + seq![' '] + wrapped(
            "\x1b[32m"@,
            list_label(
                views_of(remaining_ids@.push(removed_id)),
                remaining_ids@.len() as int,
            ),
            enabled,
        ) + seq![' ', ' '] + title@,
{
    let mut all: Vec<&str> = Vec::new();
    let mut i: usize = 0;
    while i < remaining_ids.len()
        invariant
            i <= remaining_ids@.len(),
            all@ == remaining_ids@.take(i as int),
        decreases remaining_ids@.len() - i,
    {
        all.push(remaining_ids[i]);
        i = i + 1;
        assert(all@ =~= remaining_ids@.take(i as int));
    }
    all.push(removed_id);
    assert(all@ =~= remaining_ids@.push(removed_id));
    let labels = format_ids(all.as_slice());
    let n = remaining_ids.len();
    let label = labels[n].as_str();
    let mut line = chars_of(success("removed", enabled).as_str());
    line.push(' ');
    extend_chars(&mut line, &chars_of(id(label, enabled).as_str()));
    line.push(' ');
    line.push(' ');
    extend_chars(&mut line, &chars_of(title));
    string_of(&line)
}

} // verus!
