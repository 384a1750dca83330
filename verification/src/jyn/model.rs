//! Tasks, their due values and the bookkeeping of recurring series.

use vstd::prelude::*;

use crate::calendar::{date_text, format_instant, iso_text, minute_text, CalDate, Instant};
use crate::item::{Capability, Comment, Item, ItemType, Priority, Status};
use crate::jyn::recurrence::{
    next_date_spec, next_instant_spec, next_occurrence, next_occurrence_at, RecurrenceError,
};

verus! {

/// A task's due value, either a calendar date or a precise UTC instant.
#[derive(Clone, Copy, Debug, PartialEq, Eq, Structural)]
pub enum Due {
    /// A UTC instant (the time-bearing case; enables sub-day recurrence).
    DateTime(Instant),
    /// A calendar date with no time component.
    Date(CalDate),
}

impl Due {
    pub open spec fn wf(self) -> bool {
        match self {
            Due::DateTime(i) => i.wf(),
            Due::Date(d) => d.wf(),
        }
    }

    /// The calendar-date component.
    pub open spec fn date_of(self) -> CalDate {
        match self {
            Due::Date(d) => d,
            Due::DateTime(i) => i.date,
        }
    }

    /// The UTC instant used for chronological comparison: dates are
    /// pinned at 00:00 UTC.
    pub open spec fn instant(self) -> Instant {
        match self {
            Due::Date(d) => Instant::midnight(d),
            Due::DateTime(i) => i,
        }
    }

    /// The calendar-date component, for date-bucket comparisons.
    pub fn date(self) -> (r: CalDate)
        ensures
            r == self.date_of(),
    {
        match self {
            Due::Date(d) => d,
            Due::DateTime(i) => i.date,
        }
    }

    /// True if this due carries a time of day.
    pub fn has_time(self) -> (r: bool)
        ensures
            r == (self is DateTime),
    {
        match self {
            Due::DateTime(_) => true,
            Due::Date(_) => false,
        }
    }

    /// The stable text of a due value: `YYYY-MM-DD` for a date,
    /// `YYYY-MM-DDTHH:MM` (UTC) for an instant.
    pub fn to_text(&self) -> (r: String)
        requires
            self.wf(),
        ensures
            r@ == match *self {
                Due::Date(d) => iso_text(d),
                Due::DateTime(i) => minute_text(i),
            },
    {
        match self {
            Due::Date(d) => date_text(*d),
            Due::DateTime(i) => format_instant(*i, "%Y-%m-%dT%H:%M"),
        }
    }

    /// UTC instant for chronological comparison. Date variants are pinned
    /// at 00:00 UTC; instants are returned as they are.
    pub fn as_utc_instant(self) -> (r: Instant)
        ensures
            r == self.instant(),
    {
        match self {
            Due::Date(d) => Instant::at_midnight(d),
            Due::DateTime(i) => i,
        }
    }
}

impl From<CalDate> for Due {
    fn from(d: CalDate) -> (r: Due) {
        Due::Date(d)
    }
}

impl vstd::std_specs::convert::FromSpecImpl<CalDate> for Due {
    open spec fn obeys_from_spec() -> bool {
        true
    }

    open spec fn from_spec(v: CalDate) -> Due {
        Due::Date(v)
    }
}

impl From<Instant> for Due {
    fn from(i: Instant) -> (r: Due) {
        Due::DateTime(i)
    }
}

impl vstd::std_specs::convert::FromSpecImpl<Instant> for Due {
    open spec fn obeys_from_spec() -> bool {
        true
    }

    open spec fn from_spec(v: Instant) -> Due {
        Due::DateTime(v)
    }
}

/// A completed occurrence of a recurring task (an override of the
/// series at that occurrence).
#[derive(Clone, Debug, PartialEq)]
pub struct CompletedOccurrence {
    /// The due value the occurrence had.
    pub occurrence: Due,
    /// When this occurrence was completed (UTC).
    pub completed_at: Instant,
    /// Per-occurrence comments; a completion records none, and reopening
    /// keeps those of the occurrences that stay.
    pub comments: Vec<Comment>,
}

/// Outcome of completing one occurrence of a (possibly recurring) task.
#[derive(Clone, Copy, Debug, PartialEq, Eq, Structural)]
pub enum CompletionResult {
    /// Not a recurring series with a due anchor; the caller should do a
    /// plain close instead.
    NotRecurring,
    /// The series advanced to the next occurrence.
    Advanced { next: Due },
    /// The recurrence is exhausted; the task is now closed for good.
    Ended,
}

/// A jyn task: a work item with a due value, a recurrence and
/// task-specific fields.
#[derive(Debug, Clone, PartialEq)]
pub struct Task {
    pub item: Item,
    /// Due value: either a calendar date or a UTC instant.
    pub due: Option<Due>,
    /// Reminder instant.
    pub reminder: Option<Instant>,
    /// Recurrence rule (an RRULE body such as `FREQ=WEEKLY;BYDAY=MO`).
    pub recurrence: Option<String>,
    /// IANA timezone anchoring a time-bearing recurrence.
    pub recurrence_tz: Option<String>,
    /// First occurrence of the series, set on the first completion, so
    /// that `COUNT`/`UNTIL` count from the start of the series.
    pub recurrence_anchor: Option<Due>,
    /// Completed occurrences of a recurring series.
    pub completed_occurrences: Vec<CompletedOccurrence>,
    /// Project the task belongs to.
    pub project: Option<String>,
    /// Source reference for dispatched tasks.
    pub source: Option<String>,
    /// When the task was closed.
    pub closed_at: Option<Instant>,
    /// Whether the task has been archived.
    pub archived: bool,
    /// When the task was archived.
    pub archived_at: Option<Instant>,
}

/// A jyn project groups tasks by theme or dispatch source.
#[derive(Debug, Clone, PartialEq)]
pub struct Project {
    pub id: String,
    pub title: String,
    /// Source workspace for dispatch projects.
    pub source: Option<String>,
}

// ---------------------------------------------------------------------------
// What completing and reopening an occurrence do to a task
// ---------------------------------------------------------------------------

/// The fields that neither completing nor reopening an occurrence touches.
pub open spec fn same_identity(a: Task, b: Task) -> bool {
    &&& a.item.id == b.item.id
    &&& a.item.title == b.item.title
    &&& a.item.item_type == b.item.item_type
    &&& a.item.priority == b.item.priority
    &&& a.item.capabilities@ == b.item.capabilities@
    &&& a.item.created == b.item.created
    &&& a.reminder == b.reminder
    &&& a.recurrence == b.recurrence
    &&& a.recurrence_tz == b.recurrence_tz
    &&& a.project == b.project
    &&& a.source == b.source
    &&& a.archived == b.archived
    &&& a.archived_at == b.archived_at
}

/// Whether `pre` is a recurring series with a due value.
pub open spec fn is_series(pre: Task) -> bool {
    pre.recurrence is Some && pre.due is Some
}

/// The bookkeeping every completion of a series does before the next
/// occurrence is known: the anchor is fixed at the first occurrence, the
/// current due is recorded as completed at `now`, and `updated` is `now`.
pub open spec fn recorded(pre: Task, now: Instant, post: Task) -> bool {
    let due = pre.due.unwrap();
    &&& same_identity(pre, post)
    &&& post.recurrence_anchor == Some(
        match pre.recurrence_anchor {
            Some(a) => a,
            None => due,
        },
    )
    &&& post.completed_occurrences@.len() == pre.completed_occurrences@.len() + 1
    &&& post.completed_occurrences@.drop_last() == pre.completed_occurrences@
    &&& post.completed_occurrences@.last().occurrence == due
    &&& post.completed_occurrences@.last().completed_at == now
    &&& post.completed_occurrences@.last().comments@.len() == 0
    &&& post.item.updated == now
}

/// The state after completing the current occurrence with outcome `res`.
pub open spec fn completes_to(pre: Task, now: Instant, post: Task, res: CompletionResult) -> bool {
    if !is_series(pre) {
        &&& res == CompletionResult::NotRecurring
        &&& same_identity(pre, post)
        &&& post.due == pre.due
        &&& post.recurrence_anchor == pre.recurrence_anchor
        &&& post.completed_occurrences@ == pre.completed_occurrences@
        &&& post.item.status == pre.item.status
        &&& post.item.updated == pre.item.updated
        &&& post.closed_at == pre.closed_at
    } else {
        &&& recorded(pre, now, post)
        &&& match res {
            CompletionResult::Advanced { next } => {
                &&& post.due == Some(next)
                &&& (next is DateTime <==> pre.due.unwrap() is DateTime)
                &&& pre.due.unwrap().instant().before(next.instant())
                &&& post.item.status == Status::New
                &&& post.closed_at is None
            },
            CompletionResult::Ended => {
                &&& post.due == pre.due
                &&& post.item.status == Status::Closed
                &&& post.closed_at == Some(now)
            },
            CompletionResult::NotRecurring => false,
        }
    }
}

/// The state after completing a series whose next occurrence could not be
/// computed: the bookkeeping is done, the due and status are kept.
pub open spec fn fails_to(pre: Task, now: Instant, post: Task) -> bool {
    &&& is_series(pre)
    &&& recorded(pre, now, post)
    &&& post.due == pre.due
    &&& post.item.status == pre.item.status
    &&& post.closed_at == pre.closed_at
}

/// Whether a completed occurrence is kept when `occurrence` is reopened.
pub open spec fn keeps(occurrence: Due) -> spec_fn(CompletedOccurrence) -> bool {
    |o: CompletedOccurrence| o.occurrence != occurrence
}

/// Whether some completed occurrence of `pre` is `occurrence`.
pub open spec fn has_completed(pre: Task, occurrence: Due) -> bool {
    exists|i: int|
        0 <= i < pre.completed_occurrences@.len() && (#[trigger] pre.completed_occurrences@[i]).occurrence
            == occurrence
}

/// The state after reopening `occurrence` at `now`, and whether it was
/// found among the completed occurrences.
pub open spec fn reopens_to(pre: Task, occurrence: Due, now: Instant, post: Task, found: bool) -> bool {
    &&& found == has_completed(pre, occurrence)
    &&& same_identity(pre, post)
    &&& post.recurrence_anchor == pre.recurrence_anchor
    &&& if !found {
        &&& post.due == pre.due
        &&& post.completed_occurrences@ == pre.completed_occurrences@
        &&& post.item.status == pre.item.status
        &&& post.item.updated == pre.item.updated
        &&& post.closed_at == pre.closed_at
    } else {
        &&& post.completed_occurrences@ == pre.completed_occurrences@.filter(keeps(occurrence))
        &&& post.due == (match pre.due {
            Some(d) => if occurrence.instant().before(d.instant()) {
                Some(occurrence)
            } else {
                Some(d)
            },
            None => Some(occurrence),
        })
        &&& post.item.status == Status::New
        &&& post.closed_at is None
        &&& post.item.updated == now
    }
}

/// The due values a task holds are real dates and instants.
pub open spec fn dues_wf(t: Task) -> bool {
    &&& (t.due matches Some(d) ==> d.wf())
    &&& (t.recurrence_anchor matches Some(a) ==> a.wf())
}

// ---------------------------------------------------------------------------
// Operations
// ---------------------------------------------------------------------------

/// A next date, as a due value.
pub open spec fn date_due(r: Result<Option<CalDate>, ()>) -> Result<Option<Due>, ()> {
    match r {
        Ok(Some(d)) => Ok(Some(Due::Date(d))),
        Ok(None) => Ok(None),
        Err(()) => Err(()),
    }
}

/// A next instant, as a due value.
pub open spec fn instant_due(r: Result<Option<Instant>, ()>) -> Result<Option<Due>, ()> {
    match r {
        Ok(Some(i)) => Ok(Some(Due::DateTime(i))),
        Ok(None) => Ok(None),
        Err(()) => Err(()),
    }
}

/// The next due of a series anchored at `anchor` after `due`: date-only
/// series step in dates, time-bearing series in UTC instants; when the
/// anchor and the due disagree on the variant, the due serves as the
/// anchor.
pub open spec fn next_due_spec(rule: Seq<char>, anchor: Due, due: Due) -> Result<Option<Due>, ()> {
    match (anchor, due) {
        (Due::Date(a), Due::Date(d)) => date_due(next_date_spec(rule, a, d)),
        (Due::DateTime(a), Due::DateTime(d)) => instant_due(next_instant_spec(rule, a, d)),
        (_, Due::Date(d)) => date_due(next_date_spec(rule, d, d)),
        (_, Due::DateTime(d)) => instant_due(next_instant_spec(rule, d, d)),
    }
}

/// The next occurrence after `due` of a series anchored at `anchor`.
fn next_due(rule: &str, anchor: Due, due: Due) -> (r: Result<Option<Due>, RecurrenceError>)
    requires
        anchor.wf(),
        due.wf(),
    ensures
        match (r, next_due_spec(rule@, anchor, due)) {
            (Ok(x), Ok(y)) => x == y,
            (Err(e), Err(())) => e.rule@ == rule@,
            _ => false,
        },
        r matches Ok(Some(n)) ==> n.wf() && (n is DateTime <==> due is DateTime)
            && due.instant().before(n.instant()),
{
    match (anchor, due) {
        (Due::Date(a), Due::Date(d)) => {
            let n = next_occurrence(rule, a, d)?;
            Ok(
                match n {
                    Some(x) => Some(Due::Date(x)),
                    None => None,
                },
            )
        },
        (Due::DateTime(a), Due::DateTime(d)) => {
            let n = next_occurrence_at(rule, a, d)?;
            Ok(
                match n {
                    Some(x) => Some(Due::DateTime(x)),
                    None => None,
                },
            )
        },
        (_, Due::Date(d)) => {
            let n = next_occurrence(rule, d, d)?;
            Ok(
                match n {
                    Some(x) => Some(Due::Date(x)),
                    None => None,
                },
            )
        },
        (_, Due::DateTime(d)) => {
            let n = next_occurrence_at(rule, d, d)?;
            Ok(
                match n {
                    Some(x) => Some(Due::DateTime(x)),
                    None => None,
                },
            )
        },
    }
}

/// The anchor a completion uses: the recorded one, else the current due.
pub open spec fn anchor_of(t: Task) -> Due {
    match t.recurrence_anchor {
        Some(a) => a,
        None => t.due.unwrap(),
    }
}

/// The outcome of a completion whose next due is `next`.
pub open spec fn outcome_of(next: Option<Due>) -> CompletionResult {
    match next {
        Some(n) => CompletionResult::Advanced { next: n },
        None => CompletionResult::Ended,
    }
}

/// What completing the current occurrence of `pre` at `now` does: the
/// state `post` it leaves and the result `r` it returns.
pub open spec fn completion(pre: Task, now: Instant, post: Task, r: Result<
    CompletionResult,
    RecurrenceError,
>) -> bool {
    &&& dues_wf(post)
    &&& (r matches Ok(res) ==> completes_to(pre, now, post, res))
    &&& (r matches Err(e) ==> fails_to(pre, now, post) && e.rule@ == pre.recurrence.unwrap()@)
    &&& (!is_series(pre) ==> r matches Ok(CompletionResult::NotRecurring))
    &&& (is_series(pre) ==> match next_due_spec(pre.recurrence.unwrap()@, anchor_of(pre), pre.due.unwrap()) {
        Ok(next) => r matches Ok(res) && res == outcome_of(next),
        Err(()) => r is Err,
    })
}

impl Task {
    /// A new task: a `Task` item of medium priority with the `Implement`
    /// capability, no due value, no recurrence, not archived.
    pub fn new(id: String, title: String) -> (r: Task)
        ensures
            r.item.id == id,
            r.item.title == title,
            r.item.item_type == ItemType::Task,
            r.item.status == Status::New,
            r.item.priority == Priority::Medium,
            r.item.capabilities@ == seq![Capability::Implement],
            r.item.created == r.item.updated,
            r.item.created.wf(),
            r.due is None,
            r.reminder is None,
            r.recurrence is None,
            r.recurrence_tz is None,
            r.recurrence_anchor is None,
            r.completed_occurrences@.len() == 0,
            r.project is None,
            r.source is None,
            r.closed_at is None,
            !r.archived,
            r.archived_at is None,
    {
        let mut caps: Vec<Capability> = Vec::new();
        caps.push(Capability::Implement);
        Task {
            item: Item::new(id, title, ItemType::Task, Priority::Medium, caps),
            due: None,
            reminder: None,
            recurrence: None,
            recurrence_tz: None,
            recurrence_anchor: None,
            completed_occurrences: Vec::new(),
            project: None,
            source: None,
            closed_at: None,
            archived: false,
            archived_at: None,
        }
    }

    /// Whether the task is recurring.
    pub fn is_recurring(&self) -> (r: bool)
        ensures
            r == self.recurrence is Some,
    {
        self.recurrence.is_some()
    }

    /// Whether the task was created by dispatch.
    pub fn is_dispatched(&self) -> (r: bool)
        ensures
            r == self.source is Some,
    {
        self.source.is_some()
    }

    /// Finish completing an occurrence once the next one is known: advance
    /// the due to `next`, reactivating the series, or close the series for
    /// good at `now` when there is none.
    pub fn apply_next_occurrence(&mut self, next: Option<Due>, now: Instant) -> (r:
        CompletionResult)
        ensures
            same_identity(*old(self), *final(self)),
            final(self).recurrence_anchor == old(self).recurrence_anchor,
            final(self).completed_occurrences@ == old(self).completed_occurrences@,
            final(self).item.updated == old(self).item.updated,
            match next {
                Some(n) => {
                    &&& r == CompletionResult::Advanced { next: n }
                    &&& final(self).due == Some(n)
                    &&& final(self).item.status == Status::New
                    &&& final(self).closed_at is None
                },
                None => {
                    &&& r == CompletionResult::Ended
                    &&& final(self).due == old(self).due
                    &&& final(self).item.status == Status::Closed
                    &&& final(self).closed_at == Some(now)
                },
            },
    {
        match next {
            Some(n) => {
                self.due = Some(n);
                self.item.status = Status::New;
                self.closed_at = None;
                CompletionResult::Advanced { next: n }
            },
            None => {
                self.item.status = Status::Closed;
                self.closed_at = Some(now);
                CompletionResult::Ended
            },
        }
    }

    /// Complete the current occurrence of a recurring task: record it as a
    /// completed occurrence, then advance the due to the next occurrence,
    /// or close the series for good if the rule is exhausted. Returns
    /// `NotRecurring`, changing nothing, when the task is not a recurring
    /// series with a due value.
    ///
    /// Whether a next occurrence exists is the rule's to say; whatever it
    /// says, an advanced due comes strictly after the completed one and
    /// keeps its variant (date or instant).
    pub fn complete_occurrence(&mut self, now: Instant) -> (r: Result<
        CompletionResult,
        RecurrenceError,
    >)
        requires
            dues_wf(*old(self)),
        ensures
            dues_wf(*final(self)),
            r matches Ok(res) ==> completes_to(*old(self), now, *final(self), res),
            r matches Err(e) ==> fails_to(*old(self), now, *final(self)) && e.rule@
                == old(self).recurrence.unwrap()@,
            !is_series(*old(self)) ==> r matches Ok(CompletionResult::NotRecurring),
            is_series(*old(self)) ==> match next_due_spec(
                old(self).recurrence.unwrap()@,
                anchor_of(*old(self)),
                old(self).due.unwrap(),
            ) {
                Ok(next) => r matches Ok(res) && res == outcome_of(next),
                Err(()) => r is Err,
            },
            completion(*old(self), now, *final(self), r),
    {
        let due = match self.due {
            Some(d) => d,
            None => {
                return Ok(CompletionResult::NotRecurring);
            },
        };
        if self.recurrence.is_none() {
            return Ok(CompletionResult::NotRecurring);
        }
        let anchor = match self.recurrence_anchor {
            Some(a) => a,
            None => {
                self.recurrence_anchor = Some(due);
                due
            },
        };
        let ghost before = self.completed_occurrences@;
        self.completed_occurrences.push(
            CompletedOccurrence { occurrence: due, completed_at: now, comments: Vec::new() },
        );
        assert(self.completed_occurrences@.drop_last() =~= before);
        self.item.updated = now;
        let next = match &self.recurrence {
            Some(rule) => {
                match next_due(rule.as_str(), anchor, due) {
                    Ok(n) => n,
                    Err(e) => {
                        return Err(e);
                    },
                }
            },
            None => None,
        };
        Ok(self.apply_next_occurrence(next, now))
    }

    /// Reopen a single completed occurrence: drop it from the completed
    /// occurrences and make it the current due again when it precedes the
    /// current due, reactivating the series. Returns whether a matching
    /// occurrence was found; when none is, nothing changes.
    pub fn reopen_occurrence(&mut self, occurrence: Due, now: Instant) -> (r: bool)
        ensures
            reopens_to(*old(self), occurrence, now, *final(self), r),
    {
        let n = self.completed_occurrences.len();
        let mut found = false;
        let mut i: usize = 0;
        while i < n
            invariant
                n == self.completed_occurrences@.len(),
                i <= n,
                found <==> exists|j: int|
                    0 <= j < i && (#[trigger] self.completed_occurrences@[j]).occurrence
                        == occurrence,
            decreases n - i,
        {
            if self.completed_occurrences[i].occurrence == occurrence {
                found = true;
            }
            i = i + 1;
        }
        if !found {
            return false;
        }
        let ghost orig = self.completed_occurrences@;
        let mut rest: Vec<CompletedOccurrence> = Vec::new();
        std::mem::swap(&mut rest, &mut self.completed_occurrences);
        let mut kept: Vec<CompletedOccurrence> = Vec::new();
        let mut k: usize = 0;
        while rest.len() > 0
            invariant
                orig.len() == n,
                k + rest@.len() == orig.len(),
                rest@ == orig.skip(k as int),
                kept@ == orig.take(k as int).filter(keeps(occurrence)),
            decreases rest@.len(),
        {
            let o = rest.remove(0);
            proof {
                assert(o == orig[k as int]);
                assert(orig.take(k + 1) =~= orig.take(k as int).push(o));
                orig.take(k as int).lemma_filter_push(o, keeps(occurrence));
                assert(rest@ =~= orig.skip(k + 1));
            }
            if o.occurrence != occurrence {
                kept.push(o);
            }
            k = k + 1;
        }
        assert(orig.take(k as int) =~= orig);
        self.completed_occurrences = kept;
        let earlier = match self.due {
            Some(d) => occurrence.as_utc_instant().is_before(&d.as_utc_instant()),
            None => true,
        };
        if earlier {
            self.due = Some(occurrence);
        }
        self.item.status = Status::New;
        self.closed_at = None;
        self.item.updated = now;
        true
    }
}

// ---------------------------------------------------------------------------
// Laws
// ---------------------------------------------------------------------------

proof fn lemma_filter_keeps_all(s: Seq<CompletedOccurrence>, occurrence: Due)
    requires
        forall|i: int| 0 <= i < s.len() ==> (#[trigger] s[i]).occurrence != occurrence,
    ensures
        s.filter(keeps(occurrence)) == s,
    decreases s.len(),
{
    reveal(Seq::filter);
    if s.len() > 0 {
        lemma_filter_keeps_all(s.drop_last(), occurrence);
        assert(s.drop_last().push(s.last()) =~= s);
    }
}

/// Reopening the occurrence that a completion recorded undoes that
/// completion: the occurrence is found, the due is the completed
/// occurrence again, the completed occurrences are those from before the
/// completion, and the task is active (`New`, not closed). This holds
/// whether the series advanced or ended, provided the occurrence was not
/// already among the completed ones.
pub proof fn law_reopen_undoes_completion(
    pre: Task,
    now: Instant,
    mid: Task,
    res: CompletionResult,
    later: Instant,
    post: Task,
    found: bool,
)
    requires
        is_series(pre),
        completes_to(pre, now, mid, res),
        !has_completed(pre, pre.due.unwrap()),
        reopens_to(mid, pre.due.unwrap(), later, post, found),
    ensures
        found,
        post.due == pre.due,
        post.completed_occurrences@ == pre.completed_occurrences@,
        post.recurrence_anchor == mid.recurrence_anchor,
        post.item.status == Status::New,
        post.closed_at is None,
        post.item.updated == later,
{
    let due = pre.due.unwrap();
    let s = pre.completed_occurrences@;
    let c = mid.completed_occurrences@.last();
    assert(mid.completed_occurrences@ =~= s.push(c));
    assert(mid.completed_occurrences@[s.len() as int] == c);
    assert(has_completed(mid, due));
    s.lemma_filter_push(c, keeps(due));
    assert forall|i: int| 0 <= i < s.len() implies (#[trigger] s[i]).occurrence != due by {
        if s[i].occurrence == due {
            assert(has_completed(pre, due));
        }
    }
    lemma_filter_keeps_all(s, due);
}

/// A date series counts from its start: completing it moves the due to
/// the first occurrence strictly after the current due of the series
/// started at the recorded anchor (the first completed occurrence; on the
/// first completion, the current due), not at the current due; when that
/// series has no further occurrence the task is closed. The anchor stays
/// recorded.
pub proof fn law_series_steps_from_its_anchor(
    pre: Task,
    now: Instant,
    post: Task,
    r: Result<CompletionResult, RecurrenceError>,
)
    requires
        completion(pre, now, post, r),
        is_series(pre),
        pre.due.unwrap() is Date,
        anchor_of(pre) is Date,
    ensures
        post.recurrence_anchor == Some(anchor_of(pre)),
        match next_date_spec(
            pre.recurrence.unwrap()@,
            anchor_of(pre).date_of(),
            pre.due.unwrap().date_of(),
        ) {
            Ok(Some(x)) => {
                &&& r matches Ok(res) && res == CompletionResult::Advanced { next: Due::Date(x) }
                &&& post.due == Some(Due::Date(x))
                &&& post.item.status == Status::New
            },
            Ok(None) => {
                &&& r matches Ok(res) && res == CompletionResult::Ended
                &&& post.item.status == Status::Closed
                &&& post.closed_at == Some(now)
            },
            Err(()) => r is Err,
        },
{
}

/// `COUNT` and `UNTIL` count from the first occurrence: on the second
/// completion of a date series, the next due is decided by the series
/// started at the first completed due, whatever the due has become.
pub proof fn law_second_completion_counts_from_the_first_due(
    pre: Task,
    now: Instant,
    mid: Task,
    first: CompletionResult,
    later: Instant,
    post: Task,
    r: Result<CompletionResult, RecurrenceError>,
)
    requires
        is_series(pre),
        pre.recurrence_anchor is None,
        pre.due.unwrap() is Date,
        completion(pre, now, mid, Ok(first)),
        first is Advanced,
        completion(mid, later, post, r),
    ensures
        match next_date_spec(
            pre.recurrence.unwrap()@,
            pre.due.unwrap().date_of(),
            mid.due.unwrap().date_of(),
        ) {
            Ok(Some(x)) => r matches Ok(res) && res == CompletionResult::Advanced {
                next: Due::Date(x),
            },
            Ok(None) => r matches Ok(res) && res == CompletionResult::Ended,
            Err(()) => r is Err,
        },
{
    law_series_steps_from_its_anchor(pre, now, mid, Ok(first));
    assert(anchor_of(mid) == pre.due.unwrap());
    assert(is_series(mid));
    law_series_steps_from_its_anchor(mid, later, post, r);
}

/// Reopening a completed occurrence makes the due the earlier of the
/// current due and the reopened occurrence: the due never moves later,
/// an occurrence that does not come strictly before the current due
/// leaves the due as it was, and with no due the occurrence becomes it.
pub proof fn law_reopen_keeps_the_earlier_due(
    pre: Task,
    occurrence: Due,
    now: Instant,
    post: Task,
    found: bool,
)
    requires
        reopens_to(pre, occurrence, now, post, found),
        found,
    ensures
        post.due is Some,
        post.due == pre.due || post.due == Some(occurrence),
        !occurrence.instant().before(post.due.unwrap().instant()),
        pre.due matches Some(d) ==> !d.instant().before(post.due.unwrap().instant()),
        pre.due matches Some(d) ==> (!occurrence.instant().before(d.instant()) ==> post.due
            == pre.due),
        pre.due is None ==> post.due == Some(occurrence),
{
    match pre.due {
        Some(d) => {
            let a = occurrence.instant();
            let b = d.instant();
            if !a.before(b) {
                assert(!b.before(b));
            } else {
                assert(!a.before(a));
                assert(!b.before(a));
            }
        },
        None => {},
    }
}

} // verus!
