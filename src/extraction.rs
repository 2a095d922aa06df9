use vstd::prelude::*;

use crate::calendar::{days_back, lookback_dates, walk_in_range, CalendarDate};
use crate::report::{stamped, FieldsView, ReportQuery, ReportResponse, ReportRow};
use crate::retry::{day_step, DayRetry, OutcomeKind, Step};

verus! {

/// How one attempt to fetch a day's report ended.
pub enum AttemptOutcome {
    /// The report was received and parsed.
    Success(ReportResponse),
    /// The server rejected the credential.
    AuthExpired { status: u16, body: String },
    /// The server answered with another failure status.
    OtherFailure { status: u16, body: String },
    /// No status was received.
    TransportError { cause: String },
    /// A success status whose body did not parse.
    ProtocolError { body: String },
}

impl AttemptOutcome {
    pub open spec fn spec_kind(&self) -> OutcomeKind {
        match self {
            AttemptOutcome::Success(_) => OutcomeKind::Success,
            AttemptOutcome::AuthExpired { .. } => OutcomeKind::AuthExpired,
            AttemptOutcome::OtherFailure { .. } => OutcomeKind::OtherFailure,
            AttemptOutcome::TransportError { .. } => OutcomeKind::TransportError,
            AttemptOutcome::ProtocolError { .. } => OutcomeKind::ProtocolError,
        }
    }

    #[verifier::when_used_as_spec(spec_kind)]
    pub fn kind(&self) -> (r: OutcomeKind)
        ensures
            r == self.spec_kind(),
    {
        match self {
            AttemptOutcome::Success(_) => OutcomeKind::Success,
            AttemptOutcome::AuthExpired { .. } => OutcomeKind::AuthExpired,
            AttemptOutcome::OtherFailure { .. } => OutcomeKind::OtherFailure,
            AttemptOutcome::TransportError { .. } => OutcomeKind::TransportError,
            AttemptOutcome::ProtocolError { .. } => OutcomeKind::ProtocolError,
        }
    }
}

/// What the run asks of its caller after an attempt.
pub enum Action {
    /// Emit these rows, in order; the day is done.
    Emit(Vec<ReportRow>),
    /// Obtain a new credential, then attempt the same day again.
    Refresh,
    /// Attempt the same day again.
    Retry,
    /// The retry bound was reached; the day is skipped.
    GiveUp,
    /// The day's success response could not be read; the day is skipped.
    Abandon,
}

/// The action carries out step `s`.
pub open spec fn action_matches(a: &Action, s: Step) -> bool {
    match s {
        Step::Emit => a is Emit,
        Step::Refresh => a is Refresh,
        Step::Retry => a is Retry,
        Step::GiveUp => a is GiveUp,
        Step::Abandon => a is Abandon,
    }
}

/// The rows of a list, as field sequences.
pub open spec fn rows_of(v: Seq<ReportRow>) -> Seq<FieldsView> {
    Seq::new(v.len(), |i: int| v[i]@)
}

/// The decisions of an extraction run: which day is fetched next, and what
/// follows each attempt.
pub struct Extraction {
    /// The days to fetch, latest first.
    pub dates: Vec<CalendarDate>,
    /// Index of the day being fetched; the run is over at `dates.len()`.
    pub next: usize,
    /// Retry state of the day being fetched.
    pub day: DayRetry,
}

impl Extraction {
    pub open spec fn wf(&self) -> bool {
        &&& self.next <= self.dates@.len()
        &&& self.day.wf()
        &&& forall|i: int| 0 <= i < self.dates@.len() ==> #[trigger] self.dates@[i].valid()
    }

    /// A run over the `days` days before `base`, latest first, allowing `bound`
    /// attempts per day. `None` when those days leave the calendar's range.
    pub fn new(base: CalendarDate, days: u32, bound: u32) -> (r: Option<Extraction>)
        requires
            base.valid(),
        ensures
            r is Some <==> walk_in_range(base, days as nat),
            r matches Some(e) ==> {
                &&& e.wf()
                &&& e.next == 0
                &&& e.day.retries == 0
                &&& e.day.bound == bound
                &&& e.dates@.len() == days
                &&& forall|i: int| 0 <= i < days ==> #[trigger] e.dates@[i] == days_back(
                    base,
                    (i + 1) as nat,
                )
            },
    {
        match lookback_dates(base, days) {
            None => None,
            Some(dates) => Some(Extraction { dates, next: 0, day: DayRetry::new(bound) }),
        }
    }

    /// The day to fetch now, or `None` once every day has been handled.
    pub fn current_day(&self) -> (r: Option<CalendarDate>)
        requires
            self.wf(),
        ensures
            self.next < self.dates@.len() ==> r == Some(self.dates@[self.next as int]),
            self.next >= self.dates@.len() ==> r is None,
    {
        if self.next < self.dates.len() {
            Some(self.dates[self.next])
        } else {
            None
        }
    }

    /// The request for the day to fetch now, or `None` once every day has
    /// been handled.
    pub fn current_query(&self) -> (r: Option<ReportQuery>)
        requires
            self.wf(),
        ensures
            r is Some <==> self.next < self.dates@.len(),
            r matches Some(q) ==> q.is_for_day(self.dates@[self.next as int]),
    {
        match self.current_day() {
            None => None,
            Some(d) => Some(ReportQuery::for_day(d)),
        }
    }

    /// Takes the outcome of an attempt on the current day, whose fetch began
    /// at `timestamp`, and says what follows. A step that ends the day moves
    /// the run to the next day with a fresh retry counter; on success the
    /// response's rows come back stamped with `timestamp`.
    pub fn on_outcome(&mut self, outcome: AttemptOutcome, timestamp: i64) -> (a: Action)
        requires
            old(self).wf(),
            old(self).next < old(self).dates@.len(),
        ensures
            final(self).wf(),
            final(self).dates == old(self).dates,
            final(self).day.bound == old(self).day.bound,
            ({
                let (r, s) = day_step(
                    old(self).day.bound as nat,
                    old(self).day.retries as nat,
                    outcome.kind(),
                );
                &&& action_matches(&a, s)
                &&& s.ends_day() ==> final(self).next == old(self).next + 1
                    && final(self).day.retries == 0
                &&& !s.ends_day() ==> final(self).next == old(self).next
                    && final(self).day.retries == r
            }),
            outcome matches AttemptOutcome::Success(resp) ==> (a matches Action::Emit(rows)
                && rows_of(rows@) == stamped(resp.rows_view(), timestamp as int)),
    {
        let n = self.dates.len();
        let s = self.day.on_outcome(outcome.kind());
        let a = match s {
            Step::Emit => match outcome {
                AttemptOutcome::Success(resp) => Action::Emit(resp.into_stamped_rows(timestamp)),
                _ => Action::Abandon,
            },
            Step::Refresh => Action::Refresh,
            Step::Retry => Action::Retry,
            Step::GiveUp => Action::GiveUp,
            Step::Abandon => Action::Abandon,
        };
        if s == Step::Emit || s == Step::GiveUp || s == Step::Abandon {
            assert(self.next < n);
            self.next = self.next + 1;
            self.day = DayRetry::new(self.day.bound);
        }
        a
    }
}

} // verus!
