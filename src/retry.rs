use vstd::prelude::*;

verus! {

/// How one fetch attempt for a day ended.
#[derive(Clone, Copy, Debug, PartialEq, Eq, Structural)]
pub enum OutcomeKind {
    /// The report came back and parsed.
    Success,
    /// The server rejected the credential.
    AuthExpired,
    /// Any other status than success or rejection.
    OtherFailure,
    /// No status was received.
    TransportError,
    /// A success status whose body does not parse.
    ProtocolError,
}

/// What the retry policy asks for after an attempt.
#[derive(Clone, Copy, Debug, PartialEq, Eq, Structural)]
pub enum Step {
    /// The day is done: emit its rows.
    Emit,
    /// Replace the credential, then attempt the same day again.
    Refresh,
    /// Attempt the same day again with the same credential.
    Retry,
    /// The retry bound is reached: the day is given up.
    GiveUp,
    /// The success response cannot be read: the day is abandoned.
    Abandon,
}

impl OutcomeKind {
    /// A failure that counts against the retry bound.
    pub open spec fn is_retryable(self) -> bool {
        self is AuthExpired || self is OtherFailure || self is TransportError
    }
}

impl Step {
    /// The day needs no further attempt.
    pub open spec fn ends_day(self) -> bool {
        !(self is Refresh || self is Retry)
    }
}

/// One transition of the retry policy: the counter after the attempt, and
/// the step asked for. All retryable failures share the one counter.
pub open spec fn day_step(bound: nat, retries: nat, k: OutcomeKind) -> (nat, Step) {
    match k {
        OutcomeKind::Success => (retries, Step::Emit),
        OutcomeKind::ProtocolError => (retries, Step::Abandon),
        _ => {
            let r = retries + 1;
            if r >= bound {
                (r, Step::GiveUp)
            } else if k is AuthExpired {
                (r, Step::Refresh)
            } else {
                (r, Step::Retry)
            }
        },
    }
}

/// Feeding attempt outcomes to the policy until it ends the day: the number
/// of attempts made, the credential refreshes asked for, the counter at the
/// end, and the final step (`None` while the day is still open).
pub open spec fn replay(bound: nat, retries: nat, outs: Seq<OutcomeKind>) -> (
    nat,
    nat,
    nat,
    Option<Step>,
)
    decreases outs.len(),
{
    if outs.len() == 0 {
        (0, 0, retries, None)
    } else {
        let (r, s) = day_step(bound, retries, outs[0]);
        if s.ends_day() {
            (1, 0, r, Some(s))
        } else {
            let t = replay(bound, r, outs.drop_first());
            (t.0 + 1, t.1 + if s is Refresh { 1nat } else { 0nat }, t.2, t.3)
        }
    }
}

/// The number of `AuthExpired` outcomes in `outs`.
pub open spec fn count_auth_expired(outs: Seq<OutcomeKind>) -> nat
    decreases outs.len(),
{
    if outs.len() == 0 {
        0
    } else {
        count_auth_expired(outs.drop_first()) + if outs[0] is AuthExpired { 1nat } else { 0nat }
    }
}

/// The retry state of one day.
pub struct DayRetry {
    /// Attempts allowed for the day, across all failure kinds.
    pub bound: u32,
    /// Failed attempts so far.
    pub retries: u32,
}

impl DayRetry {
    /// The counter is below the bound, or nothing has failed yet.
    pub open spec fn wf(self) -> bool {
        self.retries == 0 || self.retries < self.bound
    }

    /// A fresh day: no attempt has failed yet.
    pub fn new(bound: u32) -> (r: DayRetry)
        ensures
            r.bound == bound,
            r.retries == 0,
            r.wf(),
    {
        DayRetry { bound, retries: 0 }
    }

    /// Records the outcome of one attempt and says what comes next.
    pub fn on_outcome(&mut self, k: OutcomeKind) -> (s: Step)
        requires
            old(self).wf(),
        ensures
            (final(self).retries as nat, s) == day_step(
                old(self).bound as nat,
                old(self).retries as nat,
                k,
            ),
            final(self).bound == old(self).bound,
            !s.ends_day() ==> final(self).wf(),
    {
        match k {
            OutcomeKind::Success => Step::Emit,
            OutcomeKind::ProtocolError => Step::Abandon,
            _ => {
                self.retries = self.retries + 1;
                if self.retries >= self.bound {
                    Step::GiveUp
                } else if k == OutcomeKind::AuthExpired {
                    Step::Refresh
                } else {
                    Step::Retry
                }
            },
        }
    }
}

/// Retryable failures of any mix draw on one shared counter: after `m` of them
/// the counter has grown by exactly `m`, one refresh was asked for per
/// credential rejection, and the day stays open while the counter is below
/// the bound; the failure that reaches the bound gives the day up.
pub proof fn lemma_shared_counter(bound: nat, retries: nat, fs: Seq<OutcomeKind>)
    requires
        forall|i: int| 0 <= i < fs.len() ==> (#[trigger] fs[i]).is_retryable(),
        retries + fs.len() <= bound,
    ensures
        retries + fs.len() < bound ==> replay(bound, retries, fs) == (
            fs.len(),
            count_auth_expired(fs),
            retries + fs.len(),
            None::<Step>,
        ),
        retries + fs.len() == bound && fs.len() > 0 ==> {
            let t = replay(bound, retries, fs);
            &&& t.0 == fs.len()
            &&& t.2 == bound
            &&& t.3 == Some(Step::GiveUp)
            &&& t.1 == count_auth_expired(fs.drop_last())
        },
    decreases fs.len(),
{
    if fs.len() > 0 {
        let rest = fs.drop_first();
        assert(fs[0].is_retryable());
        assert forall|i: int| 0 <= i < rest.len() implies (#[trigger] rest[i]).is_retryable() by {
            assert(rest[i] == fs[i + 1]);
        }
        lemma_shared_counter(bound, retries + 1, rest);
        if fs.len() > 1 {
            assert(fs.drop_last().drop_first() =~= rest.drop_last());
            assert(fs.drop_last()[0] == fs[0]);
        } else {
            assert(fs.drop_last().len() == 0);
        }
    }
}

/// A day whose every attempt is rejected for an expired credential asks for
/// exactly one refresh fewer than the bound, and is then given up.
pub proof fn lemma_all_auth_expired(bound: nat)
    requires
        bound >= 1,
    ensures
        replay(bound, 0, Seq::new(bound, |i: int| OutcomeKind::AuthExpired)) == (
            bound,
            (bound - 1) as nat,
            bound,
            Some(Step::GiveUp),
        ),
{
    let fs = Seq::new(bound, |i: int| OutcomeKind::AuthExpired);
    lemma_shared_counter(bound, 0, fs);
    lemma_count_all_auth_expired((bound - 1) as nat);
    assert(fs.drop_last() =~= Seq::new((bound - 1) as nat, |i: int| OutcomeKind::AuthExpired));
}

proof fn lemma_count_all_auth_expired(n: nat)
    ensures
        count_auth_expired(Seq::new(n, |i: int| OutcomeKind::AuthExpired)) == n,
    decreases n,
{
    if n > 0 {
        let fs = Seq::new(n, |i: int| OutcomeKind::AuthExpired);
        lemma_count_all_auth_expired((n - 1) as nat);
        assert(fs.drop_first() =~= Seq::new((n - 1) as nat, |i: int| OutcomeKind::AuthExpired));
    }
}

/// A day that succeeds on attempt `k`, after `k - 1` retryable failures and
/// within the bound, makes exactly `k` attempts, ends by emitting, and looks at
/// no outcome after the success.
pub proof fn lemma_success_on_attempt(bound: nat, outs: Seq<OutcomeKind>, k: nat)
    requires
        1 <= k <= bound,
        k <= outs.len(),
        forall|i: int| 0 <= i < k - 1 ==> (#[trigger] outs[i]).is_retryable(),
        outs[k - 1] == OutcomeKind::Success,
    ensures
        replay(bound, 0, outs).0 == k,
        replay(bound, 0, outs).3 == Some(Step::Emit),
        replay(bound, 0, outs) == replay(bound, 0, outs.take(k as int)),
{
    lemma_success_from(bound, 0, outs, k);
}

proof fn lemma_success_from(bound: nat, retries: nat, outs: Seq<OutcomeKind>, k: nat)
    requires
        1 <= k,
        retries + k <= bound,
        k <= outs.len(),
        forall|i: int| 0 <= i < k - 1 ==> (#[trigger] outs[i]).is_retryable(),
        outs[k - 1] == OutcomeKind::Success,
    ensures
        replay(bound, retries, outs).0 == k,
        replay(bound, retries, outs).3 == Some(Step::Emit),
        replay(bound, retries, outs) == replay(bound, retries, outs.take(k as int)),
    decreases k,
{
    let t = outs.take(k as int);
    assert(t[0] == outs[0]);
    if k > 1 {
        assert(outs[0].is_retryable());
        let rest = outs.drop_first();
        assert forall|i: int| 0 <= i < k - 2 implies (#[trigger] rest[i]).is_retryable() by {
            assert(rest[i] == outs[i + 1]);
        }
        assert(rest[k - 2] == outs[k - 1]);
        lemma_success_from(bound, retries + 1, rest, (k - 1) as nat);
        assert(t.drop_first() =~= rest.take(k - 1));
    }
}

} // verus!
