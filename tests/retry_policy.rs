use stats_extract::calendar::CalendarDate;
use stats_extract::extraction::{Action, AttemptOutcome, Extraction};
use stats_extract::report::{ReportResponse, ReportRow};
use stats_extract::retry::{DayRetry, OutcomeKind, Step};

fn row(pairs: &[(&str, &str)]) -> ReportRow {
    ReportRow { fields: pairs.iter().map(|(k, v)| (k.to_string(), v.to_string())).collect() }
}

fn auth_expired() -> AttemptOutcome {
    AttemptOutcome::AuthExpired { status: 401, body: "expired".to_string() }
}

fn other_failure() -> AttemptOutcome {
    AttemptOutcome::OtherFailure { status: 500, body: "oops".to_string() }
}

fn success(rows: Vec<ReportRow>) -> AttemptOutcome {
    AttemptOutcome::Success(ReportResponse { total: row(&[]), rows })
}

fn run(bound: u32, days: u32) -> Extraction {
    Extraction::new(CalendarDate { year: 2024, month: 3, day: 10 }, days, bound).unwrap()
}

#[test]
fn five_rejections_refresh_four_times_and_move_on() {
    let mut ex = run(5, 2);
    let first = ex.current_day().unwrap();
    let mut refreshes = 0;
    let mut emitted = 0;
    for attempt in 1..=5 {
        assert_eq!(ex.current_day(), Some(first));
        match ex.on_outcome(auth_expired(), 1700000000) {
            Action::Refresh => refreshes += 1,
            Action::GiveUp => assert_eq!(attempt, 5),
            Action::Emit(rows) => emitted += rows.len(),
            _ => panic!("unexpected action"),
        }
    }
    assert_eq!(refreshes, 4);
    assert_eq!(emitted, 0);
    assert_eq!(ex.current_day(), Some(CalendarDate { year: 2024, month: 3, day: 8 }));
    assert_eq!(ex.day.retries, 0);
}

#[test]
fn success_on_third_attempt_emits_rows_once() {
    let mut ex = run(5, 2);
    assert!(matches!(ex.on_outcome(other_failure(), 1), Action::Retry));
    assert!(matches!(ex.on_outcome(auth_expired(), 2), Action::Refresh));
    let rows = vec![row(&[("AdvertiserId", "1")]), row(&[("AdvertiserId", "2")])];
    match ex.on_outcome(success(rows), 1700000000) {
        Action::Emit(out) => {
            assert_eq!(out.len(), 2);
            assert_eq!(out[0].fields[0].1, "1");
            assert_eq!(out[1].fields[0].1, "2");
            for r in &out {
                assert_eq!(r.fields[1], ("extraction_timestamp".to_string(), "1700000000".to_string()));
            }
        }
        _ => panic!("expected rows"),
    }
    assert_eq!(ex.next, 1);
    assert_eq!(ex.day.retries, 0);
}

#[test]
fn mixed_failures_share_one_counter() {
    let mut d = DayRetry::new(5);
    assert_eq!(d.on_outcome(OutcomeKind::OtherFailure), Step::Retry);
    assert_eq!(d.on_outcome(OutcomeKind::AuthExpired), Step::Refresh);
    assert_eq!(d.on_outcome(OutcomeKind::OtherFailure), Step::Retry);
    assert_eq!(d.retries, 3);
    assert_eq!(d.on_outcome(OutcomeKind::TransportError), Step::Retry);
    assert_eq!(d.on_outcome(OutcomeKind::AuthExpired), Step::GiveUp);
    assert_eq!(d.retries, 5);
}

#[test]
fn mixed_failures_then_success() {
    let mut d = DayRetry::new(5);
    assert_eq!(d.on_outcome(OutcomeKind::OtherFailure), Step::Retry);
    assert_eq!(d.on_outcome(OutcomeKind::AuthExpired), Step::Refresh);
    assert_eq!(d.on_outcome(OutcomeKind::OtherFailure), Step::Retry);
    assert_eq!(d.on_outcome(OutcomeKind::Success), Step::Emit);
    assert_eq!(d.retries, 3);
}

#[test]
fn protocol_error_abandons_the_day() {
    let mut ex = run(5, 2);
    let out = ex.on_outcome(AttemptOutcome::ProtocolError { body: "{".to_string() }, 0);
    assert!(matches!(out, Action::Abandon));
    assert_eq!(ex.next, 1);
}

#[test]
fn transport_error_is_retried_then_given_up() {
    let mut ex = run(2, 1);
    let t = || AttemptOutcome::TransportError { cause: "reset".to_string() };
    assert!(matches!(ex.on_outcome(t(), 0), Action::Retry));
    assert!(matches!(ex.on_outcome(t(), 0), Action::GiveUp));
    assert_eq!(ex.current_day(), None);
    assert!(ex.current_query().is_none());
}

#[test]
fn run_with_no_days_is_finished() {
    let ex = run(5, 0);
    assert_eq!(ex.current_day(), None);
}

#[test]
fn current_query_names_current_day() {
    let mut ex = run(5, 2);
    assert_eq!(ex.current_query().unwrap().start_date, "2024-03-09");
    ex.on_outcome(success(vec![]), 0);
    assert_eq!(ex.current_query().unwrap().end_date, "2024-03-08");
}
