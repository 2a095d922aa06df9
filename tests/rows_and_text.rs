use stats_extract::credential::{token_request_form, Credential};
use stats_extract::report::{classify_response, ReportResponse, ReportRow, ResponseClass};
use stats_extract::text::decimal_text;

fn row(pairs: &[(&str, &str)]) -> ReportRow {
    ReportRow { fields: pairs.iter().map(|(k, v)| (k.to_string(), v.to_string())).collect() }
}

fn pairs(r: &ReportRow) -> Vec<(&str, &str)> {
    r.fields.iter().map(|(k, v)| (k.as_str(), v.as_str())).collect()
}

#[test]
fn one_row_gets_timestamp() {
    let resp = ReportResponse {
        total: row(&[]),
        rows: vec![row(&[("AdvertiserId", "1"), ("Day", "2024-03-09")])],
    };
    let out = resp.into_stamped_rows(1700000000);
    assert_eq!(out.len(), 1);
    assert_eq!(
        pairs(&out[0]),
        vec![("AdvertiserId", "1"), ("Day", "2024-03-09"), ("extraction_timestamp", "1700000000")]
    );
}

#[test]
fn existing_timestamp_field_is_replaced() {
    let resp = ReportResponse {
        total: row(&[("Clicks", "3")]),
        rows: vec![row(&[("extraction_timestamp", "old"), ("Day", "2024-03-09")])],
    };
    let out = resp.into_stamped_rows(42);
    assert_eq!(pairs(&out[0]), vec![("extraction_timestamp", "42"), ("Day", "2024-03-09")]);
}

#[test]
fn set_field_adds_or_replaces() {
    let mut r = row(&[("a", "1"), ("b", "2")]);
    r.set_field(&"b".to_string(), &"3".to_string());
    assert_eq!(pairs(&r), vec![("a", "1"), ("b", "3")]);
    r.set_field(&"c".to_string(), &"4".to_string());
    assert_eq!(pairs(&r), vec![("a", "1"), ("b", "3"), ("c", "4")]);
}

#[test]
fn decimal_text_values() {
    assert_eq!(decimal_text(0), "0");
    assert_eq!(decimal_text(7), "7");
    assert_eq!(decimal_text(1700000000), "1700000000");
    assert_eq!(decimal_text(-305), "-305");
    assert_eq!(decimal_text(i64::MIN), "-9223372036854775808");
    assert_eq!(decimal_text(i64::MAX), "9223372036854775807");
}

#[test]
fn success_body_with_bom_matches_plain_body() {
    let body = "{\"Total\":{},\"Rows\":[]}";
    let with_bom = format!("\u{feff}{}", body);
    let a = classify_response(200, &with_bom);
    let b = classify_response(200, body);
    match (a, b) {
        (ResponseClass::Report(x), ResponseClass::Report(y)) => {
            assert_eq!(x, body);
            assert_eq!(y, body);
        }
        _ => panic!("expected reports"),
    }
}

#[test]
fn repeated_boms_are_all_stripped() {
    match classify_response(200, "\u{feff}\u{feff}{}") {
        ResponseClass::Report(x) => assert_eq!(x, "{}"),
        _ => panic!("expected a report"),
    }
}

#[test]
fn rejected_and_failed_statuses() {
    match classify_response(401, "\u{feff}no") {
        ResponseClass::AuthExpired { status, body } => {
            assert_eq!(status, 401);
            assert_eq!(body, "\u{feff}no");
        }
        _ => panic!("expected a rejection"),
    }
    match classify_response(503, "busy") {
        ResponseClass::OtherFailure { status, body } => {
            assert_eq!(status, 503);
            assert_eq!(body, "busy");
        }
        _ => panic!("expected a failure"),
    }
}

#[test]
fn token_form_and_header() {
    let form = token_request_form(&"id".to_string(), &"secret".to_string());
    assert_eq!(
        form,
        vec![
            ("grant_type".to_string(), "client_credentials".to_string()),
            ("client_id".to_string(), "id".to_string()),
            ("client_secret".to_string(), "secret".to_string()),
        ]
    );
    let c = Credential { access_token: "abc".to_string(), token_type: "Bearer".to_string(), expires_in: 900 };
    assert_eq!(c.authorization_value(), "Bearer abc");
}
