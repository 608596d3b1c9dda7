use chrono::{DateTime, Duration as ChronoDuration, Utc};
use ferridyn_memory::doc::{AttrValue, Document};
use ferridyn_memory::ttl::{
    auto_ttl_from_date, compute_expires_at, filter_expired, is_expired, parse_ttl, Duration,
};

fn doc_with(pairs: &[(&str, &str)]) -> Document {
    let mut d = Document::new();
    for (k, v) in pairs {
        d.push_attr(k.to_string(), AttrValue::Str(v.to_string()));
    }
    d
}

#[test]
fn test_parse_ttl_hours() {
    let d = parse_ttl("24h").unwrap();
    assert_eq!(d, Duration::hours(24));
}

#[test]
fn test_parse_ttl_days() {
    let d = parse_ttl("7d").unwrap();
    assert_eq!(d, Duration::days(7));
}

#[test]
fn test_parse_ttl_weeks() {
    let d = parse_ttl("2w").unwrap();
    assert_eq!(d, Duration::weeks(2));
}

#[test]
fn test_parse_ttl_single_hour() {
    let d = parse_ttl("1h").unwrap();
    assert_eq!(d, Duration::hours(1));
}

#[test]
fn test_parse_ttl_invalid_unit() {
    assert!(parse_ttl("5x").is_err());
}

#[test]
fn test_parse_ttl_empty() {
    assert!(parse_ttl("").is_err());
}

#[test]
fn test_parse_ttl_zero() {
    assert!(parse_ttl("0h").is_err());
}

#[test]
fn test_parse_ttl_negative() {
    assert!(parse_ttl("-1d").is_err());
}

#[test]
fn test_parse_ttl_no_number() {
    assert!(parse_ttl("d").is_err());
}

#[test]
fn test_parse_ttl_exact_seconds() {
    assert_eq!(parse_ttl("1h").unwrap().seconds, 3600);
    assert_eq!(parse_ttl("3d").unwrap().seconds, 259200);
    assert_eq!(parse_ttl("2w").unwrap().seconds, 1209600);
    assert_eq!(parse_ttl(" 12h ").unwrap().seconds, 43200);
    assert_eq!(parse_ttl("+5h").unwrap().seconds, 18000);
}

#[test]
fn test_compute_expires_at_in_future() {
    let expires = compute_expires_at(Duration::hours(1));
    let parsed = DateTime::parse_from_rfc3339(&expires).unwrap();
    assert!(parsed > Utc::now());
}

#[test]
fn test_not_expired_no_field() {
    let item = doc_with(&[("category", "notes"), ("key", "test"), ("content", "hello")]);
    assert!(!is_expired(&item));
}

#[test]
fn test_not_expired_future() {
    let future = (Utc::now() + ChronoDuration::hours(1)).to_rfc3339();
    let item = doc_with(&[("category", "notes"), ("key", "test"), ("expires_at", &future)]);
    assert!(!is_expired(&item));
}

#[test]
fn test_expired_past() {
    let past = (Utc::now() - ChronoDuration::hours(1)).to_rfc3339();
    let item = doc_with(&[("category", "notes"), ("key", "test"), ("expires_at", &past)]);
    assert!(is_expired(&item));
}

#[test]
fn test_not_expired_invalid_string() {
    let item = doc_with(&[("category", "notes"), ("key", "test"), ("expires_at", "not-a-date")]);
    assert!(!is_expired(&item));
}

#[test]
fn test_filter_expired_removes_past() {
    let past = (Utc::now() - ChronoDuration::hours(1)).to_rfc3339();
    let future = (Utc::now() + ChronoDuration::hours(1)).to_rfc3339();
    let items = vec![
        doc_with(&[("key", "alive"), ("expires_at", &future)]),
        doc_with(&[("key", "dead"), ("expires_at", &past)]),
        doc_with(&[("key", "permanent")]),
    ];
    let filtered = filter_expired(items);
    assert_eq!(filtered.len(), 2);
    assert_eq!(filtered[0].get_str("key").unwrap(), "alive");
    assert_eq!(filtered[1].get_str("key").unwrap(), "permanent");
}

#[test]
fn test_auto_ttl_from_date_valid() {
    let item = doc_with(&[("category", "events"), ("key", "meeting"), ("date", "2030-06-15")]);
    let expires = auto_ttl_from_date(&item).unwrap();
    let parsed = DateTime::parse_from_rfc3339(&expires).unwrap();
    assert_eq!(
        parsed.date_naive(),
        chrono::NaiveDate::from_ymd_opt(2030, 6, 15).unwrap()
    );
}

#[test]
fn test_auto_ttl_from_date_no_date() {
    let item = doc_with(&[("category", "events"), ("key", "meeting"), ("content", "standup")]);
    assert!(auto_ttl_from_date(&item).is_none());
}

#[test]
fn test_auto_ttl_from_date_invalid() {
    let item = doc_with(&[("category", "events"), ("key", "meeting"), ("date", "not-a-date")]);
    assert!(auto_ttl_from_date(&item).is_none());
}

#[test]
fn test_auto_ttl_rejects_invalid_calendar_day() {
    let item = doc_with(&[("category", "events"), ("key", "x"), ("date", "2030-02-30")]);
    assert!(auto_ttl_from_date(&item).is_none());
}
