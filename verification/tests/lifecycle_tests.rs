use chrono::{DateTime, Duration as ChronoDuration, Utc};
use ferridyn_memory::doc::{AttrValue, Document};
use ferridyn_memory::error::MemoryError;
use ferridyn_memory::executor::{execute_resolved_query, execute_with_fallback};
use ferridyn_memory::lifecycle::{auto_init, build_store_item, promote_item, promote_parsed, prune_expired, prune_expired_at};
use ferridyn_memory::llm::MockLlmClient;
use ferridyn_memory::nl::{classify_intent, resolve_query, NlIntent, ResolvedQuery};
use ferridyn_memory::resolve_table_name;
use ferridyn_memory::store::MemoryBackend;

fn doc_with(pairs: &[(&str, &str)]) -> Document {
    let mut d = Document::new();
    for (k, v) in pairs {
        d.push_attr(k.to_string(), AttrValue::Str(v.to_string()));
    }
    d
}

fn setup_backend() -> MemoryBackend {
    MemoryBackend::new(resolve_table_name(None))
}

#[test]
fn test_build_store_item_stamps_created_at() {
    let attrs = doc_with(&[("content", "hello")]);
    let d = build_store_item("notes", "greeting", &attrs, None).unwrap();
    assert_eq!(d.get_str("category").unwrap(), "notes");
    assert_eq!(d.get_str("key").unwrap(), "greeting");
    assert_eq!(d.get_str("content").unwrap(), "hello");
    let created = d.get_str("created_at").unwrap();
    assert!(DateTime::parse_from_rfc3339(&created).is_ok());
    assert!(d.get_str("expires_at").is_none());
}

#[test]
fn test_build_store_item_explicit_ttl() {
    let attrs = doc_with(&[("content", "hello")]);
    let d = build_store_item("notes", "greeting", &attrs, Some("2h")).unwrap();
    let expires = d.get_str("expires_at").unwrap();
    let parsed = DateTime::parse_from_rfc3339(&expires).unwrap();
    assert!(parsed > Utc::now() + ChronoDuration::hours(1));
    assert!(parsed < Utc::now() + ChronoDuration::hours(3));
}

#[test]
fn test_build_store_item_invalid_ttl() {
    let attrs = doc_with(&[("content", "hello")]);
    let r = build_store_item("notes", "greeting", &attrs, Some("soon"));
    assert!(matches!(r, Err(MemoryError::InvalidParams(_))));
}

#[test]
fn test_build_store_item_scratchpad_default() {
    let attrs = doc_with(&[("content", "hello")]);
    let d = build_store_item("scratchpad", "note", &attrs, None).unwrap();
    let expires = d.get_str("expires_at").unwrap();
    let parsed = DateTime::parse_from_rfc3339(&expires).unwrap();
    assert!(parsed > Utc::now() + ChronoDuration::hours(23));
    assert!(parsed < Utc::now() + ChronoDuration::hours(25));
}

#[test]
fn test_build_store_item_events_date_ttl() {
    let attrs = doc_with(&[("title", "launch"), ("date", "2031-03-05")]);
    let d = build_store_item("events", "launch", &attrs, None).unwrap();
    let expires = d.get_str("expires_at").unwrap();
    let parsed = DateTime::parse_from_rfc3339(&expires).unwrap();
    assert_eq!(
        parsed.date_naive(),
        chrono::NaiveDate::from_ymd_opt(2031, 3, 5).unwrap()
    );
}

#[test]
fn test_promote_strips_ttl() {
    let mut b = setup_backend();
    let future = (Utc::now() + ChronoDuration::hours(1)).to_rfc3339();
    b.put_item(doc_with(&[
        ("category", "scratchpad"),
        ("key", "idea"),
        ("content", "keep this"),
        ("expires_at", &future),
        ("created_at", "2020-01-01T00:00:00+00:00"),
    ]))
    .unwrap();
    promote_item(&mut b, "scratchpad", "idea", None).unwrap();
    let item = b.get_item("scratchpad", "idea").unwrap();
    assert!(item.get_str("expires_at").is_none());
    assert_eq!(item.get_str("content").unwrap(), "keep this");
    let created = item.get_str("created_at").unwrap();
    let parsed = DateTime::parse_from_rfc3339(&created).unwrap();
    assert!(parsed > Utc::now() - ChronoDuration::hours(1));
}

#[test]
fn test_promote_moves_category() {
    let mut b = setup_backend();
    let future = (Utc::now() + ChronoDuration::hours(1)).to_rfc3339();
    b.put_item(doc_with(&[
        ("category", "scratchpad"),
        ("key", "idea"),
        ("content", "keep this"),
        ("expires_at", &future),
    ]))
    .unwrap();
    promote_item(&mut b, "scratchpad", "idea", Some("notes")).unwrap();
    assert!(b.get_item("scratchpad", "idea").is_none());
    let item = b.get_item("notes", "idea").unwrap();
    assert_eq!(item.get_str("content").unwrap(), "keep this");
    assert!(item.get_str("expires_at").is_none());
}

#[test]
fn test_promote_parsed_stores_reparsed_document() {
    let mut b = setup_backend();
    let future = (Utc::now() + ChronoDuration::hours(1)).to_rfc3339();
    b.put_item(doc_with(&[
        ("category", "scratchpad"),
        ("key", "idea"),
        ("content", "ship the launch checklist"),
        ("expires_at", &future),
    ]))
    .unwrap();
    // The parsed document, as the schema-directed parse of the content
    // against the target schema would yield it.
    let parsed = doc_with(&[
        ("key", "launch-checklist"),
        ("topic", "launch"),
        ("content", "ship the launch checklist"),
    ]);
    promote_parsed(&mut b, "scratchpad", "idea", "notes", &parsed).unwrap();
    assert!(b.get_item("scratchpad", "idea").is_none());
    let item = b.get_item("notes", "launch-checklist").unwrap();
    assert_eq!(item.get_str("topic").unwrap(), "launch");
    assert!(item.get_str("expires_at").is_none());
    assert!(DateTime::parse_from_rfc3339(&item.get_str("created_at").unwrap()).is_ok());
}

#[test]
fn test_promote_missing_item_errors() {
    let mut b = setup_backend();
    assert!(matches!(
        promote_item(&mut b, "notes", "ghost", None),
        Err(MemoryError::InvalidParams(_))
    ));
}

#[test]
fn test_prune_deletes_only_expired() {
    let mut b = setup_backend();
    let past = (Utc::now() - ChronoDuration::hours(1)).to_rfc3339();
    let future = (Utc::now() + ChronoDuration::hours(1)).to_rfc3339();
    b.put_item(doc_with(&[("category", "notes"), ("key", "dead"), ("expires_at", &past)]))
        .unwrap();
    b.put_item(doc_with(&[("category", "notes"), ("key", "alive"), ("expires_at", &future)]))
        .unwrap();
    b.put_item(doc_with(&[("category", "notes"), ("key", "forever")])).unwrap();
    let pruned = prune_expired(&mut b, Some("notes")).unwrap();
    assert_eq!(pruned, 1);
    assert!(b.get_item("notes", "dead").is_none());
    assert!(b.get_item("notes", "alive").is_some());
    assert!(b.get_item("notes", "forever").is_some());
}

#[test]
fn test_prune_at_fixed_moment_is_exact() {
    let expires = chrono::DateTime::from_timestamp(1000, 0).unwrap().to_rfc3339();
    let mut b = setup_backend();
    b.put_item(doc_with(&[("category", "notes"), ("key", "x"), ("expires_at", &expires)]))
        .unwrap();
    // Before the timestamp nothing is expired, so nothing is deleted.
    assert_eq!(prune_expired_at(&mut b, Some("notes"), 500).unwrap(), 0);
    assert!(b.get_item("notes", "x").is_some());
    // After it the item is expired and must go.
    assert_eq!(prune_expired_at(&mut b, Some("notes"), 2000).unwrap(), 1);
    assert!(b.get_item("notes", "x").is_none());
}

#[test]
fn test_prune_all_categories_counts_deletions() {
    let mut b = setup_backend();
    let past = (Utc::now() - ChronoDuration::hours(1)).to_rfc3339();
    let attrs = vec![ferridyn_memory::catalog::AttributeDef {
        name: "content".to_string(),
        attr_type: "STRING".to_string(),
        required: false,
    }];
    b.create_schema("notes", None, &attrs, false).unwrap();
    b.create_schema("scratchpad", None, &attrs, false).unwrap();
    b.put_item(doc_with(&[("category", "notes"), ("key", "dead"), ("expires_at", &past)]))
        .unwrap();
    b.put_item(doc_with(&[("category", "scratchpad"), ("key", "gone"), ("expires_at", &past)]))
        .unwrap();
    b.put_item(doc_with(&[("category", "notes"), ("key", "kept")])).unwrap();
    let pruned = prune_expired(&mut b, None).unwrap();
    assert_eq!(pruned, 2);
    assert!(b.get_item("notes", "dead").is_none());
    assert!(b.get_item("scratchpad", "gone").is_none());
    assert!(b.get_item("notes", "kept").is_some());
}

#[test]
fn test_auto_init_bootstraps_once() {
    let mut b = setup_backend();
    auto_init(&mut b).unwrap();
    assert_eq!(b.list_schemas().unwrap().len(), 9);
    let mut attrs: Vec<ferridyn_memory::catalog::AttributeDef> = Vec::new();
    attrs.push(ferridyn_memory::catalog::AttributeDef {
        name: "x".to_string(),
        attr_type: "STRING".to_string(),
        required: false,
    });
    // With schemas present, a later call leaves everything alone.
    auto_init(&mut b).unwrap();
    assert_eq!(b.list_schemas().unwrap().len(), 9);
}

#[test]
fn test_executor_exact_lookup() {
    let mut b = setup_backend();
    b.put_item(doc_with(&[("category", "notes"), ("key", "a"), ("content", "x")])).unwrap();
    let q = ResolvedQuery::ExactLookup { category: "notes".to_string(), key: "a".to_string() };
    let items = execute_resolved_query(&b, &q, 10).unwrap();
    assert_eq!(items.len(), 1);
    assert_eq!(items[0].get_str("content").unwrap(), "x");
}

#[test]
fn test_executor_broadens_once_on_empty_result() {
    let mut b = setup_backend();
    b.put_item(doc_with(&[("category", "notes"), ("key", "something"), ("content", "x")]))
        .unwrap();
    let q = ResolvedQuery::ExactLookup {
        category: "notes".to_string(),
        key: "missing".to_string(),
    };
    let (items, broadened) = execute_with_fallback(&b, &q, 10).unwrap();
    assert!(broadened);
    assert_eq!(items.len(), 1);
    assert_eq!(items[0].get_str("key").unwrap(), "something");
}

#[test]
fn test_executor_never_broadens_unbounded_scan() {
    let b = setup_backend();
    let q = ResolvedQuery::PartitionScan { category: "notes".to_string(), key_prefix: None };
    let (items, broadened) = execute_with_fallback(&b, &q, 10).unwrap();
    assert!(items.is_empty());
    assert!(!broadened);
}

#[test]
fn test_resolver_dispatch_reaches_index() {
    let mut b = setup_backend();
    let attrs = vec![ferridyn_memory::catalog::AttributeDef {
        name: "email".to_string(),
        attr_type: "STRING".to_string(),
        required: false,
    }];
    b.create_schema("contacts", Some("People"), &attrs, false).unwrap();
    b.create_index("contacts_email", "contacts", "email", "STRING").unwrap();
    b.put_item(doc_with(&[("category", "contacts"), ("key", "toby"), ("email", "t@e.com")]))
        .unwrap();
    let mut mock = MockLlmClient::new(vec![
        "{\"type\":\"index\",\"category\":\"contacts\",\"index_name\":\"contacts_email\",\"key_value\":\"t@e.com\"}".to_string(),
    ]);
    let schemas = b.list_schemas().unwrap();
    let indexes = b.list_indexes().unwrap();
    let resolved = resolve_query(&mut mock, &schemas, &indexes, &vec![], "Toby's email").unwrap();
    assert!(matches!(resolved, ResolvedQuery::IndexLookup { .. }));
    let items = execute_resolved_query(&b, &resolved, 10).unwrap();
    assert_eq!(items.len(), 1);
    assert_eq!(items[0].get_str("key").unwrap(), "toby");
}

#[test]
fn test_intent_split_drives_write_pipeline() {
    let mut b = setup_backend();
    let mut mock = MockLlmClient::new(vec![
        "{\"intent\":\"remember\",\"content\":\"I have an appointment at noon tomorrow\"}"
            .to_string(),
        "{\"intent\":\"recall\",\"query\":\"what is Toby's email\"}".to_string(),
    ]);
    let first = classify_intent(&mut mock, "remember I have an appointment at noon tomorrow")
        .unwrap();
    match first {
        NlIntent::Remember { content } => {
            // Only a remember intent runs the write pipeline.
            let attrs = doc_with(&[("content", &content)]);
            let d = build_store_item("notes", "appointment", &attrs, None).unwrap();
            b.put_item(d).unwrap();
        }
        NlIntent::Recall { .. } => panic!("expected Remember"),
    }
    let second = classify_intent(&mut mock, "what is Toby's email").unwrap();
    match second {
        NlIntent::Recall { query } => assert_eq!(query, "what is Toby's email"),
        NlIntent::Remember { .. } => panic!("expected Recall"),
    }
    assert_eq!(b.query("notes", None, 10).unwrap().len(), 1);
}
