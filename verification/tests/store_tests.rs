use chrono::{Duration as ChronoDuration, Utc};
use ferridyn_memory::doc::{AttrValue, Document};
use ferridyn_memory::error::MemoryError;
use ferridyn_memory::resolve_table_name;
use ferridyn_memory::store::MemoryBackend;
use ferridyn_memory::ttl::filter_expired;

fn doc_with(pairs: &[(&str, &str)]) -> Document {
    let mut d = Document::new();
    for (k, v) in pairs {
        d.push_attr(k.to_string(), AttrValue::Str(v.to_string()));
    }
    d
}

fn setup_backend() -> MemoryBackend {
    MemoryBackend::new(resolve_table_name(None))
}

#[test]
fn backend_test_remember_and_recall() {
    let mut b = setup_backend();
    b.put_item(doc_with(&[
        ("category", "rust"),
        ("key", "ownership#borrowing"),
        ("content", "References allow borrowing without taking ownership"),
    ]))
    .unwrap();
    let items = b.query("rust", None, 100).unwrap();
    assert_eq!(items.len(), 1);
    assert_eq!(
        items[0].get_str("content").unwrap(),
        "References allow borrowing without taking ownership"
    );
}

#[test]
fn backend_test_recall_with_prefix() {
    let mut b = setup_backend();
    b.put_item(doc_with(&[("category", "rust"), ("key", "ownership#borrowing"), ("content", "a")]))
        .unwrap();
    b.put_item(doc_with(&[("category", "rust"), ("key", "ownership#moves"), ("content", "b")]))
        .unwrap();
    b.put_item(doc_with(&[("category", "rust"), ("key", "lifetimes#basics"), ("content", "c")]))
        .unwrap();
    let items = b.query("rust", Some("ownership"), 100).unwrap();
    assert_eq!(items.len(), 2);
}

#[test]
fn backend_test_recall_with_limit() {
    let mut b = setup_backend();
    for i in 0..10 {
        b.put_item(doc_with(&[
            ("category", "bulk"),
            ("key", &format!("item{i:02}")),
            ("content", &format!("c{i}")),
        ]))
        .unwrap();
    }
    let items = b.query("bulk", None, 3).unwrap();
    assert_eq!(items.len(), 3);
    assert_eq!(items[0].get_str("key").unwrap(), "item00");
    assert_eq!(items[1].get_str("key").unwrap(), "item01");
    assert_eq!(items[2].get_str("key").unwrap(), "item02");
}

#[test]
fn backend_test_forget() {
    let mut b = setup_backend();
    b.put_item(doc_with(&[("category", "rust"), ("key", "temp"), ("content", "temporary")]))
        .unwrap();
    b.delete_item("rust", "temp").unwrap();
    assert!(b.get_item("rust", "temp").is_none());
}

#[test]
fn backend_test_forget_nonexistent_no_error() {
    let mut b = setup_backend();
    b.delete_item("nonexistent", "nothing").unwrap();
}

#[test]
fn backend_test_discover_categories() {
    let mut b = setup_backend();
    b.put_item(doc_with(&[("category", "rust"), ("key", "a"), ("content", "x")])).unwrap();
    b.put_item(doc_with(&[("category", "python"), ("key", "b"), ("content", "y")])).unwrap();
    let keys = b.list_partition_keys(100).unwrap();
    assert_eq!(keys.len(), 2);
}

#[test]
fn backend_test_discover_prefixes() {
    let mut b = setup_backend();
    b.put_item(doc_with(&[("category", "rust"), ("key", "ownership#borrowing"), ("content", "a")]))
        .unwrap();
    b.put_item(doc_with(&[("category", "rust"), ("key", "ownership#moves"), ("content", "b")]))
        .unwrap();
    b.put_item(doc_with(&[("category", "rust"), ("key", "lifetimes#basics"), ("content", "c")]))
        .unwrap();
    let prefixes = b.list_sort_key_prefixes("rust", 100).unwrap();
    assert_eq!(prefixes.len(), 2);
    assert!(prefixes.iter().any(|p| p == "lifetimes"));
    assert!(prefixes.iter().any(|p| p == "ownership"));
}

#[test]
fn backend_test_remember_overwrites() {
    let mut b = setup_backend();
    b.put_item(doc_with(&[("category", "test"), ("key", "item"), ("content", "old")])).unwrap();
    b.put_item(doc_with(&[("category", "test"), ("key", "item"), ("content", "new")])).unwrap();
    let item = b.get_item("test", "item").unwrap();
    assert_eq!(item.get_str("content").unwrap(), "new");
}

#[test]
fn backend_test_remember_with_metadata() {
    let mut b = setup_backend();
    b.put_item(doc_with(&[
        ("category", "test"),
        ("key", "with-meta"),
        ("content", "some content"),
        ("metadata", "tag:important"),
    ]))
    .unwrap();
    let item = b.get_item("test", "with-meta").unwrap();
    assert_eq!(item.get_str("metadata").unwrap(), "tag:important");
}

#[test]
fn test_backend_put_and_query() {
    let mut b = setup_backend();
    b.put_item(doc_with(&[("category", "test"), ("key", "a"), ("content", "hello")])).unwrap();
    let items = b.query("test", None, 10).unwrap();
    assert_eq!(items.len(), 1);
    assert_eq!(items[0].get_str("content").unwrap(), "hello");
}

#[test]
fn test_backend_uses_custom_table_name() {
    let mut b = MemoryBackend::new(resolve_table_name(Some("myns")));
    assert_eq!(b.table_name, "memories_myns");
    b.put_item(doc_with(&[("category", "test"), ("key", "a"), ("content", "namespaced")]))
        .unwrap();
    let items = b.query("test", None, 10).unwrap();
    assert_eq!(items.len(), 1);
    assert_eq!(items[0].get_str("content").unwrap(), "namespaced");
}

#[test]
fn server_test_remember_and_recall() {
    let mut b = setup_backend();
    b.put_item(doc_with(&[
        ("category", "rust"),
        ("key", "ownership#borrowing"),
        ("content", "References allow borrowing without taking ownership"),
    ]))
    .unwrap();
    let items = b.query("rust", None, 100).unwrap();
    assert_eq!(items.len(), 1);
    assert_eq!(
        items[0].get_str("content").unwrap(),
        "References allow borrowing without taking ownership"
    );
}

#[test]
fn server_test_recall_with_prefix() {
    let mut b = setup_backend();
    b.put_item(doc_with(&[("category", "rust"), ("key", "ownership#borrowing"), ("content", "a")]))
        .unwrap();
    b.put_item(doc_with(&[("category", "rust"), ("key", "ownership#moves"), ("content", "b")]))
        .unwrap();
    b.put_item(doc_with(&[("category", "rust"), ("key", "lifetimes#basics"), ("content", "c")]))
        .unwrap();
    let items = b.query("rust", Some("ownership"), 100).unwrap();
    assert_eq!(items.len(), 2);
}

#[test]
fn server_test_recall_with_limit() {
    let mut b = setup_backend();
    for i in 0..10 {
        b.put_item(doc_with(&[
            ("category", "bulk"),
            ("key", &format!("item{i:02}")),
            ("content", &format!("c{i}")),
        ]))
        .unwrap();
    }
    let items = b.query("bulk", None, 3).unwrap();
    assert_eq!(items.len(), 3);
}

#[test]
fn server_test_forget() {
    let mut b = setup_backend();
    b.put_item(doc_with(&[("category", "rust"), ("key", "temp"), ("content", "temporary")]))
        .unwrap();
    b.delete_item("rust", "temp").unwrap();
    assert!(b.get_item("rust", "temp").is_none());
}

#[test]
fn server_test_forget_nonexistent_no_error() {
    let mut b = setup_backend();
    b.delete_item("nonexistent", "nothing").unwrap();
}

#[test]
fn server_test_discover_categories() {
    let mut b = setup_backend();
    b.put_item(doc_with(&[("category", "rust"), ("key", "a"), ("content", "x")])).unwrap();
    b.put_item(doc_with(&[("category", "python"), ("key", "b"), ("content", "y")])).unwrap();
    let keys = b.list_partition_keys(100).unwrap();
    assert_eq!(keys.len(), 2);
}

#[test]
fn server_test_discover_prefixes() {
    let mut b = setup_backend();
    b.put_item(doc_with(&[("category", "rust"), ("key", "ownership#borrowing"), ("content", "a")]))
        .unwrap();
    b.put_item(doc_with(&[("category", "rust"), ("key", "ownership#moves"), ("content", "b")]))
        .unwrap();
    b.put_item(doc_with(&[("category", "rust"), ("key", "lifetimes#basics"), ("content", "c")]))
        .unwrap();
    let prefixes = b.list_sort_key_prefixes("rust", 100).unwrap();
    assert_eq!(prefixes.len(), 2);
}

#[test]
fn server_test_remember_overwrites() {
    let mut b = setup_backend();
    b.put_item(doc_with(&[("category", "test"), ("key", "item"), ("content", "old")])).unwrap();
    b.put_item(doc_with(&[("category", "test"), ("key", "item"), ("content", "new")])).unwrap();
    let item = b.get_item("test", "item").unwrap();
    assert_eq!(item.get_str("content").unwrap(), "new");
}

#[test]
fn server_test_remember_with_metadata() {
    let mut b = setup_backend();
    b.put_item(doc_with(&[
        ("category", "test"),
        ("key", "with-meta"),
        ("content", "some content"),
        ("metadata", "tag:important"),
    ]))
    .unwrap();
    let item = b.get_item("test", "with-meta").unwrap();
    assert_eq!(item.get_str("metadata").unwrap(), "tag:important");
}

#[test]
fn test_put_rejects_unkeyed_item() {
    let mut b = setup_backend();
    let r = b.put_item(doc_with(&[("content", "no identity")]));
    assert!(matches!(r, Err(MemoryError::InvalidParams(_))));
}

#[test]
fn test_ttl_expiry_filters_reads() {
    let mut b = setup_backend();
    let past = (Utc::now() - ChronoDuration::hours(1)).to_rfc3339();
    b.put_item(doc_with(&[("category", "scratchpad"), ("key", "x"), ("content", "y"), (
        "expires_at",
        &past,
    )]))
    .unwrap();
    let items = b.query("scratchpad", None, 100).unwrap();
    assert_eq!(items.len(), 1);
    let filtered = filter_expired(items);
    assert!(filtered.is_empty());
}

#[test]
fn test_schema_create_and_describe() {
    let mut b = setup_backend();
    let attrs = vec![ferridyn_memory::catalog::AttributeDef {
        name: "name".to_string(),
        attr_type: "STRING".to_string(),
        required: false,
    }];
    b.create_schema("people", Some("People"), &attrs, false).unwrap();
    let info = b.describe_schema("people").unwrap();
    assert_eq!(info.prefix, "people");
    assert_eq!(info.description, "People");
    assert_eq!(info.attributes.len(), 1);
    assert!(matches!(
        b.create_schema("people", None, &attrs, false),
        Err(MemoryError::Schema(_))
    ));
    let missing = b.describe_schema("nobody");
    match missing {
        Err(MemoryError::Schema(m)) => assert!(m.contains("not found")),
        _ => panic!("expected a schema error naming the missing prefix"),
    }
}

#[test]
fn test_query_index_exact_match() {
    let mut b = setup_backend();
    let attrs = vec![ferridyn_memory::catalog::AttributeDef {
        name: "email".to_string(),
        attr_type: "STRING".to_string(),
        required: false,
    }];
    b.create_schema("contacts", Some("People"), &attrs, false).unwrap();
    b.create_index("contacts_email", "contacts", "email", "STRING").unwrap();
    b.put_item(doc_with(&[("category", "contacts"), ("key", "toby"), (
        "email",
        "toby@example.com",
    )]))
    .unwrap();
    b.put_item(doc_with(&[("category", "contacts"), ("key", "alice"), (
        "email",
        "alice@example.com",
    )]))
    .unwrap();
    let hits = b.query_index("contacts_email", "toby@example.com", None).unwrap();
    assert_eq!(hits.len(), 1);
    assert_eq!(hits[0].get_str("key").unwrap(), "toby");
    assert!(matches!(
        b.query_index("no_such_index", "x", None),
        Err(MemoryError::Index(_))
    ));
}

#[test]
fn test_ensure_predefined_schemas_content() {
    let mut b = setup_backend();
    b.ensure_predefined_schemas().unwrap();
    let contacts = b.describe_schema("contacts").unwrap();
    assert_eq!(contacts.description, "People — names, roles, contact info");
    assert!(!contacts.validate);
    let names: Vec<&str> = contacts.attributes.iter().map(|a| a.name.as_str()).collect();
    assert_eq!(
        names,
        vec!["name", "email", "role", "team", "notes", "content", "expires_at", "created_at"]
    );
    for (idx, attr) in [
        ("contacts_name", "name"),
        ("contacts_email", "email"),
        ("contacts_role", "role"),
        ("contacts_team", "team"),
    ] {
        let info = b.describe_index(idx).unwrap();
        assert_eq!(info.partition_schema, "contacts");
        assert_eq!(info.index_key_name, attr);
        assert_eq!(info.index_key_type, "STRING");
    }
}

#[test]
fn test_ensure_predefined_schemas_idempotent() {
    let mut b = setup_backend();
    b.ensure_predefined_schemas().unwrap();
    let schemas_once = b.list_schemas().unwrap();
    let indexes_once = b.list_indexes().unwrap();
    assert_eq!(schemas_once.len(), 9);
    b.ensure_predefined_schemas().unwrap();
    let schemas_twice = b.list_schemas().unwrap();
    let indexes_twice = b.list_indexes().unwrap();
    assert_eq!(schemas_once.len(), schemas_twice.len());
    assert_eq!(indexes_once.len(), indexes_twice.len());
}
