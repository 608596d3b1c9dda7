use ferridyn_memory::catalog::AttributeDef;
use ferridyn_memory::doc::{document_to_json, parse_json_object};
use ferridyn_memory::llm::{LlmClient, MockLlmClient};
use ferridyn_memory::nl::{
    answer_query, classify_intent, parse_to_document, resolve_query, strip_markdown_fences,
    NlIntent, ResolvedQuery,
};
use ferridyn_memory::store::PartitionSchemaInfo;

fn schema(prefix: &str, description: &str, attrs: &[(&str, &str, bool)]) -> PartitionSchemaInfo {
    PartitionSchemaInfo {
        prefix: prefix.to_string(),
        description: description.to_string(),
        attributes: attrs
            .iter()
            .map(|(n, t, r)| AttributeDef {
                name: n.to_string(),
                attr_type: t.to_string(),
                required: *r,
            })
            .collect(),
        validate: true,
    }
}

#[test]
fn test_strip_no_fences() {
    assert_eq!(strip_markdown_fences("hello"), "hello");
}

#[test]
fn test_strip_json_fences() {
    assert_eq!(strip_markdown_fences("```json\n{}\n```"), "{}");
}

#[test]
fn test_strip_bare_fences() {
    assert_eq!(strip_markdown_fences("```\nfoo\n```"), "foo");
}

#[test]
fn test_mock_returns_responses_in_order() {
    let mut mock = MockLlmClient::new(vec![
        "first".to_string(),
        "second".to_string(),
        "third".to_string(),
    ]);
    assert_eq!(mock.complete("sys", "user").unwrap().text, "first");
    assert_eq!(mock.complete("sys", "user").unwrap().text, "second");
    assert_eq!(mock.complete("sys", "user").unwrap().text, "third");
}

#[test]
fn test_mock_completion_text() {
    let mut mock = MockLlmClient::new(vec!["Hello, world!".to_string()]);
    let completion = mock
        .complete("You are a helpful assistant.", "Say hello.")
        .unwrap();
    assert_eq!(completion.text, "Hello, world!");
}

#[test]
fn test_parse_to_document_success() {
    let mut mock = MockLlmClient::new(vec![
        "{\"key\":\"toby\",\"name\":\"Toby\",\"email\":\"toby@example.com\",\"role\":\"backend engineer\"}".to_string(),
    ]);
    let s = schema(
        "contacts",
        "People and contacts",
        &[("name", "STRING", true), ("email", "STRING", true), ("role", "STRING", false)],
    );
    let doc = parse_to_document(
        &mut mock,
        "contacts",
        &s,
        "Toby is a backend engineer, email toby@example.com",
    )
    .unwrap();
    assert_eq!(doc.get_str("key").unwrap(), "toby");
    assert_eq!(doc.get_str("name").unwrap(), "Toby");
    assert_eq!(doc.get_str("email").unwrap(), "toby@example.com");
}

#[test]
fn test_parse_to_document_with_fences() {
    let mut mock =
        MockLlmClient::new(vec!["```json\n{\"key\":\"toby\",\"name\":\"Toby\"}\n```".to_string()]);
    let s = schema("contacts", "People", &[("name", "STRING", true)]);
    let doc = parse_to_document(&mut mock, "contacts", &s, "Toby").unwrap();
    assert_eq!(doc.get_str("key").unwrap(), "toby");
}

#[test]
fn test_resolve_query_index_lookup() {
    let mut mock = MockLlmClient::new(vec![
        "{\"type\":\"index\",\"category\":\"contacts\",\"index_name\":\"contacts_email\",\"key_value\":\"toby@example.com\"}".to_string(),
    ]);
    let schemas = vec![schema("contacts", "People", &[("email", "STRING", true)])];
    let indexes = vec![ferridyn_memory::store::IndexInfo {
        name: "contacts_email".to_string(),
        partition_schema: "contacts".to_string(),
        index_key_name: "email".to_string(),
        index_key_type: "STRING".to_string(),
    }];
    let result = resolve_query(&mut mock, &schemas, &indexes, &vec![], "Toby's email").unwrap();
    match result {
        ResolvedQuery::IndexLookup { category, index_name, key_value } => {
            assert_eq!(category, "contacts");
            assert_eq!(index_name, "contacts_email");
            assert_eq!(key_value, "toby@example.com");
        }
        _ => panic!("expected IndexLookup"),
    }
}

#[test]
fn test_resolve_query_partition_scan() {
    let mut mock = MockLlmClient::new(vec![
        "{\"type\":\"scan\",\"category\":\"decisions\",\"key_prefix\":null}".to_string(),
    ]);
    let schemas = vec![schema("decisions", "Decisions", &[])];
    let result = resolve_query(&mut mock, &schemas, &vec![], &vec![], "all decisions").unwrap();
    match result {
        ResolvedQuery::PartitionScan { category, key_prefix } => {
            assert_eq!(category, "decisions");
            assert!(key_prefix.is_none());
        }
        _ => panic!("expected PartitionScan"),
    }
}

#[test]
fn test_resolve_query_exact_lookup() {
    let mut mock = MockLlmClient::new(vec![
        "{\"type\":\"exact\",\"category\":\"contacts\",\"key\":\"toby\"}".to_string(),
    ]);
    let schemas = vec![schema("contacts", "People", &[])];
    let result =
        resolve_query(&mut mock, &schemas, &vec![], &vec![], "get toby's contact info").unwrap();
    match result {
        ResolvedQuery::ExactLookup { category, key } => {
            assert_eq!(category, "contacts");
            assert_eq!(key, "toby");
        }
        _ => panic!("expected ExactLookup"),
    }
}

#[test]
fn test_resolve_query_with_markdown_fences() {
    let mut mock = MockLlmClient::new(vec![
        "```json\n{\"type\":\"scan\",\"category\":\"contacts\",\"key_prefix\":\"toby\"}\n```"
            .to_string(),
    ]);
    let schemas = vec![schema("contacts", "People", &[])];
    let result = resolve_query(&mut mock, &schemas, &vec![], &vec![], "toby").unwrap();
    match result {
        ResolvedQuery::PartitionScan { category, key_prefix } => {
            assert_eq!(category, "contacts");
            assert_eq!(key_prefix.unwrap(), "toby");
        }
        _ => panic!("expected PartitionScan"),
    }
}

#[test]
fn test_resolve_query_rejects_unknown_type() {
    let mut mock = MockLlmClient::new(vec![
        "{\"type\":\"teleport\",\"category\":\"contacts\"}".to_string(),
    ]);
    let schemas = vec![schema("contacts", "People", &[])];
    assert!(resolve_query(&mut mock, &schemas, &vec![], &vec![], "toby").is_err());
}

#[test]
fn test_classify_intent_remember() {
    let mut mock = MockLlmClient::new(vec![
        "{\"intent\":\"remember\",\"content\":\"I have an appointment at noon tomorrow\"}"
            .to_string(),
    ]);
    let result =
        classify_intent(&mut mock, "remember I have an appointment at noon tomorrow").unwrap();
    match result {
        NlIntent::Remember { content } => {
            assert_eq!(content, "I have an appointment at noon tomorrow");
        }
        _ => panic!("expected Remember intent"),
    }
}

#[test]
fn test_classify_intent_recall() {
    let mut mock = MockLlmClient::new(vec![
        "{\"intent\":\"recall\",\"query\":\"what is Toby's email\"}".to_string(),
    ]);
    let result = classify_intent(&mut mock, "what is Toby's email").unwrap();
    match result {
        NlIntent::Recall { query } => {
            assert_eq!(query, "what is Toby's email");
        }
        _ => panic!("expected Recall intent"),
    }
}

#[test]
fn test_classify_intent_with_fences() {
    let mut mock = MockLlmClient::new(vec![
        "```json\n{\"intent\":\"remember\",\"content\":\"Toby is a backend engineer\"}\n```"
            .to_string(),
    ]);
    let result = classify_intent(&mut mock, "remember Toby is a backend engineer").unwrap();
    match result {
        NlIntent::Remember { content } => {
            assert_eq!(content, "Toby is a backend engineer");
        }
        _ => panic!("expected Remember intent"),
    }
}

#[test]
fn test_classify_intent_rejects_garbage() {
    let mut mock = MockLlmClient::new(vec!["not valid json".to_string()]);
    assert!(classify_intent(&mut mock, "anything").is_err());
}

#[test]
fn test_answer_query_returns_answer() {
    let mut mock = MockLlmClient::new(vec![
        "Your doctor's appointment is on 2026-02-03 at 12:00.".to_string(),
    ]);
    let mut item = ferridyn_memory::doc::Document::new();
    for (k, v) in [
        ("category", "appointment"),
        ("key", "doctor-appointment"),
        ("date", "2026-02-03"),
        ("time", "12:00"),
        ("title", "Doctor's Appointment"),
    ] {
        item.push_attr(k.to_string(), ferridyn_memory::doc::AttrValue::Str(v.to_string()));
    }
    let result = answer_query(&mut mock, "when is my doctors appointment", &vec![item]).unwrap();
    assert!(result.is_some());
    assert!(result.unwrap().contains("12:00"));
}

#[test]
fn test_answer_query_no_relevant_data() {
    let mut mock = MockLlmClient::new(vec!["NO_RELEVANT_DATA".to_string()]);
    let mut item = ferridyn_memory::doc::Document::new();
    item.push_attr("category".to_string(), ferridyn_memory::doc::AttrValue::Str(
        "preference".to_string(),
    ));
    item.push_attr("key".to_string(), ferridyn_memory::doc::AttrValue::Str("food".to_string()));
    let result = answer_query(&mut mock, "when is my doctors appointment", &vec![item]).unwrap();
    assert!(result.is_none());
}

#[test]
fn test_exhausted_mock_reports_empty_response() {
    let mut mock = MockLlmClient::new(vec![]);
    assert!(classify_intent(&mut mock, "anything").is_err());
}

#[test]
fn test_json_object_round_trip() {
    let doc = parse_json_object("{\"a\":\"b\",\"n\":42,\"flag\":true,\"gone\":null}").unwrap();
    assert_eq!(doc.get_str("a").unwrap(), "b");
    let text = document_to_json(&doc);
    let again = parse_json_object(&text).unwrap();
    assert_eq!(again.get_str("a").unwrap(), "b");
    assert!(text.contains("42"));
    assert!(parse_json_object("not json").is_none());
}
