use ferridyn_memory::catalog::predefined_schemas;
use ferridyn_memory::resolve_table_name;
use ferridyn_memory::text::capitalize_first;

#[test]
fn test_resolve_table_name() {
    assert_eq!(resolve_table_name(None), "memories");
    assert_eq!(resolve_table_name(Some("myproject")), "memories_myproject");
    assert_eq!(resolve_table_name(Some("test")), "memories_test");
}

#[test]
fn test_predefined_schemas_count() {
    assert_eq!(predefined_schemas().len(), 9);
}

#[test]
fn test_predefined_schemas_have_created_at() {
    for schema in predefined_schemas().iter() {
        assert!(
            schema
                .attributes
                .iter()
                .any(|a| a.name == "created_at" && a.attr_type == "STRING" && !a.required),
            "category '{}' missing created_at attribute",
            schema.name
        );
    }
}

#[test]
fn test_predefined_schemas_have_content() {
    for schema in predefined_schemas().iter() {
        assert!(
            schema
                .attributes
                .iter()
                .any(|a| a.name == "content" && a.attr_type == "STRING"),
            "category '{}' missing content attribute",
            schema.name
        );
    }
}

#[test]
fn test_predefined_schema_to_definition() {
    let cats = predefined_schemas();
    let notes = cats.iter().find(|s| s.name == "notes").unwrap();
    let def = notes.to_definition();
    assert_eq!(def.description, notes.description);
    assert_eq!(def.attributes.len(), notes.attributes.len());
    assert_eq!(def.suggested_indexes.len(), notes.indexed_attributes.len());
}

#[test]
fn test_predefined_indexed_attributes_exist() {
    for schema in predefined_schemas().iter() {
        for idx_attr in schema.indexed_attributes.iter() {
            assert!(
                schema.attributes.iter().any(|a| a.name == *idx_attr),
                "category '{}' indexes '{}' which is not in its attributes",
                schema.name,
                idx_attr
            );
        }
    }
}

#[test]
fn test_predefined_schemas_have_expires_at() {
    for schema in predefined_schemas().iter() {
        assert!(
            schema
                .attributes
                .iter()
                .any(|a| a.name == "expires_at" && a.attr_type == "STRING" && !a.required),
            "category '{}' missing expires_at attribute",
            schema.name
        );
    }
}

#[test]
fn test_no_required_attributes() {
    for schema in predefined_schemas().iter() {
        for attr in schema.attributes.iter() {
            assert!(
                !attr.required,
                "category '{}' attribute '{}' should not be required",
                schema.name, attr.name
            );
        }
    }
}

#[test]
fn test_scratchpad_has_source_attribute() {
    let cats = predefined_schemas();
    let scratchpad = cats
        .iter()
        .find(|s| s.name == "scratchpad")
        .expect("scratchpad category must exist");
    assert!(
        scratchpad.attributes.iter().any(|a| a.name == "source"),
        "scratchpad must have a 'source' attribute"
    );
}

#[test]
fn test_events_has_date_attribute() {
    let cats = predefined_schemas();
    let events = cats
        .iter()
        .find(|s| s.name == "events")
        .expect("events category must exist");
    assert!(
        events.attributes.iter().any(|a| a.name == "date"),
        "events must have a 'date' attribute"
    );
    assert!(
        events.attributes.iter().any(|a| a.name == "time"),
        "events must have a 'time' attribute"
    );
}

#[test]
fn test_issues_replaces_bugs() {
    let cats = predefined_schemas();
    assert!(
        cats.iter().any(|s| s.name == "issues"),
        "issues category must exist"
    );
    assert!(
        !cats.iter().any(|s| s.name == "bugs"),
        "bugs category should not exist (renamed to issues)"
    );
}

#[test]
fn test_capitalize_first_uppercases_head() {
    assert_eq!(capitalize_first("hello"), "Hello");
    assert_eq!(capitalize_first(""), "");
    assert_eq!(capitalize_first("Area"), "Area");
}
