use watcher::aws::complete_messages;
use watcher::json::{build_event_pattern, build_queue_policy, build_redrive_policy};
use watcher::provider::{
    name_batches, parameter_store_settings, parse_event, EventDetail, EventEnvelope, EventError,
    Operation, ProviderError,
};
use watcher::config::{ParameterStoreConfig, ProviderConfig};

fn envelope(source: Option<&str>, detail_type: Option<&str>, name: &str, op: &str) -> EventEnvelope {
    EventEnvelope {
        source: source.map(|s| s.to_string()),
        detail_type: detail_type.map(|s| s.to_string()),
        detail: EventDetail { name: name.to_string(), operation: op.to_string() },
    }
}

fn change(name: &str, op: &str) -> EventEnvelope {
    envelope(Some("aws.ssm"), Some("Parameter Store Change"), name, op)
}

#[test]
fn parses_create_event() {
    let events = parse_event(&change("/myapp/prod/db/password", "Create"), "/myapp/prod").ok().unwrap();
    assert_eq!(events.len(), 1);
    assert_eq!(events[0].name, "/myapp/prod/db/password");
    assert_eq!(events[0].operation, Operation::Created);
}

#[test]
fn parses_update_event() {
    let events = parse_event(&change("/myapp/prod/db/password", "Update"), "/myapp/prod").ok().unwrap();
    assert_eq!(events.len(), 1);
    assert_eq!(events[0].operation, Operation::Updated);
    let events = parse_event(&change("/myapp/prod/x", "LabelParameterVersion"), "/myapp/prod").ok().unwrap();
    assert_eq!(events[0].operation, Operation::Updated);
}

#[test]
fn parses_delete_event() {
    let events = parse_event(&change("/myapp/prod/db/password", "Delete"), "/myapp/prod").ok().unwrap();
    assert_eq!(events.len(), 1);
    assert_eq!(events[0].operation, Operation::Deleted);
}

#[test]
fn ignores_events_outside_prefix() {
    let events = parse_event(&change("/otherapp/prod/x", "Update"), "/myapp/prod").ok().unwrap();
    assert!(events.is_empty());
    let events = parse_event(&envelope(Some("aws.ec2"), Some("Parameter Store Change"), "/myapp/prod/x", "Update"), "/myapp/prod").ok().unwrap();
    assert!(events.is_empty());
    let events = parse_event(&envelope(Some("aws.ssm"), None, "/myapp/prod/x", "Update"), "/myapp/prod").ok().unwrap();
    assert!(events.is_empty());
}

#[test]
fn errors_on_unknown_operation() {
    match parse_event(&change("/myapp/prod/x", "Explode"), "/myapp/prod") {
        Err(EventError::UnrecognizedOperation(op)) => assert_eq!(op, "Explode"),
        _ => panic!("expected an unrecognized operation"),
    }
}

#[test]
fn builds_prefix_filtered_pattern() {
    let pattern_str = build_event_pattern("/myapp/prod").ok().unwrap();
    let pattern: serde_json::Value = serde_json::from_str(&pattern_str).unwrap();
    assert_eq!(pattern["source"][0], "aws.ssm");
    assert_eq!(pattern["detail-type"][0], "Parameter Store Change");
    assert_eq!(pattern["detail"]["name"][0]["prefix"], "/myapp/prod");
}

#[test]
fn scopes_policy_to_queue_and_rule() {
    let policy_str = build_queue_policy(
        "arn:aws:sqs:us-east-1:123456789012:watcher-ssm-events",
        "arn:aws:events:us-east-1:123456789012:rule/watcher-ssm-parameter-change",
    )
    .ok()
    .unwrap();
    let policy: serde_json::Value = serde_json::from_str(&policy_str).unwrap();
    assert_eq!(policy["Version"], "2012-10-17");
    let statement = &policy["Statement"][0];
    assert_eq!(statement["Effect"], "Allow");
    assert_eq!(statement["Principal"]["Service"], "events.amazonaws.com");
    assert_eq!(statement["Action"], "sqs:SendMessage");
    assert_eq!(statement["Resource"], "arn:aws:sqs:us-east-1:123456789012:watcher-ssm-events");
    assert_eq!(
        statement["Condition"]["ArnEquals"]["aws:SourceArn"],
        "arn:aws:events:us-east-1:123456789012:rule/watcher-ssm-parameter-change"
    );
}

#[test]
fn pattern_escapes_the_prefix() {
    let pattern_str = build_event_pattern("/a\"b\\c\n").ok().unwrap();
    let pattern: serde_json::Value = serde_json::from_str(&pattern_str).unwrap();
    assert_eq!(pattern["detail"]["name"][0]["prefix"], "/a\"b\\c\n");
    assert_eq!(
        pattern_str,
        "{\"detail\":{\"name\":[{\"prefix\":\"/a\\\"b\\\\c\\n\"}]},\"detail-type\":[\"Parameter Store Change\"],\"source\":[\"aws.ssm\"]}"
    );
}

#[test]
fn redrive_policy_names_dead_letter_queue() {
    let text = build_redrive_policy("arn:dlq", 5).ok().unwrap();
    assert_eq!(text, "{\"deadLetterTargetArn\":\"arn:dlq\",\"maxReceiveCount\":5}");
    let text = build_redrive_policy("arn:dlq", -12).ok().unwrap();
    let v: serde_json::Value = serde_json::from_str(&text).unwrap();
    assert_eq!(v["maxReceiveCount"], -12);
}

#[test]
fn batches_names_by_ten() {
    let names: Vec<String> = (0..23).map(|i| format!("/n{i}")).collect();
    let batches = name_batches(&names);
    assert_eq!(batches.len(), 3);
    assert_eq!(batches[0].len(), 10);
    assert_eq!(batches[1].len(), 10);
    assert_eq!(batches[2].len(), 3);
    let flat: Vec<String> = batches.into_iter().flatten().collect();
    assert_eq!(flat, names);
    assert!(name_batches(&Vec::new()).is_empty());
    assert_eq!(name_batches(&names[..10].to_vec()).len(), 1);
}

#[test]
fn messages_without_body_or_handle_are_dropped() {
    let raw = vec![
        (Some("a".to_string()), Some("r1".to_string())),
        (None, Some("r2".to_string())),
        (Some("c".to_string()), None),
        (Some("d".to_string()), Some("r4".to_string())),
    ];
    let msgs = complete_messages(raw);
    assert_eq!(msgs.len(), 2);
    assert_eq!(msgs[0].receipt_handle, "r1");
    assert_eq!(msgs[1].body, "d");
}

#[test]
fn provider_section_selection() {
    let cfg = ProviderConfig {
        type_: "vault".to_string(),
        parameter_store: None,
    };
    assert!(matches!(parameter_store_settings(&cfg), Err(ProviderError::UnsupportedType(t)) if t == "vault"));
    let cfg = ProviderConfig { type_: "parameter_store".to_string(), parameter_store: None };
    assert!(matches!(parameter_store_settings(&cfg), Err(ProviderError::MissingParameterStoreConfig)));
    let cfg = ProviderConfig {
        type_: "parameter_store".to_string(),
        parameter_store: Some(ParameterStoreConfig { region: None, prefix: "/p".to_string(), decrypt: true }),
    };
    assert_eq!(parameter_store_settings(&cfg).ok().unwrap().prefix, "/p");
}

#[test]
fn provider_errors_read_as_before() {
    assert_eq!(
        ProviderError::UnsupportedType("vault".to_string()).message(),
        "unsupported provider type \"vault\"; supported types: [\"parameter_store\"]"
    );
    assert_eq!(
        ProviderError::MissingParameterStoreConfig.message(),
        "provider.parameter_store config section is required when provider.type = \"parameter_store\""
    );
    assert_eq!(ProviderError::Init("boom".to_string()).message(), "boom");
}

#[test]
fn unsupported_type_is_quoted_as_debug_quotes_it() {
    assert_eq!(
        ProviderError::UnsupportedType("va\"ult\\\n".to_string()).message(),
        "unsupported provider type \"va\\\"ult\\\\\\n\"; supported types: [\"parameter_store\"]"
    );
}
