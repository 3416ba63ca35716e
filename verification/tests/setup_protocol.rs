use watcher::aws::{
    DlqConfig, QueueAttribute, SetupCall, SetupConfig, SetupError, SetupReply, SetupRun, SetupStep,
};

fn cfg(dlq: bool) -> SetupConfig {
    SetupConfig {
        queue_name: "watcher-ssm-events".to_string(),
        event_bus_name: "default".to_string(),
        rule_name: "watcher-ssm-parameter-change".to_string(),
        prefix: "/myapp/prod".to_string(),
        visibility_timeout: 30,
        message_retention_seconds: 345_600,
        dlq: DlqConfig { enabled: dlq, queue_name: "watcher-ssm-events-dlq".to_string(), max_receive_count: 5 },
    }
}

fn call(step: SetupStep) -> SetupCall {
    match step {
        SetupStep::Call(c) => c,
        _ => panic!("expected a call"),
    }
}

#[test]
fn provisions_existing_queue_rule_policy_and_target() {
    let (mut run, first) = SetupRun::start(cfg(false));
    assert!(matches!(call(first), SetupCall::GetQueueUrl { queue_name } if queue_name == "watcher-ssm-events"));
    let c = call(run.advance(SetupReply::QueueUrl(Some("https://q".to_string()))));
    match c {
        SetupCall::SetQueueAttributes { queue_url, attributes } => {
            assert_eq!(queue_url, "https://q");
            assert_eq!(
                attributes,
                vec![
                    (QueueAttribute::VisibilityTimeout, "30".to_string()),
                    (QueueAttribute::MessageRetentionPeriod, "345600".to_string()),
                ]
            );
        }
        _ => panic!("expected attributes"),
    }
    assert!(matches!(call(run.advance(SetupReply::Done)), SetupCall::GetQueueArn { queue_url } if queue_url == "https://q"));
    match call(run.advance(SetupReply::QueueArn(Some("arn:q".to_string())))) {
        SetupCall::PutRule { rule_name, event_bus_name, event_pattern } => {
            assert_eq!(rule_name, "watcher-ssm-parameter-change");
            assert_eq!(event_bus_name, "default");
            assert!(event_pattern.contains("/myapp/prod"));
        }
        _ => panic!("expected the rule"),
    }
    match call(run.advance(SetupReply::RuleArn(Some("arn:rule".to_string())))) {
        SetupCall::SetQueueAttributes { queue_url, attributes } => {
            assert_eq!(queue_url, "https://q");
            assert_eq!(attributes.len(), 1);
            assert_eq!(attributes[0].0, QueueAttribute::Policy);
            assert!(attributes[0].1.contains("arn:rule"));
        }
        _ => panic!("expected the policy"),
    }
    match call(run.advance(SetupReply::Done)) {
        SetupCall::PutTarget { target_id, target_arn, .. } => {
            assert_eq!(target_id, "watcher-ssm-events");
            assert_eq!(target_arn, "arn:q");
        }
        _ => panic!("expected the target"),
    }
    match run.advance(SetupReply::Done) {
        SetupStep::Finished(r) => {
            assert_eq!(r.queue_url, "https://q");
            assert_eq!(r.queue_arn, "arn:q");
            assert_eq!(r.rule_arn, "arn:rule");
            assert!(r.dlq_url.is_none());
        }
        _ => panic!("expected the result"),
    }
    assert!(matches!(run.advance(SetupReply::Done), SetupStep::Failed(SetupError::UnexpectedReply)));
}

#[test]
fn creates_missing_queues_dead_letter_first() {
    let (mut run, first) = SetupRun::start(cfg(true));
    assert!(matches!(call(first), SetupCall::GetQueueUrl { queue_name } if queue_name == "watcher-ssm-events-dlq"));
    assert!(matches!(call(run.advance(SetupReply::QueueDoesNotExist)), SetupCall::CreateQueue { queue_name, .. } if queue_name == "watcher-ssm-events-dlq"));
    assert!(matches!(call(run.advance(SetupReply::Created(Some("https://dlq".to_string())))), SetupCall::GetQueueArn { .. }));
    assert!(matches!(call(run.advance(SetupReply::QueueArn(Some("arn:dlq".to_string())))), SetupCall::GetQueueUrl { queue_name } if queue_name == "watcher-ssm-events"));
    match call(run.advance(SetupReply::QueueDoesNotExist)) {
        SetupCall::CreateQueue { attributes, .. } => {
            assert_eq!(attributes.len(), 3);
            assert_eq!(attributes[2].0, QueueAttribute::RedrivePolicy);
            assert_eq!(attributes[2].1, "{\"deadLetterTargetArn\":\"arn:dlq\",\"maxReceiveCount\":5}");
        }
        _ => panic!("expected creation"),
    }
    call(run.advance(SetupReply::Created(Some("https://q".to_string()))));
    call(run.advance(SetupReply::QueueArn(Some("arn:q".to_string()))));
    call(run.advance(SetupReply::RuleArn(Some("arn:rule".to_string()))));
    call(run.advance(SetupReply::Done));
    match run.advance(SetupReply::Done) {
        SetupStep::Finished(r) => assert_eq!(r.dlq_url, Some("https://dlq".to_string())),
        _ => panic!("expected the result"),
    }
}

#[test]
fn stops_on_failure_or_missing_arn() {
    let (mut run, _) = SetupRun::start(cfg(false));
    assert!(matches!(run.advance(SetupReply::Failed("denied".to_string())), SetupStep::Failed(SetupError::Aws(m)) if m == "denied"));
    let (mut run, _) = SetupRun::start(cfg(false));
    call(run.advance(SetupReply::QueueUrl(Some("u".to_string()))));
    call(run.advance(SetupReply::Done));
    assert!(matches!(run.advance(SetupReply::QueueArn(None)), SetupStep::Failed(SetupError::MissingQueueArn(n)) if n == "watcher-ssm-events"));
}

/// Drives a run with the replies of a cloud in which each queue exists or
/// not; returns every call made and the result.
fn drive(dlq: bool, dlq_exists: bool, main_exists: bool) -> (Vec<String>, (String, String, String, Option<String>)) {
    let (mut run, first) = SetupRun::start(cfg(dlq));
    let mut calls = vec![describe(&call(first))];
    let mut replies: Vec<SetupReply> = Vec::new();
    let queue = |exists: bool, url: &str, arn: &str| -> Vec<SetupReply> {
        if exists {
            vec![SetupReply::QueueUrl(Some(url.to_string())), SetupReply::Done, SetupReply::QueueArn(Some(arn.to_string()))]
        } else {
            vec![SetupReply::QueueDoesNotExist, SetupReply::Created(Some(url.to_string())), SetupReply::QueueArn(Some(arn.to_string()))]
        }
    };
    if dlq {
        replies.extend(queue(dlq_exists, "https://dlq", "arn:dlq"));
    }
    replies.extend(queue(main_exists, "https://q", "arn:q"));
    replies.push(SetupReply::RuleArn(Some("arn:rule".to_string())));
    replies.push(SetupReply::Done);
    replies.push(SetupReply::Done);
    let n = replies.len();
    for (i, r) in replies.into_iter().enumerate() {
        match run.advance(r) {
            SetupStep::Call(c) => calls.push(describe(&c)),
            SetupStep::Finished(res) => {
                assert_eq!(i, n - 1);
                return (calls, (res.queue_url, res.queue_arn, res.rule_arn, res.dlq_url));
            }
            SetupStep::Failed(e) => panic!("failed: {e:?}"),
        }
    }
    panic!("no result")
}

fn describe(c: &SetupCall) -> String {
    match c {
        SetupCall::PutRule { rule_name, event_bus_name, event_pattern } => format!("rule {rule_name} {event_bus_name} {event_pattern}"),
        SetupCall::PutTarget { rule_name, event_bus_name, target_id, target_arn } => format!("target {rule_name} {event_bus_name} {target_id} {target_arn}"),
        SetupCall::SetQueueAttributes { queue_url, attributes } if attributes.iter().any(|a| a.0 == QueueAttribute::Policy) => format!("policy {queue_url} {:?}", attributes),
        _ => String::from("queue"),
    }
}

#[test]
fn rerunning_setup_gives_the_same_result() {
    for dlq in [false, true] {
        let (first_calls, first) = drive(dlq, false, false);
        let (second_calls, second) = drive(dlq, true, true);
        assert_eq!(first, second);
        assert_eq!(first_calls, second_calls);
        assert_eq!(first.3.is_some(), dlq);
        assert_eq!(first.0, "https://q");
        assert_eq!(first.2, "arn:rule");
    }
}
