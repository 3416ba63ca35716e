use watcher::config::OnChangeConfig;
use watcher::daemon::{
    acknowledge, parse_mode, pick_setting, plan_message, shared_with_others, MessageOutcome,
    MessagePlan,
    outcome_after_apply,
};
use watcher::provider::{ChangeEvent, EventError, Operation};
use watcher::trigger::{command_for, trigger_enabled, Debouncer, Phase, TriggerEvent};

fn cfg(command: &str) -> OnChangeConfig {
    let mut c = OnChangeConfig::default();
    c.command = command.to_string();
    c
}

#[test]
fn coalesces_a_burst_into_one_run() {
    let mut d = Debouncer::new();
    let first = d.step(TriggerEvent::Changed(vec!["/a".to_string()]));
    assert!(first.run.is_none());
    assert_eq!(first.next, Phase::Quiet);
    assert!(d.step(TriggerEvent::Changed(vec!["/c".to_string()])).run.is_none());
    assert!(d.step(TriggerEvent::Changed(vec!["/b".to_string(), "/a".to_string()])).run.is_none());
    let flush = d.step(TriggerEvent::Flush);
    assert!(flush.ack);
    assert_eq!(flush.next, Phase::Idle);
    let names = flush.run.unwrap();
    assert_eq!(names, vec!["/a".to_string(), "/b".to_string(), "/c".to_string()]);

    let spec = command_for(&cfg("printf x"), &names).unwrap();
    assert_eq!(spec.program, "sh");
    assert_eq!(spec.args, vec!["-c".to_string(), "printf x".to_string()]);
    assert!(spec.workdir.is_none());
    assert_eq!(
        spec.env,
        vec![
            ("WATCHER_CHANGED_PARAMS".to_string(), "/a,/b,/c".to_string()),
            ("WATCHER_CHANGED_COUNT".to_string(), "3".to_string()),
        ]
    );
    // nothing runs twice
    let again = d.step(TriggerEvent::QuietElapsed);
    assert!(again.run.is_none());
}

#[test]
fn empty_command_disables_trigger() {
    assert!(!trigger_enabled(&cfg("")));
    assert!(!trigger_enabled(&cfg("   ")));
    assert!(trigger_enabled(&cfg("true")));
}

#[test]
fn flush_runs_pending_then_acknowledges() {
    // a flush while a burst is pending runs it first, then acknowledges
    let mut d = Debouncer::new();
    d.step(TriggerEvent::Changed(vec!["/a".to_string()]));
    let flush = d.step(TriggerEvent::Flush);
    assert_eq!(flush.run, Some(vec!["/a".to_string()]));
    assert!(flush.ack);
    // an idle flush is acknowledged at once, with nothing to run
    let idle = d.step(TriggerEvent::Flush);
    assert!(idle.run.is_none());
    assert!(idle.ack);
}

#[test]
fn quiet_period_runs_pending_and_close_drops_it() {
    let mut d = Debouncer::new();
    d.step(TriggerEvent::Changed(vec!["/x".to_string()]));
    let quiet = d.step(TriggerEvent::QuietElapsed);
    assert_eq!(quiet.run, Some(vec!["/x".to_string()]));
    assert!(!quiet.ack);
    d.step(TriggerEvent::Changed(vec!["/y".to_string()]));
    let closed = d.step(TriggerEvent::Closed);
    assert!(closed.run.is_none());
    assert_eq!(closed.next, Phase::Stopped);
    assert_eq!(d.phase(), Phase::Stopped);
}

#[test]
fn empty_burst_runs_nothing() {
    let mut d = Debouncer::new();
    d.step(TriggerEvent::Changed(vec![]));
    assert!(d.step(TriggerEvent::QuietElapsed).run.is_none());
    assert!(command_for(&cfg("true"), &vec![]).is_none());
}

#[test]
fn command_uses_workdir_and_extra_env() {
    let mut c = cfg("make reload");
    c.workdir = "/srv".to_string();
    c.env = vec![("A".to_string(), "1".to_string())];
    let spec = command_for(&c, &vec!["/only".to_string()]).unwrap();
    assert_eq!(spec.workdir, Some("/srv".to_string()));
    assert_eq!(spec.env.len(), 3);
    assert_eq!(spec.env[1].1, "1");
    assert_eq!(spec.env[2], ("A".to_string(), "1".to_string()));
}

#[test]
fn deletes_message_only_after_successful_apply() {
    let ok = plan_message(Ok(vec![ChangeEvent { name: "/app/a".to_string(), operation: Operation::Updated }]));
    assert!(matches!(ok, MessagePlan::Apply(ref v) if v.len() == 1));
    assert!(acknowledge(MessageOutcome::Applied));
    assert!(!acknowledge(MessageOutcome::ApplyFailed));
    let bad = plan_message(Err(EventError::Malformed("bad".to_string())));
    assert!(matches!(bad, MessagePlan::Settle(MessageOutcome::Unparsable)));
    assert!(!acknowledge(MessageOutcome::Unparsable));
    let none = plan_message(Ok(vec![]));
    assert!(matches!(none, MessagePlan::Settle(MessageOutcome::Irrelevant)));
    assert!(acknowledge(MessageOutcome::Irrelevant));
}

#[test]
fn parses_octal_modes() {
    assert_eq!(parse_mode("0700").ok(), Some(0o700));
    assert_eq!(parse_mode("600").ok(), Some(0o600));
    assert_eq!(parse_mode("+17").ok(), Some(0o17));
    assert!(parse_mode("").is_err());
    assert!(parse_mode("+").is_err());
    assert!(parse_mode("-7").is_err());
    assert!(parse_mode("0800").is_err());
    assert!(parse_mode(" 700").is_err());
    assert_eq!(parse_mode("37777777777").ok(), Some(u32::MAX));
    assert!(parse_mode("40000000000").is_err());
    for s in ["0", "755", "0644", "+1", "9", "x", "777777777777"] {
        assert_eq!(parse_mode(s).ok(), u32::from_str_radix(s, 8).ok(), "{s}");
    }
}

#[test]
fn permissive_modes_are_detected() {
    assert!(!shared_with_others(0o700));
    assert!(shared_with_others(0o750));
    assert!(shared_with_others(0o701));
}

#[test]
fn flags_override_config() {
    assert_eq!(pick_setting(Some("debug".to_string()), &"info".to_string()), "debug");
    assert_eq!(pick_setting(None, &"info".to_string()), "info");
}

#[test]
fn a_message_is_acknowledged_only_once_handled() {
    // parsed with events: acknowledged exactly when applying them succeeded
    assert!(acknowledge(outcome_after_apply(true)));
    assert!(!acknowledge(outcome_after_apply(false)));
    assert_eq!(outcome_after_apply(true), MessageOutcome::Applied);
    assert_eq!(outcome_after_apply(false), MessageOutcome::ApplyFailed);
    // parsed with nothing relevant: acknowledged; unparsable: left alone
    match plan_message(Ok(vec![])) {
        MessagePlan::Settle(o) => assert!(acknowledge(o)),
        MessagePlan::Apply(_) => panic!("nothing to apply"),
    }
    match plan_message(Err(EventError::Malformed("x".to_string()))) {
        MessagePlan::Settle(o) => assert!(!acknowledge(o)),
        MessagePlan::Apply(_) => panic!("nothing to apply"),
    }
}
