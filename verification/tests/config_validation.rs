use watcher::config::defaults;
use watcher::config::{
    validate, validate_for_setup, Config, ConfigError, DestinationConfig, DlqConfig, EventSyncConfig,
    FullSyncConfig, LogConfig, OnChangeConfig, ParameterStoreConfig, ProviderConfig, SetupConfig,
    StateConfig, TimeSpan,
};

/// The minimal configuration: provider, prefix, destination, state, interval.
fn minimal() -> Config {
    Config {
        provider: ProviderConfig {
            type_: "parameter_store".to_string(),
            parameter_store: Some(ParameterStoreConfig {
                region: None,
                prefix: "/myapp/prod".to_string(),
                decrypt: defaults::decrypt(),
            }),
        },
        destination: DestinationConfig {
            root: "/var/lib/watcher/params".to_string(),
            dir_perm: defaults::dir_perm(),
            file_perm: defaults::file_perm(),
        },
        state: StateConfig { path: "/var/lib/watcher/state.json".to_string() },
        full_sync: FullSyncConfig { interval: TimeSpan::from_secs(300) },
        event_sync: EventSyncConfig::default(),
        on_change: OnChangeConfig::default(),
        setup: SetupConfig::default(),
        log: LogConfig::default(),
    }
}

fn with_region(mut cfg: Config) -> Config {
    if let Some(ps) = cfg.provider.parameter_store.as_mut() {
        ps.region = Some("us-east-1".to_string());
    }
    cfg
}

fn with_setup_names(mut cfg: Config) -> Config {
    cfg.setup.queue_name = "q".to_string();
    cfg.setup.rule_name = "r".to_string();
    cfg
}

#[test]
fn example_config_parses_and_setup_validates() {
    // The example template: event sync enabled, queue URL left blank for
    // `setup` to fill in, region and setup names present.
    let mut cfg = with_setup_names(with_region(minimal()));
    cfg.event_sync.enabled = true;
    cfg.event_sync.queue_url = String::new();
    assert!(matches!(validate(&cfg), Err(ConfigError::MissingQueueUrl)));
    assert!(validate_for_setup(&cfg).is_ok());
}

#[test]
fn loads_minimal_config_with_defaults() {
    let cfg = minimal();
    assert_eq!(cfg.provider.type_, "parameter_store");
    assert!(cfg.provider.parameter_store.as_ref().unwrap().decrypt);
    assert_eq!(cfg.destination.dir_perm, "0700");
    assert_eq!(cfg.destination.file_perm, "0600");
    assert!(!cfg.event_sync.enabled);
    assert_eq!(cfg.event_sync.wait_time_seconds, 20);
    assert_eq!(cfg.on_change.timeout, TimeSpan::from_secs(30));
    assert_eq!(cfg.on_change.debounce, TimeSpan::from_secs(2));
    assert_eq!(cfg.log.level, "info");
    assert_eq!(cfg.setup.event_bus_name, "default");
    assert!(validate(&cfg).is_ok());
}

#[test]
fn rejects_unsupported_provider_type() {
    let mut cfg = minimal();
    cfg.provider.type_ = "vault".to_string();
    match validate(&cfg) {
        Err(ConfigError::UnsupportedProviderType(t)) => assert_eq!(t, "vault"),
        _ => panic!("expected UnsupportedProviderType"),
    }
}

#[test]
fn rejects_relative_prefix() {
    let mut cfg = minimal();
    cfg.provider.parameter_store.as_mut().unwrap().prefix = "myapp/prod".to_string();
    assert!(matches!(validate(&cfg), Err(ConfigError::InvalidPrefix)));
}

#[test]
fn rejects_relative_destination_root() {
    let mut cfg = minimal();
    cfg.destination.root = "relative/params".to_string();
    assert!(matches!(validate(&cfg), Err(ConfigError::InvalidDestinationRoot)));
}

#[test]
fn rejects_short_full_sync_interval() {
    let mut cfg = minimal();
    cfg.full_sync.interval = TimeSpan::from_secs(10);
    assert!(matches!(validate(&cfg), Err(ConfigError::IntervalTooShort)));
}

#[test]
fn rejects_event_sync_enabled_without_queue_url() {
    let mut cfg = minimal();
    cfg.event_sync.enabled = true;
    assert!(matches!(validate(&cfg), Err(ConfigError::MissingQueueUrl)));
}

#[test]
fn validate_for_setup_requires_region_and_names() {
    let cfg = minimal();
    assert!(matches!(validate_for_setup(&cfg), Err(ConfigError::MissingRegionForSetup)));

    let cfg = with_region(minimal());
    assert!(matches!(validate_for_setup(&cfg), Err(ConfigError::MissingSetupQueueName)));

    let cfg = with_setup_names(with_region(minimal()));
    assert!(validate_for_setup(&cfg).is_ok());
}

#[test]
fn validate_for_setup_does_not_require_queue_url() {
    let cfg = with_setup_names(with_region(minimal()));
    assert!(validate_for_setup(&cfg).is_ok());
}

#[test]
fn missing_parameter_store_section_is_rejected_by_both_checks() {
    let mut cfg = minimal();
    cfg.provider.parameter_store = None;
    assert!(matches!(validate(&cfg), Err(ConfigError::MissingParameterStoreSection)));
    assert!(matches!(validate_for_setup(&cfg), Err(ConfigError::MissingParameterStoreSection)));
}

#[test]
fn interval_of_exactly_thirty_seconds_is_accepted() {
    let mut cfg = minimal();
    cfg.full_sync.interval = TimeSpan::from_secs(30);
    assert!(validate(&cfg).is_ok());
    cfg.full_sync.interval = TimeSpan { secs: 29, nanos: 999_999_999 };
    assert!(matches!(validate(&cfg), Err(ConfigError::IntervalTooShort)));
}

#[test]
fn whitespace_only_queue_url_counts_as_missing() {
    let mut cfg = minimal();
    cfg.event_sync.enabled = true;
    cfg.event_sync.queue_url = " \t\u{3000}".to_string();
    assert!(matches!(validate(&cfg), Err(ConfigError::MissingQueueUrl)));
    cfg.event_sync.queue_url = "https://sqs.example/q".to_string();
    assert!(validate(&cfg).is_ok());
}

#[test]
fn blank_rule_name_is_rejected_for_setup() {
    let mut cfg = with_setup_names(with_region(minimal()));
    cfg.setup.rule_name = "  ".to_string();
    assert!(matches!(validate_for_setup(&cfg), Err(ConfigError::MissingSetupRuleName)));
}

#[test]
fn setup_verdict_ignores_event_sync_section() {
    let mut cfg = with_setup_names(with_region(minimal()));
    let before = validate_for_setup(&cfg).is_ok();
    cfg.event_sync.enabled = true;
    cfg.event_sync.queue_url = String::new();
    assert_eq!(validate_for_setup(&cfg).is_ok(), before);
}

#[test]
fn defaults_have_documented_values() {
    assert_eq!(defaults::max_messages(), 10);
    assert_eq!(defaults::visibility_timeout(), 30);
    assert_eq!(defaults::setup_visibility_timeout(), 30);
    assert_eq!(defaults::setup_message_retention_seconds(), 345_600);
    assert_eq!(defaults::dlq_max_receive_count(), 5);
    assert_eq!(defaults::log_format(), "text");
    let dlq = DlqConfig::default();
    assert!(!dlq.enabled);
    assert_eq!(dlq.max_receive_count, 5);
    assert_eq!(TimeSpan::from_millis(2500), TimeSpan { secs: 2, nanos: 500_000_000 });
    assert!(ConfigError::IntervalTooShort.message().contains("30s"));
}

#[test]
fn setup_settings_come_from_the_setup_section_and_prefix() {
    let mut cfg = with_setup_names(with_region(minimal()));
    cfg.setup.dlq.enabled = true;
    cfg.setup.dlq.queue_name = "q-dlq".to_string();
    let s = watcher::aws::setup_config_from(&cfg);
    assert_eq!(s.queue_name, "q");
    assert_eq!(s.rule_name, "r");
    assert_eq!(s.event_bus_name, "default");
    assert_eq!(s.prefix, "/myapp/prod");
    assert_eq!(s.visibility_timeout, 30);
    assert_eq!(s.message_retention_seconds, 345_600);
    assert!(s.dlq.enabled);
    assert_eq!(s.dlq.queue_name, "q-dlq");
    assert_eq!(s.dlq.max_receive_count, 5);
}

#[test]
fn config_error_quotes_the_type_as_debug_does() {
    let t = "x\"y\t".to_string();
    assert_eq!(
        ConfigError::UnsupportedProviderType(t.clone()).message(),
        format!("unsupported provider.type {:?}; supported types: [\"parameter_store\"]", t)
    );
    assert_eq!(
        ConfigError::UnsupportedProviderType("vault".to_string()).message(),
        "unsupported provider.type \"vault\"; supported types: [\"parameter_store\"]"
    );
}
