//! The daemon's configuration, its defaults, and the checks that a
//! configuration must pass before `sync` or `setup` runs.
use vstd::prelude::*;

use crate::state::strictly_sorted;
use crate::text::{blank, debug_quoted, debug_text, is_blank, same_text, starts_with_char};

pub mod defaults;

verus! {

/// A length of time: whole seconds and the nanoseconds past them.
#[derive(Clone, Copy, Debug, PartialEq, Eq, Structural)]
pub struct TimeSpan {
    pub secs: u64,
    pub nanos: u32,
}

impl TimeSpan {
    /// The span in nanoseconds.
    pub open spec fn total_nanos(self) -> int {
        self.secs * 1_000_000_000 + self.nanos
    }

    /// A span of whole seconds.
    pub fn from_secs(secs: u64) -> (t: Self)
        ensures
            t.secs == secs,
            t.nanos == 0,
    {
        TimeSpan { secs, nanos: 0 }
    }

    /// A span of milliseconds.
    pub fn from_millis(ms: u64) -> (t: Self)
        ensures
            t.total_nanos() == ms * 1_000_000,
            t.nanos < 1_000_000_000,
    {
        let secs = ms / 1000;
        let rest = ms % 1000;
        let nanos = (rest as u32) * 1_000_000;
        TimeSpan { secs, nanos }
    }

    /// Whether this span is shorter than `other`.
    pub fn shorter_than(&self, other: &TimeSpan) -> (r: bool)
        ensures
            r == (self.total_nanos() < other.total_nanos()),
    {
        let a = self.nanos_u128();
        let b = other.nanos_u128();
        a < b
    }

    fn nanos_u128(&self) -> (n: u128)
        ensures
            n == self.total_nanos(),
    {
        let s: u128 = self.secs as u128;
        assert(s * 1_000_000_000 <= 18446744073709551615u128 * 1_000_000_000) by (nonlinear_arith)
            requires
                s <= 18446744073709551615u128,
        ;
        s * 1_000_000_000 + (self.nanos as u128)
    }
}

/// Which backend supplies the parameters.
#[derive(Clone, Debug)]
pub struct ProviderConfig {
    pub type_: String,
    pub parameter_store: Option<ParameterStoreConfig>,
}

/// The parameter store backend.
#[derive(Clone, Debug)]
pub struct ParameterStoreConfig {
    pub region: Option<String>,
    pub prefix: String,
    pub decrypt: bool,
}

/// Where parameter files go, and their permission modes (octal text).
#[derive(Clone, Debug)]
pub struct DestinationConfig {
    pub root: String,
    pub dir_perm: String,
    pub file_perm: String,
}

/// Where the state file lives.
#[derive(Clone, Debug)]
pub struct StateConfig {
    pub path: String,
}

/// How often a full sync runs.
#[derive(Clone, Debug)]
pub struct FullSyncConfig {
    pub interval: TimeSpan,
}

/// Event-driven sync from a message queue.
#[derive(Clone, Debug)]
pub struct EventSyncConfig {
    pub enabled: bool,
    pub queue_url: String,
    pub wait_time_seconds: i32,
    pub max_messages: i32,
    pub visibility_timeout: i32,
}

impl Default for EventSyncConfig {
    fn default() -> (c: Self)
        ensures
            !c.enabled,
            c.queue_url@ == Seq::<char>::empty(),
            c.wait_time_seconds == 20,
            c.max_messages == 10,
            c.visibility_timeout == 30,
    {
        EventSyncConfig {
            enabled: false,
            queue_url: String::new(),
            wait_time_seconds: defaults::wait_time_seconds(),
            max_messages: defaults::max_messages(),
            visibility_timeout: defaults::visibility_timeout(),
        }
    }
}

/// The command run after a real change.
#[derive(Clone, Debug)]
pub struct OnChangeConfig {
    pub command: String,
    pub workdir: String,
    /// Extra environment variables; as read from a configuration file they
    /// are in increasing key order, keys distinct (`env_in_key_order`).
    pub env: Vec<(String, String)>,
    pub timeout: TimeSpan,
    pub debounce: TimeSpan,
}

impl OnChangeConfig {
    /// The extra variables are in strictly increasing key order, so no key
    /// occurs twice (as in the key-sorted map a configuration file gives).
    pub open spec fn env_in_key_order(&self) -> bool {
        strictly_sorted(self.env@.map_values(|p: (String, String)| p.0@))
    }
}

impl Default for OnChangeConfig {
    fn default() -> (c: Self)
        ensures
            c.command@ == Seq::<char>::empty(),
            c.workdir@ == Seq::<char>::empty(),
            c.env@.len() == 0,
            c.env_in_key_order(),
            c.timeout == TimeSpan::from_secs_spec(30),
            c.debounce == TimeSpan::from_secs_spec(2),
    {
        OnChangeConfig {
            command: String::new(),
            workdir: String::new(),
            env: Vec::new(),
            timeout: defaults::on_change_timeout(),
            debounce: defaults::on_change_debounce(),
        }
    }
}

impl TimeSpan {
    /// A span of whole seconds.
    pub open spec fn from_secs_spec(secs: u64) -> TimeSpan {
        TimeSpan { secs, nanos: 0 }
    }
}

/// What `setup` provisions.
#[derive(Clone, Debug)]
pub struct SetupConfig {
    pub queue_name: String,
    pub event_bus_name: String,
    pub rule_name: String,
    pub visibility_timeout: i32,
    pub message_retention_seconds: i32,
    pub dlq: DlqConfig,
}

impl Default for SetupConfig {
    fn default() -> (c: Self)
        ensures
            c.queue_name@ == Seq::<char>::empty(),
            c.event_bus_name@ == "default"@,
            c.rule_name@ == Seq::<char>::empty(),
            c.visibility_timeout == 30,
            c.message_retention_seconds == 345_600,
            !c.dlq.enabled,
            c.dlq.queue_name@ == Seq::<char>::empty(),
            c.dlq.max_receive_count == 5,
    {
        SetupConfig {
            queue_name: String::new(),
            event_bus_name: defaults::setup_event_bus_name(),
            rule_name: String::new(),
            visibility_timeout: defaults::setup_visibility_timeout(),
            message_retention_seconds: defaults::setup_message_retention_seconds(),
            dlq: DlqConfig::default(),
        }
    }
}

/// The optional dead-letter queue.
#[derive(Clone, Debug)]
pub struct DlqConfig {
    pub enabled: bool,
    pub queue_name: String,
    pub max_receive_count: i32,
}

impl Default for DlqConfig {
    fn default() -> (c: Self)
        ensures
            !c.enabled,
            c.queue_name@ == Seq::<char>::empty(),
            c.max_receive_count == 5,
    {
        DlqConfig { enabled: false, queue_name: String::new(), max_receive_count: defaults::dlq_max_receive_count() }
    }
}

/// Logging level and format.
#[derive(Clone, Debug)]
pub struct LogConfig {
    pub level: String,
    pub format: String,
}

impl Default for LogConfig {
    fn default() -> (c: Self)
        ensures
            c.level@ == "info"@,
            c.format@ == "text"@,
    {
        LogConfig { level: defaults::log_level(), format: defaults::log_format() }
    }
}

/// The whole configuration.
#[derive(Clone, Debug)]
pub struct Config {
    pub provider: ProviderConfig,
    pub destination: DestinationConfig,
    pub state: StateConfig,
    pub full_sync: FullSyncConfig,
    pub event_sync: EventSyncConfig,
    pub on_change: OnChangeConfig,
    pub setup: SetupConfig,
    pub log: LogConfig,
}

/// Why a configuration is rejected.
#[derive(Debug)]
pub enum ConfigError {
    UnsupportedProviderType(String),
    MissingParameterStoreSection,
    InvalidPrefix,
    InvalidDestinationRoot,
    IntervalTooShort,
    MissingQueueUrl,
    MissingSetupQueueName,
    MissingSetupRuleName,
    MissingRegionForSetup,
}

/// A configuration problem, over views.
pub enum ConfigIssue {
    UnsupportedProviderType(Seq<char>),
    MissingParameterStoreSection,
    InvalidPrefix,
    InvalidDestinationRoot,
    IntervalTooShort,
    MissingQueueUrl,
    MissingSetupQueueName,
    MissingSetupRuleName,
    MissingRegionForSetup,
}

impl View for ConfigError {
    type V = ConfigIssue;

    open spec fn view(&self) -> ConfigIssue {
        match self {
            ConfigError::UnsupportedProviderType(t) => ConfigIssue::UnsupportedProviderType(t@),
            ConfigError::MissingParameterStoreSection => ConfigIssue::MissingParameterStoreSection,
            ConfigError::InvalidPrefix => ConfigIssue::InvalidPrefix,
            ConfigError::InvalidDestinationRoot => ConfigIssue::InvalidDestinationRoot,
            ConfigError::IntervalTooShort => ConfigIssue::IntervalTooShort,
            ConfigError::MissingQueueUrl => ConfigIssue::MissingQueueUrl,
            ConfigError::MissingSetupQueueName => ConfigIssue::MissingSetupQueueName,
            ConfigError::MissingSetupRuleName => ConfigIssue::MissingSetupRuleName,
            ConfigError::MissingRegionForSetup => ConfigIssue::MissingRegionForSetup,
        }
    }
}

/// The only supported provider type.
pub open spec fn parameter_store_type() -> Seq<char> {
    "parameter_store"@
}

/// A text that starts with '/': an absolute prefix, or on Unix an absolute path.
pub open spec fn rooted(s: Seq<char>) -> bool {
    s.len() > 0 && s[0] == '/'
}

/// The shortest full-sync interval accepted: 30 seconds.
pub open spec fn min_interval_nanos() -> int {
    30_000_000_000
}

/// The first problem `validate` finds, checked in this order.
pub open spec fn sync_issue(cfg: Config) -> Option<ConfigIssue> {
    if cfg.provider.type_@ != parameter_store_type() {
        Some(ConfigIssue::UnsupportedProviderType(cfg.provider.type_@))
    } else if cfg.provider.parameter_store is None {
        Some(ConfigIssue::MissingParameterStoreSection)
    } else if !rooted(cfg.provider.parameter_store->0.prefix@) {
        Some(ConfigIssue::InvalidPrefix)
    } else if !rooted(cfg.destination.root@) {
        Some(ConfigIssue::InvalidDestinationRoot)
    } else if cfg.full_sync.interval.total_nanos() < min_interval_nanos() {
        Some(ConfigIssue::IntervalTooShort)
    } else if cfg.event_sync.enabled && is_blank(cfg.event_sync.queue_url@) {
        Some(ConfigIssue::MissingQueueUrl)
    } else {
        None
    }
}

/// The region, or the empty text when there is none.
pub open spec fn region_text(r: Option<String>) -> Seq<char> {
    match r {
        Some(s) => s@,
        None => Seq::empty(),
    }
}

/// The first problem `validate_for_setup` finds, checked in this order.
pub open spec fn setup_issue(cfg: Config) -> Option<ConfigIssue> {
    if cfg.provider.type_@ != parameter_store_type() {
        Some(ConfigIssue::UnsupportedProviderType(cfg.provider.type_@))
    } else if cfg.provider.parameter_store is None {
        Some(ConfigIssue::MissingParameterStoreSection)
    } else if !rooted(cfg.provider.parameter_store->0.prefix@) {
        Some(ConfigIssue::InvalidPrefix)
    } else if is_blank(region_text(cfg.provider.parameter_store->0.region)) {
        Some(ConfigIssue::MissingRegionForSetup)
    } else if is_blank(cfg.setup.queue_name@) {
        Some(ConfigIssue::MissingSetupQueueName)
    } else if is_blank(cfg.setup.rule_name@) {
        Some(ConfigIssue::MissingSetupRuleName)
    } else {
        None
    }
}

/// The provider section's problem, common to both checks.
fn check_provider(cfg: &Config) -> (r: Result<(), ConfigError>)
    ensures
        match r {
            Ok(()) => {
                &&& cfg.provider.type_@ == parameter_store_type()
                &&& cfg.provider.parameter_store is Some
                &&& rooted(cfg.provider.parameter_store->0.prefix@)
            },
            Err(e) => {
                &&& e@ == sync_issue(*cfg)->0
                &&& e@ == setup_issue(*cfg)->0
                &&& sync_issue(*cfg) is Some
                &&& setup_issue(*cfg) is Some
            },
        },
{
    if !same_text(cfg.provider.type_.as_str(), "parameter_store") {
        return Err(ConfigError::UnsupportedProviderType(crate::text::copy_string(&cfg.provider.type_)));
    }
    match &cfg.provider.parameter_store {
        None => Err(ConfigError::MissingParameterStoreSection),
        Some(ps) => {
            if !starts_with_char(ps.prefix.as_str(), '/') {
                Err(ConfigError::InvalidPrefix)
            } else {
                Ok(())
            }
        },
    }
}

/// Checks a configuration for running the sync daemon.
pub fn validate(cfg: &Config) -> (r: Result<(), ConfigError>)
    ensures
        r is Ok <==> sync_issue(*cfg) is None,
        r matches Err(e) ==> sync_issue(*cfg) == Some(e@),
{
    match check_provider(cfg) {
        Err(e) => {
            return Err(e);
        },
        Ok(()) => {},
    }
    if !starts_with_char(cfg.destination.root.as_str(), '/') {
        return Err(ConfigError::InvalidDestinationRoot);
    }
    if cfg.full_sync.interval.shorter_than(&TimeSpan::from_secs(30)) {
        return Err(ConfigError::IntervalTooShort);
    }
    if cfg.event_sync.enabled && blank(cfg.event_sync.queue_url.as_str()) {
        return Err(ConfigError::MissingQueueUrl);
    }
    Ok(())
}

/// Checks a configuration for running `setup`. Deliberately independent of
/// `validate`: the queue URL does not exist yet at setup time (setup is what
/// creates it).
pub fn validate_for_setup(cfg: &Config) -> (r: Result<(), ConfigError>)
    ensures
        r is Ok <==> setup_issue(*cfg) is None,
        r matches Err(e) ==> setup_issue(*cfg) == Some(e@),
{
    match check_provider(cfg) {
        Err(e) => {
            return Err(e);
        },
        Ok(()) => {},
    }
    let region_blank = match &cfg.provider.parameter_store {
        Some(ps) => match &ps.region {
            Some(r) => blank(r.as_str()),
            None => true,
        },
        None => true,
    };
    if region_blank {
        return Err(ConfigError::MissingRegionForSetup);
    }
    if blank(cfg.setup.queue_name.as_str()) {
        return Err(ConfigError::MissingSetupQueueName);
    }
    if blank(cfg.setup.rule_name.as_str()) {
        return Err(ConfigError::MissingSetupRuleName);
    }
    Ok(())
}

/// Setup validation does not look at event-driven sync: replacing the whole
/// `event_sync` section never changes its verdict.
pub proof fn law_setup_ignores_event_sync(cfg: Config, other: EventSyncConfig)
    ensures
        setup_issue(Config { event_sync: other, ..cfg }) == setup_issue(cfg),
{
}

impl ConfigError {
    /// A readable description of the problem.
    pub fn message(&self) -> (s: String)
        ensures
            s@ == match self {
                ConfigError::UnsupportedProviderType(t) => "unsupported provider.type "@ + debug_quoted(t@)
                    + "; supported types: [\"parameter_store\"]"@,
                ConfigError::MissingParameterStoreSection => "provider.parameter_store section is required when provider.type = \"parameter_store\""@,
                ConfigError::InvalidPrefix => "provider.parameter_store.prefix is required and must start with \"/\""@,
                ConfigError::InvalidDestinationRoot => "destination.root is required and must be an absolute path"@,
                ConfigError::IntervalTooShort => "full_sync.interval must be at least 30s"@,
                ConfigError::MissingQueueUrl => "event_sync.queue_url is required when event_sync.enabled = true"@,
                ConfigError::MissingSetupQueueName => "setup.queue_name is required"@,
                ConfigError::MissingSetupRuleName => "setup.rule_name is required"@,
                ConfigError::MissingRegionForSetup => "provider.parameter_store.region is required for `watcher setup`"@,
            },
    {
        match self {
            ConfigError::UnsupportedProviderType(t) => {
                let mut s = String::from_str("unsupported provider.type ");
                let q = debug_text(t.as_str());
                s.append(q.as_str());
                s.append("; supported types: [\"parameter_store\"]");
                s
            },
            ConfigError::MissingParameterStoreSection => String::from_str(
                "provider.parameter_store section is required when provider.type = \"parameter_store\"",
            ),
            ConfigError::InvalidPrefix => String::from_str(
                "provider.parameter_store.prefix is required and must start with \"/\"",
            ),
            ConfigError::InvalidDestinationRoot => String::from_str(
                "destination.root is required and must be an absolute path",
            ),
            ConfigError::IntervalTooShort => String::from_str("full_sync.interval must be at least 30s"),
            ConfigError::MissingQueueUrl => String::from_str(
                "event_sync.queue_url is required when event_sync.enabled = true",
            ),
            ConfigError::MissingSetupQueueName => String::from_str("setup.queue_name is required"),
            ConfigError::MissingSetupRuleName => String::from_str("setup.rule_name is required"),
            ConfigError::MissingRegionForSetup => String::from_str(
                "provider.parameter_store.region is required for `watcher setup`",
            ),
        }
    }
}

} // verus!
