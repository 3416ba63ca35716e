//! The cloud side of event-driven sync: receiving queue messages, and the
//! provisioning protocol of `setup` (a queue, an optional dead-letter queue,
//! an event rule filtered to the prefix, the queue policy, and the rule's
//! target). Every provisioning step upserts the desired state, so it is
//! safe to re-run; the caller performs each call and reports the reply.
use vstd::prelude::*;

use crate::config::Config;
use crate::json::{build_event_pattern, build_queue_policy, build_redrive_policy,
    event_pattern_json, queue_policy_json, redrive_policy_json};
use crate::text::{copy_string, integer_text, signed_decimal};

verus! {

/// One received queue message.
#[derive(Clone, Debug)]
pub struct Message {
    pub body: String,
    pub receipt_handle: String,
}

/// The views of optional texts.
pub open spec fn opt_view(o: Option<String>) -> Option<Seq<char>> {
    match o {
        Some(s) => Some(s@),
        None => None,
    }
}

/// The received messages that have both a body and a receipt handle, in order.
pub open spec fn complete_raw(raw: Seq<(Option<String>, Option<String>)>) -> Seq<(Seq<char>, Seq<char>)>
    decreases raw.len(),
{
    if raw.len() == 0 {
        Seq::empty()
    } else {
        let rest = complete_raw(raw.drop_last());
        match (raw.last().0, raw.last().1) {
            (Some(b), Some(h)) => rest.push((b@, h@)),
            _ => rest,
        }
    }
}

/// The views of messages.
pub open spec fn messages_view(v: Seq<Message>) -> Seq<(Seq<char>, Seq<char>)> {
    v.map_values(|m: Message| (m.body@, m.receipt_handle@))
}

/// Keeps the received messages that have both a body and a receipt handle;
/// the others cannot be processed or acknowledged.
pub fn complete_messages(raw: Vec<(Option<String>, Option<String>)>) -> (r: Vec<Message>)
    ensures
        messages_view(r@) == complete_raw(raw@),
{
    let mut r: Vec<Message> = Vec::new();
    let mut i: usize = 0;
    while i < raw.len()
        invariant
            i <= raw@.len(),
            messages_view(r@) == complete_raw(raw@.take(i as int)),
        decreases raw.len() - i,
    {
        proof {
            assert(raw@.take(i + 1).drop_last() =~= raw@.take(i as int));
            assert(raw@.take(i + 1).last() == raw@[i as int]);
        }
        match (&raw[i].0, &raw[i].1) {
            (Some(b), Some(h)) => {
                let ghost before = r@;
                r.push(Message { body: copy_string(b), receipt_handle: copy_string(h) });
                assert(messages_view(r@) =~= messages_view(before).push((b@, h@)));
            },
            _ => {},
        }
        i = i + 1;
    }
    assert(raw@.take(raw@.len() as int) =~= raw@);
    r
}

/// The optional dead-letter queue to provision.
#[derive(Clone, Debug)]
pub struct DlqConfig {
    pub enabled: bool,
    pub queue_name: String,
    pub max_receive_count: i32,
}

/// What `setup` provisions.
#[derive(Clone, Debug)]
pub struct SetupConfig {
    pub queue_name: String,
    pub event_bus_name: String,
    pub rule_name: String,
    pub prefix: String,
    pub visibility_timeout: i32,
    pub message_retention_seconds: i32,
    pub dlq: DlqConfig,
}

/// What `setup` provisioned.
#[derive(Clone, Debug)]
pub struct SetupResult {
    pub queue_url: String,
    pub queue_arn: String,
    pub rule_arn: String,
    pub dlq_url: Option<String>,
}

/// What `setup` provisions for a configuration: its setup section, with the
/// rule filtered to the parameter store prefix. Needs the parameter store
/// section, which `validate_for_setup` checks.
pub fn setup_config_from(cfg: &Config) -> (r: SetupConfig)
    requires
        cfg.provider.parameter_store is Some,
    ensures
        r.queue_name@ == cfg.setup.queue_name@,
        r.event_bus_name@ == cfg.setup.event_bus_name@,
        r.rule_name@ == cfg.setup.rule_name@,
        r.prefix@ == cfg.provider.parameter_store->0.prefix@,
        r.visibility_timeout == cfg.setup.visibility_timeout,
        r.message_retention_seconds == cfg.setup.message_retention_seconds,
        r.dlq.enabled == cfg.setup.dlq.enabled,
        r.dlq.queue_name@ == cfg.setup.dlq.queue_name@,
        r.dlq.max_receive_count == cfg.setup.dlq.max_receive_count,
{
    let prefix = match &cfg.provider.parameter_store {
        Some(ps) => copy_string(&ps.prefix),
        None => String::new(),
    };
    SetupConfig {
        queue_name: copy_string(&cfg.setup.queue_name),
        event_bus_name: copy_string(&cfg.setup.event_bus_name),
        rule_name: copy_string(&cfg.setup.rule_name),
        prefix,
        visibility_timeout: cfg.setup.visibility_timeout,
        message_retention_seconds: cfg.setup.message_retention_seconds,
        dlq: DlqConfig {
            enabled: cfg.setup.dlq.enabled,
            queue_name: copy_string(&cfg.setup.dlq.queue_name),
            max_receive_count: cfg.setup.dlq.max_receive_count,
        },
    }
}

/// A queue attribute that setup sets.
#[derive(Clone, Copy, Debug, PartialEq, Eq, Structural)]
pub enum QueueAttribute {
    VisibilityTimeout,
    MessageRetentionPeriod,
    RedrivePolicy,
    Policy,
}

/// Which queue a provisioning step is about.
#[derive(Clone, Copy, Debug, PartialEq, Eq, Structural)]
pub enum Role {
    DeadLetter,
    Main,
}

/// A call to make.
pub enum SetupCall {
    /// Look the queue up by name.
    GetQueueUrl { queue_name: String },
    /// Set attributes of an existing queue.
    SetQueueAttributes { queue_url: String, attributes: Vec<(QueueAttribute, String)> },
    /// Create the queue with these attributes.
    CreateQueue { queue_name: String, attributes: Vec<(QueueAttribute, String)> },
    /// Read the queue's ARN attribute.
    GetQueueArn { queue_url: String },
    /// Create or update the rule, enabled, with this event pattern.
    PutRule { rule_name: String, event_bus_name: String, event_pattern: String },
    /// Create or update the rule's target (id and ARN).
    PutTarget { rule_name: String, event_bus_name: String, target_id: String, target_arn: String },
}

/// The reply to the last call.
pub enum SetupReply {
    /// The queue exists; its URL, if the service gave one.
    QueueUrl(Option<String>),
    /// The lookup failed because the queue does not exist.
    QueueDoesNotExist,
    /// The queue was created; its URL, if the service gave one.
    Created(Option<String>),
    /// The queue's ARN attribute, if present.
    QueueArn(Option<String>),
    /// The rule's ARN, if the service gave one.
    RuleArn(Option<String>),
    /// The call succeeded.
    Done,
    /// The call failed.
    Failed(String),
}

/// Why provisioning stopped.
#[derive(Debug)]
pub enum SetupError {
    /// A call failed.
    Aws(String),
    /// The queue with this name reported no ARN.
    MissingQueueArn(String),
    /// The rule call returned no ARN.
    MissingRuleArn,
    /// A reply did not fit the call that was made.
    UnexpectedReply,
    /// A policy document could not be built.
    Json,
}

/// What to do next.
pub enum SetupStep {
    Call(SetupCall),
    Finished(SetupResult),
    Failed(SetupError),
}

/// Where provisioning stands: the call whose reply is awaited.
#[derive(Clone, Copy, Debug, PartialEq, Eq, Structural)]
pub enum Stage {
    LookUp(Role),
    Configure(Role),
    Create(Role),
    ReadArn(Role),
    Rule,
    Policy,
    Target,
    Over,
}

/// A call, over views.
pub enum CallView {
    GetQueueUrl(Seq<char>),
    SetQueueAttributes(Seq<char>, Seq<(QueueAttribute, Seq<char>)>),
    CreateQueue(Seq<char>, Seq<(QueueAttribute, Seq<char>)>),
    GetQueueArn(Seq<char>),
    PutRule(Seq<char>, Seq<char>, Seq<char>),
    PutTarget(Seq<char>, Seq<char>, Seq<char>, Seq<char>),
}

/// A provisioning problem, over views.
pub enum SetupIssue {
    Aws(Seq<char>),
    MissingQueueArn(Seq<char>),
    MissingRuleArn,
    UnexpectedReply,
    Json,
}

/// A step, over views.
pub enum StepView {
    Call(CallView),
    /// Queue URL, queue ARN, rule ARN, dead-letter queue URL.
    Finished(Seq<char>, Seq<char>, Seq<char>, Option<Seq<char>>),
    Failed(SetupIssue),
}

/// A reply, over views.
pub enum ReplyView {
    QueueUrl(Option<Seq<char>>),
    QueueDoesNotExist,
    Created(Option<Seq<char>>),
    QueueArn(Option<Seq<char>>),
    RuleArn(Option<Seq<char>>),
    Done,
    Failed(Seq<char>),
}

/// The state of a provisioning run, over views.
pub struct SetupView {
    pub stage: Stage,
    /// The URL of the queue being ensured.
    pub url: Seq<char>,
    /// The dead-letter queue's (ARN, URL), once known.
    pub dlq: Option<(Seq<char>, Seq<char>)>,
    /// The main queue's (ARN, URL), once known.
    pub main: Option<(Seq<char>, Seq<char>)>,
    pub rule_arn: Seq<char>,
}

pub open spec fn attrs_view(v: Seq<(QueueAttribute, String)>) -> Seq<(QueueAttribute, Seq<char>)> {
    v.map_values(|a: (QueueAttribute, String)| (a.0, a.1@))
}

pub open spec fn call_view(c: SetupCall) -> CallView {
    match c {
        SetupCall::GetQueueUrl { queue_name } => CallView::GetQueueUrl(queue_name@),
        SetupCall::SetQueueAttributes { queue_url, attributes } => CallView::SetQueueAttributes(queue_url@, attrs_view(attributes@)),
        SetupCall::CreateQueue { queue_name, attributes } => CallView::CreateQueue(queue_name@, attrs_view(attributes@)),
        SetupCall::GetQueueArn { queue_url } => CallView::GetQueueArn(queue_url@),
        SetupCall::PutRule { rule_name, event_bus_name, event_pattern } => CallView::PutRule(rule_name@, event_bus_name@, event_pattern@),
        SetupCall::PutTarget { rule_name, event_bus_name, target_id, target_arn } => CallView::PutTarget(rule_name@, event_bus_name@, target_id@, target_arn@),
    }
}

pub open spec fn error_view(e: SetupError) -> SetupIssue {
    match e {
        SetupError::Aws(m) => SetupIssue::Aws(m@),
        SetupError::MissingQueueArn(n) => SetupIssue::MissingQueueArn(n@),
        SetupError::MissingRuleArn => SetupIssue::MissingRuleArn,
        SetupError::UnexpectedReply => SetupIssue::UnexpectedReply,
        SetupError::Json => SetupIssue::Json,
    }
}

pub open spec fn step_view(s: SetupStep) -> StepView {
    match s {
        SetupStep::Call(c) => StepView::Call(call_view(c)),
        SetupStep::Finished(r) => StepView::Finished(r.queue_url@, r.queue_arn@, r.rule_arn@, opt_view(r.dlq_url)),
        SetupStep::Failed(e) => StepView::Failed(error_view(e)),
    }
}

pub open spec fn reply_view(r: SetupReply) -> ReplyView {
    match r {
        SetupReply::QueueUrl(u) => ReplyView::QueueUrl(opt_view(u)),
        SetupReply::QueueDoesNotExist => ReplyView::QueueDoesNotExist,
        SetupReply::Created(u) => ReplyView::Created(opt_view(u)),
        SetupReply::QueueArn(a) => ReplyView::QueueArn(opt_view(a)),
        SetupReply::RuleArn(a) => ReplyView::RuleArn(opt_view(a)),
        SetupReply::Done => ReplyView::Done,
        SetupReply::Failed(m) => ReplyView::Failed(m@),
    }
}

/// The name of the queue a role is about.
pub open spec fn role_queue_name(cfg: SetupConfig, role: Role) -> Seq<char> {
    match role {
        Role::DeadLetter => cfg.dlq.queue_name@,
        Role::Main => cfg.queue_name@,
    }
}

/// The attributes a queue is ensured to have: visibility timeout and
/// message retention, and for the main queue, when a dead-letter queue was
/// provisioned, the redrive policy towards it.
pub open spec fn role_attributes(
    cfg: SetupConfig,
    role: Role,
    dlq: Option<(Seq<char>, Seq<char>)>,
) -> Seq<(QueueAttribute, Seq<char>)> {
    let base = seq![
        (QueueAttribute::VisibilityTimeout, signed_decimal(cfg.visibility_timeout as int)),
        (QueueAttribute::MessageRetentionPeriod, signed_decimal(cfg.message_retention_seconds as int)),
    ];
    match (role, dlq) {
        (Role::Main, Some((arn, _))) => base.push((QueueAttribute::RedrivePolicy, redrive_policy_json(arn, cfg.dlq.max_receive_count))),
        _ => base,
    }
}

/// The text of an optional reply value, empty when absent.
pub open spec fn text_or_empty(o: Option<Seq<char>>) -> Seq<char> {
    match o {
        Some(s) => s,
        None => Seq::empty(),
    }
}

/// The provisioning protocol: from a state and the reply to its pending
/// call, the next state and step. Queues are ensured dead-letter queue first
/// (when enabled): look up; if it exists, set its attributes, else create it
/// with them; then read its ARN. Then the rule is put (filtered to the
/// prefix), the queue policy scoped to that rule is set, and the target is
/// put. Any failed call, or a missing ARN, stops the run.
pub open spec fn setup_next(cfg: SetupConfig, s: SetupView, r: ReplyView) -> (SetupView, StepView) {
    let fail = |i: SetupIssue| (SetupView { stage: Stage::Over, ..s }, StepView::Failed(i));
    match (s.stage, r) {
        (_, ReplyView::Failed(m)) => if s.stage == Stage::Over {
            (s, StepView::Failed(SetupIssue::UnexpectedReply))
        } else {
            fail(SetupIssue::Aws(m))
        },
        (Stage::LookUp(role), ReplyView::QueueUrl(u)) => {
            let url = text_or_empty(u);
            (SetupView { stage: Stage::Configure(role), url, ..s }, StepView::Call(
                CallView::SetQueueAttributes(url, role_attributes(cfg, role, s.dlq)),
            ))
        },
        (Stage::LookUp(role), ReplyView::QueueDoesNotExist) => (SetupView { stage: Stage::Create(role), ..s }, StepView::Call(
            CallView::CreateQueue(role_queue_name(cfg, role), role_attributes(cfg, role, s.dlq)),
        )),
        (Stage::Configure(role), ReplyView::Done) => (SetupView { stage: Stage::ReadArn(role), ..s }, StepView::Call(
            CallView::GetQueueArn(s.url),
        )),
        (Stage::Create(role), ReplyView::Created(u)) => {
            let url = text_or_empty(u);
            (SetupView { stage: Stage::ReadArn(role), url, ..s }, StepView::Call(CallView::GetQueueArn(url)))
        },
        (Stage::ReadArn(Role::DeadLetter), ReplyView::QueueArn(Some(arn))) => (
            SetupView { stage: Stage::LookUp(Role::Main), dlq: Some((arn, s.url)), ..s },
            StepView::Call(CallView::GetQueueUrl(cfg.queue_name@)),
        ),
        (Stage::ReadArn(Role::Main), ReplyView::QueueArn(Some(arn))) => (
            SetupView { stage: Stage::Rule, main: Some((arn, s.url)), ..s },
            StepView::Call(CallView::PutRule(cfg.rule_name@, cfg.event_bus_name@, event_pattern_json(cfg.prefix@))),
        ),
        (Stage::ReadArn(role), ReplyView::QueueArn(None)) => fail(SetupIssue::MissingQueueArn(role_queue_name(cfg, role))),
        (Stage::Rule, ReplyView::RuleArn(Some(arn))) => match s.main {
            Some((qarn, qurl)) => (SetupView { stage: Stage::Policy, rule_arn: arn, ..s }, StepView::Call(
                CallView::SetQueueAttributes(qurl, seq![(QueueAttribute::Policy, queue_policy_json(qarn, arn))]),
            )),
            None => fail(SetupIssue::UnexpectedReply),
        },
        (Stage::Rule, ReplyView::RuleArn(None)) => fail(SetupIssue::MissingRuleArn),
        (Stage::Policy, ReplyView::Done) => match s.main {
            Some((qarn, _)) => (SetupView { stage: Stage::Target, ..s }, StepView::Call(
                CallView::PutTarget(cfg.rule_name@, cfg.event_bus_name@, cfg.queue_name@, qarn),
            )),
            None => fail(SetupIssue::UnexpectedReply),
        },
        (Stage::Target, ReplyView::Done) => match s.main {
            Some((qarn, qurl)) => (SetupView { stage: Stage::Over, ..s }, StepView::Finished(
                qurl,
                qarn,
                s.rule_arn,
                match s.dlq {
                    Some((_, durl)) => Some(durl),
                    None => None,
                },
            )),
            None => fail(SetupIssue::UnexpectedReply),
        },
        (Stage::Over, _) => (s, StepView::Failed(SetupIssue::UnexpectedReply)),
        _ => fail(SetupIssue::UnexpectedReply),
    }
}

/// The first call of a run: look up the dead-letter queue when it is
/// enabled, else the main queue.
pub open spec fn setup_first(cfg: SetupConfig) -> (SetupView, StepView) {
    let role = if cfg.dlq.enabled { Role::DeadLetter } else { Role::Main };
    (
        SetupView { stage: Stage::LookUp(role), url: Seq::empty(), dlq: None, main: None, rule_arn: Seq::empty() },
        StepView::Call(CallView::GetQueueUrl(role_queue_name(cfg, role))),
    )
}

/// Provisioning upserts. Whether a queue already exists or not, the next
/// call gives it the same attributes (set on the existing queue, or created
/// with them), and both paths go on to read that queue's ARN; so re-running
/// setup converges to the same configuration.
pub proof fn law_setup_upserts(cfg: SetupConfig, s: SetupView, role: Role, url: Option<Seq<char>>, created: Option<Seq<char>>)
    requires
        s.stage == Stage::LookUp(role),
    ensures
        ({
            let (found, found_step) = setup_next(cfg, s, ReplyView::QueueUrl(url));
            let (missing, missing_step) = setup_next(cfg, s, ReplyView::QueueDoesNotExist);
            &&& found_step == StepView::Call(CallView::SetQueueAttributes(text_or_empty(url), role_attributes(cfg, role, s.dlq)))
            &&& missing_step == StepView::Call(CallView::CreateQueue(role_queue_name(cfg, role), role_attributes(cfg, role, s.dlq)))
            &&& setup_next(cfg, found, ReplyView::Done).1 == StepView::Call(CallView::GetQueueArn(text_or_empty(url)))
            &&& setup_next(cfg, missing, ReplyView::Created(created)).1 == StepView::Call(CallView::GetQueueArn(text_or_empty(created)))
        }),
{
}

/// The state of a run after the replies `rs`, from its start. A run is a
/// function of its configuration and the replies it got, and of nothing else.
pub open spec fn run_state(cfg: SetupConfig, rs: Seq<ReplyView>) -> SetupView
    decreases rs.len(),
{
    if rs.len() == 0 {
        setup_first(cfg).0
    } else {
        setup_next(cfg, run_state(cfg, rs.drop_last()), rs.last()).0
    }
}

/// The step a run takes after the replies `rs` (its first call when there
/// are none).
pub open spec fn run_step(cfg: SetupConfig, rs: Seq<ReplyView>) -> StepView {
    if rs.len() == 0 {
        setup_first(cfg).1
    } else {
        setup_next(cfg, run_state(cfg, rs.drop_last()), rs.last()).1
    }
}

/// The queue a stage is ensuring, if it is one of the queue stages.
pub open spec fn queue_stage(stage: Stage) -> Option<Role> {
    match stage {
        Stage::LookUp(r) => Some(r),
        Stage::Configure(r) => Some(r),
        Stage::Create(r) => Some(r),
        Stage::ReadArn(r) => Some(r),
        _ => None,
    }
}

/// What holds of every state a run reaches: the dead-letter queue is
/// ensured only when enabled and before the main queue; once the main queue
/// is being ensured, the dead-letter queue is known exactly when enabled;
/// from the rule on, the main queue is known.
pub open spec fn run_invariant(cfg: SetupConfig, s: SetupView) -> bool {
    match queue_stage(s.stage) {
        Some(Role::DeadLetter) => cfg.dlq.enabled && s.dlq is None && s.main is None,
        Some(Role::Main) => (s.dlq is Some <==> cfg.dlq.enabled) && s.main is None,
        None => s.stage != Stage::Over ==> ((s.dlq is Some <==> cfg.dlq.enabled) && s.main is Some),
    }
}

/// A step fits the configuration, given the state it leads to: every queue
/// is looked up and created by its configured name and given its configured
/// attributes; the rule is put with the configured name, bus and the prefix
/// pattern; the policy names the main queue and the rule; the target is the
/// main queue under its own name; the finished result reports the main
/// queue, the rule, and a dead-letter queue URL exactly when it is enabled.
pub open spec fn step_fits(cfg: SetupConfig, s: SetupView, st: StepView) -> bool {
    match st {
        StepView::Call(CallView::GetQueueUrl(n)) => (s.stage matches Stage::LookUp(role) && n == role_queue_name(cfg, role)),
        StepView::Call(CallView::CreateQueue(n, a)) => (s.stage matches Stage::Create(role) && n == role_queue_name(cfg, role)
            && a == role_attributes(cfg, role, s.dlq)),
        StepView::Call(CallView::SetQueueAttributes(u, a)) => {
            ||| (s.stage matches Stage::Configure(role) && u == s.url && a == role_attributes(cfg, role, s.dlq))
            ||| (s.stage == Stage::Policy && (s.main matches Some((qa, qu)) && u == qu
                && a == seq![(QueueAttribute::Policy, queue_policy_json(qa, s.rule_arn))]))
        },
        StepView::Call(CallView::GetQueueArn(u)) => (s.stage matches Stage::ReadArn(_) && u == s.url),
        StepView::Call(CallView::PutRule(r, b, p)) => s.stage == Stage::Rule && r == cfg.rule_name@ && b == cfg.event_bus_name@
            && p == event_pattern_json(cfg.prefix@),
        StepView::Call(CallView::PutTarget(r, b, id, a)) => {
            &&& s.stage == Stage::Target
            &&& r == cfg.rule_name@
            &&& b == cfg.event_bus_name@
            &&& id == cfg.queue_name@
            &&& (s.main matches Some((qa, _)) && a == qa)
        },
        StepView::Finished(u, a, ra, d) => {
            &&& s.main == Some((a, u))
            &&& ra == s.rule_arn
            &&& (d is Some <==> cfg.dlq.enabled)
            &&& (d matches Some(du) ==> (s.dlq matches Some((_, x)) && du == x))
        },
        StepView::Failed(_) => s.stage == Stage::Over,
    }
}

proof fn lemma_setup_next_fits(cfg: SetupConfig, s: SetupView, r: ReplyView)
    requires
        run_invariant(cfg, s),
    ensures
        run_invariant(cfg, setup_next(cfg, s, r).0),
        step_fits(cfg, setup_next(cfg, s, r).0, setup_next(cfg, s, r).1),
{
}

proof fn lemma_run_push(cfg: SetupConfig, rs: Seq<ReplyView>, r: ReplyView)
    ensures
        run_state(cfg, rs.push(r)) == setup_next(cfg, run_state(cfg, rs), r).0,
        run_step(cfg, rs.push(r)) == setup_next(cfg, run_state(cfg, rs), r).1,
{
    assert(rs.push(r).drop_last() =~= rs);
}

/// Setup provisions what the configuration says, on every run. Whatever the
/// replies, every step of a run fits the configuration (`step_fits`): the
/// same names, attributes, rule pattern, policy and target on every run, and
/// a reported dead-letter queue URL exactly when the dead-letter queue is
/// enabled.
pub proof fn law_setup_run(cfg: SetupConfig, rs: Seq<ReplyView>)
    ensures
        run_invariant(cfg, run_state(cfg, rs)),
        step_fits(cfg, run_state(cfg, rs), run_step(cfg, rs)),
    decreases rs.len(),
{
    if rs.len() > 0 {
        law_setup_run(cfg, rs.drop_last());
        lemma_setup_next_fits(cfg, run_state(cfg, rs.drop_last()), rs.last());
    }
}

/// A failed call stops setup. Whatever call is pending, a failed reply ends
/// the run with that failure, keeping what was learned; and once a run has
/// had a failed reply it never reports success: every later step is a
/// failure and the run stays over.
pub proof fn law_failure_ends_setup(cfg: SetupConfig, s: SetupView, m: Seq<char>, rs: Seq<ReplyView>, i: int)
    ensures
        s.stage != Stage::Over ==> setup_next(cfg, s, ReplyView::Failed(m)) == (
            SetupView { stage: Stage::Over, ..s },
            StepView::Failed(SetupIssue::Aws(m)),
        ),
        0 <= i < rs.len() && rs[i] is Failed ==> {
            &&& run_state(cfg, rs).stage == Stage::Over
            &&& run_step(cfg, rs) is Failed
        },
    decreases rs.len(),
{
    if 0 <= i < rs.len() && rs[i] is Failed && i < rs.len() - 1 {
        let pre = rs.drop_last();
        assert(pre[i] == rs[i]);
        law_failure_ends_setup(cfg, s, m, pre, i);
    }
}

/// The replies for one queue: found (its URL, the attributes set, its ARN)
/// or not found (created, with its URL, then its ARN).
pub open spec fn queue_replies(exists: bool, url: Seq<char>, arn: Seq<char>) -> Seq<ReplyView> {
    if exists {
        seq![ReplyView::QueueUrl(Some(url)), ReplyView::Done, ReplyView::QueueArn(Some(arn))]
    } else {
        seq![ReplyView::QueueDoesNotExist, ReplyView::Created(Some(url)), ReplyView::QueueArn(Some(arn))]
    }
}

/// The replies of a run that succeeds: the dead-letter queue's (when
/// enabled), the main queue's, the rule's ARN, then the policy and target
/// calls done.
pub open spec fn success_replies(
    cfg: SetupConfig,
    dlq_exists: bool,
    dlq_url: Seq<char>,
    dlq_arn: Seq<char>,
    main_exists: bool,
    url: Seq<char>,
    arn: Seq<char>,
    rule_arn: Seq<char>,
) -> Seq<ReplyView> {
    (if cfg.dlq.enabled { queue_replies(dlq_exists, dlq_url, dlq_arn) } else { Seq::empty() })
        + queue_replies(main_exists, url, arn)
        + seq![ReplyView::RuleArn(Some(rule_arn)), ReplyView::Done, ReplyView::Done]
}

proof fn lemma_queue_replies(cfg: SetupConfig, rs: Seq<ReplyView>, role: Role, exists: bool, url: Seq<char>, arn: Seq<char>)
    requires
        run_state(cfg, rs).stage == Stage::LookUp(role),
    ensures
        ({
            let s0 = run_state(cfg, rs);
            let s = run_state(cfg, rs + queue_replies(exists, url, arn));
            &&& s.rule_arn == s0.rule_arn
            &&& match role {
                Role::DeadLetter => s.stage == Stage::LookUp(Role::Main) && s.dlq == Some((arn, url)) && s.main == s0.main,
                Role::Main => s.stage == Stage::Rule && s.main == Some((arn, url)) && s.dlq == s0.dlq,
            }
        }),
{
    let q = queue_replies(exists, url, arn);
    lemma_run_push(cfg, rs, q[0]);
    lemma_run_push(cfg, rs.push(q[0]), q[1]);
    lemma_run_push(cfg, rs.push(q[0]).push(q[1]), q[2]);
    assert(rs + q =~= rs.push(q[0]).push(q[1]).push(q[2]));
}

/// Re-running setup gives the same result. A run that succeeds reports the
/// main queue's URL and ARN, the rule's ARN, and the dead-letter queue's URL
/// exactly when it is enabled, whether each queue already existed or was
/// created: a second run against what the first provisioned (the same URLs
/// and ARNs) returns the same result as the first.
pub proof fn law_setup_rerun_same_result(
    cfg: SetupConfig,
    dlq_exists: bool,
    dlq_url: Seq<char>,
    dlq_arn: Seq<char>,
    main_exists: bool,
    url: Seq<char>,
    arn: Seq<char>,
    rule_arn: Seq<char>,
)
    ensures
        run_step(cfg, success_replies(cfg, dlq_exists, dlq_url, dlq_arn, main_exists, url, arn, rule_arn))
            == StepView::Finished(url, arn, rule_arn, if cfg.dlq.enabled { Some(dlq_url) } else { None }),
{
    let head: Seq<ReplyView> = if cfg.dlq.enabled {
        queue_replies(dlq_exists, dlq_url, dlq_arn)
    } else {
        Seq::empty()
    };
    let e: Seq<ReplyView> = Seq::empty();
    assert(run_state(cfg, e) == setup_first(cfg).0);
    if cfg.dlq.enabled {
        lemma_queue_replies(cfg, e, Role::DeadLetter, dlq_exists, dlq_url, dlq_arn);
        assert(e + head =~= head);
    } else {
        assert(head =~= e);
    }
    let m = head + queue_replies(main_exists, url, arn);
    lemma_queue_replies(cfg, head, Role::Main, main_exists, url, arn);
    let r1 = m.push(ReplyView::RuleArn(Some(rule_arn)));
    let r2 = r1.push(ReplyView::Done);
    lemma_run_push(cfg, m, ReplyView::RuleArn(Some(rule_arn)));
    lemma_run_push(cfg, r1, ReplyView::Done);
    lemma_run_push(cfg, r2, ReplyView::Done);
    assert(success_replies(cfg, dlq_exists, dlq_url, dlq_arn, main_exists, url, arn, rule_arn) =~= r2.push(ReplyView::Done));
}

/// A provisioning run.
pub struct SetupRun {
    cfg: SetupConfig,
    stage: Stage,
    url: String,
    dlq: Option<(String, String)>,
    main: Option<(String, String)>,
    rule_arn: String,
}

pub open spec fn pair_view(p: Option<(String, String)>) -> Option<(Seq<char>, Seq<char>)> {
    match p {
        Some((a, b)) => Some((a@, b@)),
        None => None,
    }
}

impl View for SetupRun {
    type V = SetupView;

    closed spec fn view(&self) -> SetupView {
        SetupView {
            stage: self.stage,
            url: self.url@,
            dlq: pair_view(self.dlq),
            main: pair_view(self.main),
            rule_arn: self.rule_arn@,
        }
    }
}

fn copy_pair(p: &Option<(String, String)>) -> (r: Option<(String, String)>)
    ensures
        pair_view(r) == pair_view(*p),
{
    match p {
        Some((a, b)) => Some((copy_string(a), copy_string(b))),
        None => None,
    }
}

impl SetupRun {
    /// What the run provisions.
    pub closed spec fn settings(&self) -> SetupConfig {
        self.cfg
    }

    /// Starts a run; returns it with its first call.
    pub fn start(cfg: SetupConfig) -> (r: (SetupRun, SetupStep))
        ensures
            r.0.settings() == cfg,
            (r.0@, step_view(r.1)) == setup_first(cfg),
    {
        let role = if cfg.dlq.enabled {
            Role::DeadLetter
        } else {
            Role::Main
        };
        let name = match role {
            Role::DeadLetter => copy_string(&cfg.dlq.queue_name),
            Role::Main => copy_string(&cfg.queue_name),
        };
        let run = SetupRun {
            cfg,
            stage: Stage::LookUp(role),
            url: String::new(),
            dlq: None,
            main: None,
            rule_arn: String::new(),
        };
        (run, SetupStep::Call(SetupCall::GetQueueUrl { queue_name: name }))
    }

    fn queue_name(&self, role: Role) -> (n: String)
        ensures
            n@ == role_queue_name(self.cfg, role),
    {
        match role {
            Role::DeadLetter => copy_string(&self.cfg.dlq.queue_name),
            Role::Main => copy_string(&self.cfg.queue_name),
        }
    }

    fn attributes(&self, role: Role) -> (r: Result<Vec<(QueueAttribute, String)>, SetupError>)
        ensures
            r matches Ok(v) && attrs_view(v@) == role_attributes(self.cfg, role, pair_view(self.dlq)),
    {
        let mut v: Vec<(QueueAttribute, String)> = Vec::new();
        v.push((QueueAttribute::VisibilityTimeout, integer_text(self.cfg.visibility_timeout as i64)));
        v.push((QueueAttribute::MessageRetentionPeriod, integer_text(self.cfg.message_retention_seconds as i64)));
        let ghost base = attrs_view(v@);
        assert(base =~= seq![
            (QueueAttribute::VisibilityTimeout, signed_decimal(self.cfg.visibility_timeout as int)),
            (QueueAttribute::MessageRetentionPeriod, signed_decimal(self.cfg.message_retention_seconds as int)),
        ]);
        match (role, &self.dlq) {
            (Role::Main, Some((arn, _))) => {
                match build_redrive_policy(arn.as_str(), self.cfg.dlq.max_receive_count) {
                    Ok(policy) => {
                        v.push((QueueAttribute::RedrivePolicy, policy));
                        assert(attrs_view(v@) =~= base.push((QueueAttribute::RedrivePolicy, redrive_policy_json(arn@, self.cfg.dlq.max_receive_count))));
                    },
                    Err(_) => {
                        return Err(SetupError::Json);
                    },
                }
            },
            _ => {},
        }
        Ok(v)
    }

    fn fail(&mut self, e: SetupError) -> (st: SetupStep)
        ensures
            final(self).cfg == old(self).cfg,
            final(self)@ == (SetupView { stage: Stage::Over, ..old(self)@ }),
            st == SetupStep::Failed(e),
    {
        self.stage = Stage::Over;
        SetupStep::Failed(e)
    }

    /// Takes the reply to the pending call and returns the next step.
    pub fn advance(&mut self, reply: SetupReply) -> (st: SetupStep)
        ensures
            final(self).settings() == old(self).settings(),
            (final(self)@, step_view(st)) == setup_next(old(self).settings(), old(self)@, reply_view(reply)),
    {
        match (self.stage, reply) {
            (Stage::Over, _) => SetupStep::Failed(SetupError::UnexpectedReply),
            (_, SetupReply::Failed(m)) => self.fail(SetupError::Aws(m)),
            (Stage::LookUp(role), SetupReply::QueueUrl(u)) => {
                let url = match u {
                    Some(s) => s,
                    None => String::new(),
                };
                let attributes = match self.attributes(role) {
                    Ok(a) => a,
                    Err(e) => {
                        return self.fail(e);
                    },
                };
                self.stage = Stage::Configure(role);
                self.url = copy_string(&url);
                SetupStep::Call(SetupCall::SetQueueAttributes { queue_url: url, attributes })
            },
            (Stage::LookUp(role), SetupReply::QueueDoesNotExist) => {
                let attributes = match self.attributes(role) {
                    Ok(a) => a,
                    Err(e) => {
                        return self.fail(e);
                    },
                };
                self.stage = Stage::Create(role);
                SetupStep::Call(SetupCall::CreateQueue { queue_name: self.queue_name(role), attributes })
            },
            (Stage::Configure(role), SetupReply::Done) => {
                self.stage = Stage::ReadArn(role);
                SetupStep::Call(SetupCall::GetQueueArn { queue_url: copy_string(&self.url) })
            },
            (Stage::Create(role), SetupReply::Created(u)) => {
                let url = match u {
                    Some(s) => s,
                    None => String::new(),
                };
                self.stage = Stage::ReadArn(role);
                self.url = copy_string(&url);
                SetupStep::Call(SetupCall::GetQueueArn { queue_url: url })
            },
            (Stage::ReadArn(role), SetupReply::QueueArn(a)) => match a {
                None => {
                    let n = self.queue_name(role);
                    self.fail(SetupError::MissingQueueArn(n))
                },
                Some(arn) => match role {
                    Role::DeadLetter => {
                        self.dlq = Some((arn, copy_string(&self.url)));
                        self.stage = Stage::LookUp(Role::Main);
                        SetupStep::Call(SetupCall::GetQueueUrl { queue_name: copy_string(&self.cfg.queue_name) })
                    },
                    Role::Main => {
                        let pattern = match build_event_pattern(self.cfg.prefix.as_str()) {
                            Ok(p) => p,
                            Err(_) => {
                                return self.fail(SetupError::Json);
                            },
                        };
                        self.main = Some((arn, copy_string(&self.url)));
                        self.stage = Stage::Rule;
                        SetupStep::Call(SetupCall::PutRule {
                            rule_name: copy_string(&self.cfg.rule_name),
                            event_bus_name: copy_string(&self.cfg.event_bus_name),
                            event_pattern: pattern,
                        })
                    },
                },
            },
            (Stage::Rule, SetupReply::RuleArn(a)) => match a {
                None => self.fail(SetupError::MissingRuleArn),
                Some(arn) => {
                    let main = copy_pair(&self.main);
                    match main {
                        None => self.fail(SetupError::UnexpectedReply),
                        Some((qarn, qurl)) => {
                            let policy = match build_queue_policy(qarn.as_str(), arn.as_str()) {
                                Ok(p) => p,
                                Err(_) => {
                                    return self.fail(SetupError::Json);
                                },
                            };
                            let mut attributes: Vec<(QueueAttribute, String)> = Vec::new();
                            attributes.push((QueueAttribute::Policy, policy));
                            assert(attrs_view(attributes@) =~= seq![(QueueAttribute::Policy, queue_policy_json(qarn@, arn@))]);
                            self.rule_arn = arn;
                            self.stage = Stage::Policy;
                            SetupStep::Call(SetupCall::SetQueueAttributes { queue_url: qurl, attributes })
                        },
                    }
                },
            },
            (Stage::Policy, SetupReply::Done) => {
                let main = copy_pair(&self.main);
                match main {
                    None => self.fail(SetupError::UnexpectedReply),
                    Some((qarn, _)) => {
                        self.stage = Stage::Target;
                        SetupStep::Call(SetupCall::PutTarget {
                            rule_name: copy_string(&self.cfg.rule_name),
                            event_bus_name: copy_string(&self.cfg.event_bus_name),
                            target_id: copy_string(&self.cfg.queue_name),
                            target_arn: qarn,
                        })
                    },
                }
            },
            (Stage::Target, SetupReply::Done) => {
                let main = copy_pair(&self.main);
                match main {
                    None => self.fail(SetupError::UnexpectedReply),
                    Some((qarn, qurl)) => {
                        let dlq_url = match &self.dlq {
                            Some((_, u)) => Some(copy_string(u)),
                            None => None,
                        };
                        self.stage = Stage::Over;
                        SetupStep::Finished(SetupResult {
                            queue_url: qurl,
                            queue_arn: qarn,
                            rule_arn: copy_string(&self.rule_arn),
                            dlq_url,
                        })
                    },
                }
            },
            (_, _) => self.fail(SetupError::UnexpectedReply),
        }
    }
}

} // verus!
