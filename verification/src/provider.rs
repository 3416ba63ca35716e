//! What a parameter source hands the engine: parameters, change events, and
//! the errors of choosing a source.
use vstd::prelude::*;

use crate::config::{parameter_store_type, ParameterStoreConfig, ProviderConfig};
use crate::text::{copy_string, debug_quoted, debug_text, has_prefix, same_text, starts_with};

verus! {

/// The kind of change a push notification reports.
#[derive(Clone, Copy, Debug, PartialEq, Eq, Structural)]
pub enum Operation {
    Created,
    Updated,
    Deleted,
}

/// One parameter as the source returns it.
#[derive(Clone, Debug)]
pub struct Parameter {
    pub name: String,
    pub value: String,
    pub version: i64,
    /// The source's type label ("String", "StringList", "SecureString"),
    /// kept for operational logging.
    pub type_: String,
}

/// One changed parameter name, as a push notification reports it.
#[derive(Clone, Debug)]
pub struct ChangeEvent {
    pub name: String,
    pub operation: Operation,
}

/// Why no parameter source could be set up.
#[derive(Debug)]
pub enum ProviderError {
    /// `provider.type` names no supported backend.
    UnsupportedType(String),
    /// The backend's own section is missing.
    MissingParameterStoreConfig,
    /// The backend failed to initialize.
    Init(String),
}

/// Turns a raw push-notification message body into the changes it reports.
/// Kept apart from fetching: not every source has a push mechanism.
pub trait EventParser: Send + Sync {
    fn parse_event(&self, message_body: &[u8]) -> Result<Vec<ChangeEvent>, EventError>;
}

/// Picks the parameter store settings of a provider section: the only
/// backend. Errors on any other type, or when its section is missing.
pub fn parameter_store_settings(cfg: &ProviderConfig) -> (r: Result<&ParameterStoreConfig, ProviderError>)
    ensures
        match r {
            Ok(ps) => cfg.provider_is_parameter_store() && cfg.parameter_store == Some(*ps),
            Err(ProviderError::UnsupportedType(t)) => t@ == cfg.type_@ && !cfg.provider_is_parameter_store(),
            Err(ProviderError::MissingParameterStoreConfig) => cfg.provider_is_parameter_store() && cfg.parameter_store is None,
            Err(ProviderError::Init(_)) => false,
        },
{
    if !same_text(cfg.type_.as_str(), "parameter_store") {
        return Err(ProviderError::UnsupportedType(copy_string(&cfg.type_)));
    }
    match &cfg.parameter_store {
        Some(ps) => Ok(ps),
        None => Err(ProviderError::MissingParameterStoreConfig),
    }
}

impl ProviderError {
    /// A readable description of the error.
    pub fn message(&self) -> (s: String)
        ensures
            s@ == match self {
                ProviderError::UnsupportedType(t) => "unsupported provider type "@ + debug_quoted(t@)
                    + "; supported types: [\"parameter_store\"]"@,
                ProviderError::MissingParameterStoreConfig => "provider.parameter_store config section is required when provider.type = \"parameter_store\""@,
                ProviderError::Init(m) => m@,
            },
    {
        match self {
            ProviderError::UnsupportedType(t) => {
                let mut s = String::from_str("unsupported provider type ");
                let q = debug_text(t.as_str());
                s.append(q.as_str());
                s.append("; supported types: [\"parameter_store\"]");
                s
            },
            ProviderError::MissingParameterStoreConfig => String::from_str(
                "provider.parameter_store config section is required when provider.type = \"parameter_store\"",
            ),
            ProviderError::Init(m) => copy_string(m),
        }
    }
}

impl ProviderConfig {
    /// The section asks for the parameter store backend.
    pub open spec fn provider_is_parameter_store(&self) -> bool {
        self.type_@ == parameter_store_type()
    }
}

/// The most names one batch fetch may ask for.
pub const BATCH_LIMIT: usize = 10;

/// The concatenation of a sequence of name batches.
pub open spec fn flatten(bs: Seq<Seq<Seq<char>>>) -> Seq<Seq<char>>
    decreases bs.len(),
{
    if bs.len() == 0 {
        Seq::empty()
    } else {
        flatten(bs.drop_last()) + bs.last()
    }
}

/// The views of a sequence of name batches.
pub open spec fn batches_view(bs: Seq<Vec<String>>) -> Seq<Seq<Seq<char>>> {
    bs.map_values(|b: Vec<String>| b@.map_values(|s: String| s@))
}

/// Splits `names` into consecutive batches of `BATCH_LIMIT` names, the last
/// batch holding the rest (as std's `chunks` does): together they are
/// `names` in order, and no batch is empty.
pub fn name_batches(names: &Vec<String>) -> (r: Vec<Vec<String>>)
    ensures
        flatten(batches_view(r@)) == names@.map_values(|s: String| s@),
        forall|i: int| 0 <= i < r@.len() ==> 0 < (#[trigger] r@[i])@.len() <= BATCH_LIMIT,
        forall|i: int| 0 <= i < r@.len() - 1 ==> (#[trigger] r@[i])@.len() == BATCH_LIMIT,
{
    let ghost nv = names@.map_values(|s: String| s@);
    let mut r: Vec<Vec<String>> = Vec::new();
    let mut cur: Vec<String> = Vec::new();
    let mut i: usize = 0;
    while i < names.len()
        invariant
            nv == names@.map_values(|s: String| s@),
            i <= names@.len(),
            flatten(batches_view(r@)) + cur@.map_values(|s: String| s@) == nv.take(i as int),
            cur@.len() < BATCH_LIMIT,
            forall|j: int| 0 <= j < r@.len() ==> (#[trigger] r@[j])@.len() == BATCH_LIMIT,
        decreases names.len() - i,
    {
        let ghost before_cur = cur@;
        cur.push(copy_string(&names[i]));
        proof {
            assert(cur@.map_values(|s: String| s@) =~= before_cur.map_values(|s: String| s@).push(names@[i as int]@));
            assert(nv.take(i + 1) =~= nv.take(i as int).push(nv[i as int]));
        }
        if cur.len() == BATCH_LIMIT {
            let ghost before = r@;
            let full = cur;
            r.push(full);
            cur = Vec::new();
            proof {
                assert(batches_view(r@).drop_last() =~= batches_view(before));
                assert(cur@.map_values(|s: String| s@) =~= Seq::<Seq<char>>::empty());
                assert(flatten(batches_view(r@)) + cur@.map_values(|s: String| s@) =~= flatten(batches_view(r@)));
            }
        }
        i = i + 1;
    }
    if cur.len() > 0 {
        let ghost before = r@;
        r.push(cur);
        proof {
            assert(batches_view(r@).drop_last() =~= batches_view(before));
        }
    } else {
        assert(flatten(batches_view(r@)) + cur@.map_values(|s: String| s@) =~= flatten(batches_view(r@)));
    }
    assert(nv.take(names@.len() as int) =~= nv);
    r
}

/// Why a change notification could not be turned into change events.
#[derive(Debug)]
pub enum EventError {
    /// The message body is not a change notification.
    Malformed(String),
    /// The notification reports an operation that is not known.
    UnrecognizedOperation(String),
}

/// The parts of a change notification that matter: its source, its kind,
/// and the changed parameter.
#[derive(Clone, Debug)]
pub struct EventEnvelope {
    pub source: Option<String>,
    pub detail_type: Option<String>,
    pub detail: EventDetail,
}

/// The changed parameter and what happened to it.
#[derive(Clone, Debug)]
pub struct EventDetail {
    pub name: String,
    pub operation: String,
}

/// The view of an optional text.
pub open spec fn opt_text(o: Option<String>) -> Option<Seq<char>> {
    match o {
        Some(s) => Some(s@),
        None => None,
    }
}

/// The notification is a parameter store change of a parameter under `prefix`.
pub open spec fn relevant(env: EventEnvelope, prefix: Seq<char>) -> bool {
    &&& opt_text(env.source) == Some("aws.ssm"@)
    &&& opt_text(env.detail_type) == Some("Parameter Store Change"@)
    &&& starts_with(env.detail.name@, prefix)
}

/// The change an operation name reports.
pub open spec fn operation_of(op: Seq<char>) -> Option<Operation> {
    if op == "Create"@ {
        Some(Operation::Created)
    } else if op == "Update"@ || op == "LabelParameterVersion"@ {
        Some(Operation::Updated)
    } else if op == "Delete"@ {
        Some(Operation::Deleted)
    } else {
        None
    }
}

fn text_is(o: &Option<String>, lit: &str) -> (r: bool)
    ensures
        r == (opt_text(*o) == Some(lit@)),
{
    match o {
        Some(s) => same_text(s.as_str(), lit),
        None => false,
    }
}

/// Turns a decoded change notification into change events. It re-checks the
/// source, the kind and the prefix itself rather than trusting the event
/// rule's filter: a notification that is not relevant gives no events (and
/// is safe to acknowledge). A relevant one gives exactly one event, or an
/// error when its operation is not known.
pub fn parse_event(envelope: &EventEnvelope, prefix: &str) -> (r: Result<Vec<ChangeEvent>, EventError>)
    ensures
        !relevant(*envelope, prefix@) ==> (r matches Ok(v) && v@.len() == 0),
        relevant(*envelope, prefix@) && operation_of(envelope.detail.operation@) is Some ==> (r matches Ok(v)
            && v@.len() == 1
            && v@[0].name@ == envelope.detail.name@
            && Some(v@[0].operation) == operation_of(envelope.detail.operation@)),
        relevant(*envelope, prefix@) && operation_of(envelope.detail.operation@) is None ==> (r matches Err(
            EventError::UnrecognizedOperation(o)) && o@ == envelope.detail.operation@),
{
    if !text_is(&envelope.source, "aws.ssm") {
        return Ok(Vec::new());
    }
    if !text_is(&envelope.detail_type, "Parameter Store Change") {
        return Ok(Vec::new());
    }
    if !has_prefix(envelope.detail.name.as_str(), prefix) {
        return Ok(Vec::new());
    }
    let op = envelope.detail.operation.as_str();
    let operation = if same_text(op, "Create") {
        Operation::Created
    } else if same_text(op, "Update") || same_text(op, "LabelParameterVersion") {
        Operation::Updated
    } else if same_text(op, "Delete") {
        Operation::Deleted
    } else {
        return Err(EventError::UnrecognizedOperation(copy_string(&envelope.detail.operation)));
    };
    let mut v: Vec<ChangeEvent> = Vec::new();
    v.push(ChangeEvent { name: copy_string(&envelope.detail.name), operation });
    Ok(v)
}

} // verus!
