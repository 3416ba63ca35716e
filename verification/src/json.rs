//! The JSON documents that provisioning hands to the cloud services: the
//! event rule's pattern, the queue's access policy, and its redrive policy.
//! Strings are escaped by `serde_json`; the documents are framed here, with
//! keys in increasing order and no white space.
use vstd::prelude::*;

use crate::digest::hex_digit;
use crate::text::{integer_text, signed_decimal};

verus! {

/// `serde_json::Error`, the error type of its serializer.
#[verifier::external_type_specification]
#[verifier::external_body]
pub struct ExJsonError(serde_json::Error);

/// How `serde_json` escapes one character inside a string literal: quote and
/// backslash get a backslash; backspace, tab, newline, form feed and
/// carriage return get their short escapes; the other control characters
/// below U+0020 get `\u00XX` with lowercase hex; everything else stands as is.
pub open spec fn json_escape(c: char) -> Seq<char> {
    let u = c as int;
    if c == '"' {
        seq!['\\', '"']
    } else if c == '\\' {
        seq!['\\', '\\']
    } else if u == 0x08 {
        seq!['\\', 'b']
    } else if u == 0x09 {
        seq!['\\', 't']
    } else if u == 0x0a {
        seq!['\\', 'n']
    } else if u == 0x0c {
        seq!['\\', 'f']
    } else if u == 0x0d {
        seq!['\\', 'r']
    } else if u < 0x20 {
        seq!['\\', 'u', '0', '0', hex_digit(u / 16), hex_digit(u % 16)]
    } else {
        seq![c]
    }
}

/// The escaped characters of `s`, in order.
pub open spec fn json_escaped(s: Seq<char>) -> Seq<char>
    decreases s.len(),
{
    if s.len() == 0 {
        Seq::empty()
    } else {
        json_escaped(s.drop_last()) + json_escape(s.last())
    }
}

/// `s` as a JSON string literal.
pub open spec fn json_quoted(s: Seq<char>) -> Seq<char> {
    seq!['"'] + json_escaped(s) + seq!['"']
}

/// Calls `serde_json::to_string` on a `str`.
/// Trusted: the result is `Ok`, holding `s` as a JSON string literal escaped
/// as `json_escape` says. The serializer writes into a `Vec<u8>`, whose
/// writes do not fail, and escapes through the crate's `ESCAPE` table and
/// its `write_char_escape` (lowercase hex digits).
#[verifier::external_body]
fn json_string(s: &str) -> (r: Result<String, serde_json::Error>)
    ensures
        r is Ok,
        r->Ok_0@ == json_quoted(s@),
{
    serde_json::to_string(s)
}

/// A document could not be serialized.
#[derive(Debug)]
pub struct JsonError {
    pub message: String,
}

fn quoted(s: &str) -> (r: Result<String, JsonError>)
    ensures
        r matches Ok(t) && t@ == json_quoted(s@),
{
    match json_string(s) {
        Ok(t) => Ok(t),
        Err(e) => Err(JsonError { message: String::new() }),
    }
}

/// The event rule's pattern: parameter store change events whose parameter
/// name starts with `prefix`.
pub open spec fn event_pattern_json(prefix: Seq<char>) -> Seq<char> {
    "{\"detail\":{\"name\":[{\"prefix\":"@ + json_quoted(prefix)
        + "}]},\"detail-type\":[\"Parameter Store Change\"],\"source\":[\"aws.ssm\"]}"@
}

/// Builds the event rule's pattern matching parameter store "Parameter Store
/// Change" events whose parameter name starts with `prefix`.
pub fn build_event_pattern(prefix: &str) -> (r: Result<String, JsonError>)
    ensures
        r matches Ok(t) && t@ == event_pattern_json(prefix@),
{
    let q = match quoted(prefix) {
        Ok(q) => q,
        Err(e) => {
            return Err(e);
        },
    };
    let mut s = String::from_str("{\"detail\":{\"name\":[{\"prefix\":");
    s.append(q.as_str());
    s.append("}]},\"detail-type\":[\"Parameter Store Change\"],\"source\":[\"aws.ssm\"]}");
    Ok(s)
}

/// A least-privilege queue policy: the event service may send messages to
/// `queue_arn` only on behalf of the rule `rule_arn`.
pub open spec fn queue_policy_json(queue_arn: Seq<char>, rule_arn: Seq<char>) -> Seq<char> {
    "{\"Statement\":[{\"Action\":\"sqs:SendMessage\",\"Condition\":{\"ArnEquals\":{\"aws:SourceArn\":"@
        + json_quoted(rule_arn)
        + "}},\"Effect\":\"Allow\",\"Principal\":{\"Service\":\"events.amazonaws.com\"},\"Resource\":"@
        + json_quoted(queue_arn) + "}],\"Version\":\"2012-10-17\"}"@
}

/// Builds the queue policy that lets the event service deliver to
/// `queue_arn` only from the rule `rule_arn`, not account-wide.
pub fn build_queue_policy(queue_arn: &str, rule_arn: &str) -> (r: Result<String, JsonError>)
    ensures
        r matches Ok(t) && t@ == queue_policy_json(queue_arn@, rule_arn@),
{
    let rq = match quoted(rule_arn) {
        Ok(q) => q,
        Err(e) => {
            return Err(e);
        },
    };
    let qq = match quoted(queue_arn) {
        Ok(q) => q,
        Err(e) => {
            return Err(e);
        },
    };
    let mut s = String::from_str(
        "{\"Statement\":[{\"Action\":\"sqs:SendMessage\",\"Condition\":{\"ArnEquals\":{\"aws:SourceArn\":",
    );
    s.append(rq.as_str());
    s.append("}},\"Effect\":\"Allow\",\"Principal\":{\"Service\":\"events.amazonaws.com\"},\"Resource\":");
    s.append(qq.as_str());
    s.append("}],\"Version\":\"2012-10-17\"}");
    Ok(s)
}

/// A redrive policy: after `max_receive_count` receives, messages move to the
/// dead-letter queue `dead_letter_arn`.
pub open spec fn redrive_policy_json(dead_letter_arn: Seq<char>, max_receive_count: i32) -> Seq<char> {
    "{\"deadLetterTargetArn\":"@ + json_quoted(dead_letter_arn) + ",\"maxReceiveCount\":"@
        + signed_decimal(max_receive_count as int) + "}"@
}

/// Builds the main queue's redrive policy towards the dead-letter queue.
pub fn build_redrive_policy(dead_letter_arn: &str, max_receive_count: i32) -> (r: Result<String, JsonError>)
    ensures
        r matches Ok(t) && t@ == redrive_policy_json(dead_letter_arn@, max_receive_count),
{
    let q = match quoted(dead_letter_arn) {
        Ok(q) => q,
        Err(e) => {
            return Err(e);
        },
    };
    let n = integer_text(max_receive_count as i64);
    let mut s = String::from_str("{\"deadLetterTargetArn\":");
    s.append(q.as_str());
    s.append(",\"maxReceiveCount\":");
    s.append(n.as_str());
    s.append("}");
    Ok(s)
}

} // verus!
