//! Decisions of the long-running daemon around the engine: whether a queue
//! message may be acknowledged, how long to back off after a failed poll,
//! which log settings win, and the permission modes of mirrored files.
use vstd::prelude::*;

use crate::provider::{ChangeEvent, EventError};
use crate::text::{chars_of, copy_string};

verus! {

/// Seconds to wait after a failed poll before polling again.
pub const POLL_BACKOFF_SECS: u64 = 5;

/// How handling one queue message ended.
#[derive(Clone, Copy, Debug, PartialEq, Eq, Structural)]
pub enum MessageOutcome {
    /// It reported no change that concerns this mirror.
    Irrelevant,
    /// Its changes were applied.
    Applied,
    /// Applying its changes failed.
    ApplyFailed,
    /// It could not be parsed.
    Unparsable,
}

/// What to do with a parsed message.
pub enum MessagePlan {
    /// Apply these change events, then settle the message by the outcome.
    Apply(Vec<ChangeEvent>),
    /// Nothing to apply; settle the message with this outcome.
    Settle(MessageOutcome),
}

/// Decides what a parsed message asks for: events to apply, nothing
/// relevant, or a parse failure.
pub fn plan_message(parsed: Result<Vec<ChangeEvent>, EventError>) -> (r: MessagePlan)
    ensures
        match parsed {
            Ok(v) => if v@.len() == 0 {
                r == MessagePlan::Settle(MessageOutcome::Irrelevant)
            } else {
                r == MessagePlan::Apply(v)
            },
            Err(_) => r == MessagePlan::Settle(MessageOutcome::Unparsable),
        },
        r matches MessagePlan::Settle(o) ==> forall|b: bool| o == #[trigger] message_outcome(parsed, b),
{
    match parsed {
        Ok(v) => if v.len() == 0 {
            MessagePlan::Settle(MessageOutcome::Irrelevant)
        } else {
            MessagePlan::Apply(v)
        },
        Err(_) => MessagePlan::Settle(MessageOutcome::Unparsable),
    }
}

/// A message is deleted from the queue only when it was applied, or when it
/// concerns nothing here.
pub open spec fn acknowledged(outcome: MessageOutcome) -> bool {
    outcome == MessageOutcome::Irrelevant || outcome == MessageOutcome::Applied
}

/// How handling a message ends, given its parse and, when it asked for
/// events to be applied, whether applying them succeeded.
pub open spec fn message_outcome(parsed: Result<Vec<ChangeEvent>, EventError>, apply_ok: bool) -> MessageOutcome {
    match parsed {
        Ok(v) => if v@.len() == 0 {
            MessageOutcome::Irrelevant
        } else if apply_ok {
            MessageOutcome::Applied
        } else {
            MessageOutcome::ApplyFailed
        },
        Err(_) => MessageOutcome::Unparsable,
    }
}

/// The outcome of a message whose events were applied, by whether applying
/// them succeeded.
pub fn outcome_after_apply(apply_ok: bool) -> (r: MessageOutcome)
    ensures
        r == (if apply_ok { MessageOutcome::Applied } else { MessageOutcome::ApplyFailed }),
{
    if apply_ok {
        MessageOutcome::Applied
    } else {
        MessageOutcome::ApplyFailed
    }
}

/// A message is acknowledged exactly once it was handled: it parsed, and
/// either it reported nothing relevant or its events were applied. A message
/// that does not parse, or whose events failed to apply, is left for
/// redelivery (or the dead-letter queue). Planning a message and then
/// settling it by the apply result gives this outcome.
pub proof fn law_acknowledged_iff_handled(parsed: Result<Vec<ChangeEvent>, EventError>, apply_ok: bool)
    ensures
        acknowledged(message_outcome(parsed, apply_ok)) <==> (parsed is Ok && (parsed->Ok_0@.len() == 0 || apply_ok)),
        parsed matches Ok(v) && v@.len() > 0 ==> message_outcome(parsed, apply_ok) == (if apply_ok {
            MessageOutcome::Applied
        } else {
            MessageOutcome::ApplyFailed
        }),
        !(parsed matches Ok(v) && v@.len() > 0) ==> message_outcome(parsed, apply_ok) == message_outcome(parsed, !apply_ok),
{
}

/// Whether a message is deleted from the queue. Only a message that was
/// applied, or that concerns nothing here, is acknowledged; a failed one is
/// left for redelivery (or the dead-letter queue).
pub fn acknowledge(outcome: MessageOutcome) -> (r: bool)
    ensures
        r == acknowledged(outcome),
        r <==> (outcome == MessageOutcome::Irrelevant || outcome == MessageOutcome::Applied),
{
    match outcome {
        MessageOutcome::Irrelevant => true,
        MessageOutcome::Applied => true,
        MessageOutcome::ApplyFailed => false,
        MessageOutcome::Unparsable => false,
    }
}

/// A command-line setting overrides the configured one.
pub fn pick_setting(flag: Option<String>, configured: &String) -> (r: String)
    ensures
        r@ == match flag {
            Some(f) => f@,
            None => configured@,
        },
{
    match flag {
        Some(f) => f,
        None => copy_string(configured),
    }
}

/// The value of an octal digit.
pub open spec fn octal_digit(c: char) -> bool {
    '0' <= c && c <= '7'
}

/// The value of a text of octal digits.
pub open spec fn octal_value(ds: Seq<char>) -> nat
    decreases ds.len(),
{
    if ds.len() == 0 {
        0
    } else {
        8 * octal_value(ds.drop_last()) + ((ds.last() as int) - ('0' as int)) as nat
    }
}

/// The digits of a mode text: all of it, or what follows one leading '+'.
pub open spec fn mode_digits(s: Seq<char>) -> Seq<char> {
    if s.len() > 0 && s[0] == '+' {
        s.drop_first()
    } else {
        s
    }
}

/// What `u32::from_str_radix(s, 8)` accepts: an optional '+', then one or
/// more octal digits, of value below 2^32.
pub open spec fn valid_mode_text(s: Seq<char>) -> bool {
    let ds = mode_digits(s);
    &&& ds.len() > 0
    &&& forall|i: int| 0 <= i < ds.len() ==> octal_digit(#[trigger] ds[i])
    &&& octal_value(ds) <= u32::MAX
}

proof fn lemma_octal_prefix_grows(ds: Seq<char>, k: int)
    requires
        0 <= k <= ds.len(),
        forall|i: int| 0 <= i < ds.len() ==> octal_digit(#[trigger] ds[i]),
    ensures
        octal_value(ds.take(k)) <= octal_value(ds),
    decreases ds.len() - k,
{
    if k == ds.len() {
        assert(ds.take(k) =~= ds);
    } else {
        lemma_octal_prefix_grows(ds, k + 1);
        assert(ds.take(k + 1).drop_last() =~= ds.take(k));
    }
}

/// Why a permission mode text was rejected.
#[derive(Debug)]
pub struct ModeError {
    pub text: String,
}

/// Parses a permission mode written in octal (as `u32::from_str_radix(s, 8)`).
pub fn parse_mode(s: &str) -> (r: Result<u32, ModeError>)
    ensures
        r is Ok <==> valid_mode_text(s@),
        r matches Ok(v) ==> v as int == octal_value(mode_digits(s@)),
        r matches Err(e) ==> e.text@ == s@,
{
    let cs = chars_of(s);
    let start: usize = if cs.len() > 0 && cs[0] == '+' {
        1
    } else {
        0
    };
    let ghost ds = mode_digits(s@);
    assert(ds =~= cs@.skip(start as int));
    if start >= cs.len() {
        return Err(ModeError { text: crate::text::owned(s) });
    }
    let mut acc: u64 = 0;
    let mut i: usize = start;
    while i < cs.len()
        invariant
            cs@ == s@,
            start <= i <= cs.len(),
            ds == cs@.skip(start as int),
            ds == mode_digits(s@),
            acc as int == octal_value(ds.take(i - start)),
            acc <= u32::MAX,
            forall|j: int| 0 <= j < i - start ==> octal_digit(#[trigger] ds[j]),
        decreases cs.len() - i,
    {
        let c = cs[i];
        assert(ds[i - start] == c);
        if !('0' <= c && c <= '7') {
            assert(!octal_digit(ds[i - start]));
            return Err(ModeError { text: crate::text::owned(s) });
        }
        let d: u64 = (c as u64) - ('0' as u64);
        assert(d as int == (c as int) - ('0' as int));
        proof {
            assert(ds.take(i - start + 1).drop_last() =~= ds.take(i - start));
            assert(ds.take(i - start + 1).last() == c);
        }
        let next: u64 = acc * 8 + d;
        if next > 4294967295u64 {
            proof {
                assert(octal_value(ds.take(i - start + 1)) == next);
                if forall|j: int| 0 <= j < ds.len() ==> octal_digit(#[trigger] ds[j]) {
                    lemma_octal_prefix_grows(ds, i - start + 1);
                }
            }
            return Err(ModeError { text: crate::text::owned(s) });
        }
        acc = next;
        i = i + 1;
    }
    assert(ds.take(i - start) =~= ds);
    Ok(acc as u32)
}

/// Whether a mode grants anything to group or others (bits 0o077).
pub fn shared_with_others(mode: u32) -> (r: bool)
    ensures
        r == (mode % 64 != 0),
{
    let low = mode & 0o077;
    assert(mode & 0o077u32 == mode % 64) by (bit_vector);
    low != 0
}

} // verus!
