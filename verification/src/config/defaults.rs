//! Default values for optional configuration settings.
use vstd::prelude::*;

use super::TimeSpan;

verus! {

/// Decrypt secure values by default.
pub fn decrypt() -> (r: bool)
    ensures
        r,
{
    true
}

/// Directories are created owner-only.
pub fn dir_perm() -> (r: String)
    ensures
        r@ == "0700"@,
{
    "0700".to_string()
}

/// Files are written owner-read/write only.
pub fn file_perm() -> (r: String)
    ensures
        r@ == "0600"@,
{
    "0600".to_string()
}

/// Long-poll wait, in seconds.
pub fn wait_time_seconds() -> (r: i32)
    ensures
        r == 20,
{
    20
}

/// Messages received per poll.
pub fn max_messages() -> (r: i32)
    ensures
        r == 10,
{
    10
}

/// Visibility timeout of received messages, in seconds.
pub fn visibility_timeout() -> (r: i32)
    ensures
        r == 30,
{
    30
}

/// How long the on-change command may run.
pub fn on_change_timeout() -> (r: TimeSpan)
    ensures
        r.secs == 30,
        r.nanos == 0,
{
    TimeSpan::from_secs(30)
}

/// How long the notifications must be quiet before the command runs.
pub fn on_change_debounce() -> (r: TimeSpan)
    ensures
        r.secs == 2,
        r.nanos == 0,
{
    TimeSpan::from_secs(2)
}

/// The event bus the rule is created on.
pub fn setup_event_bus_name() -> (r: String)
    ensures
        r@ == "default"@,
{
    "default".to_string()
}

/// Visibility timeout of the provisioned queue, in seconds.
pub fn setup_visibility_timeout() -> (r: i32)
    ensures
        r == 30,
{
    30
}

/// Message retention of the provisioned queue, in seconds (four days).
pub fn setup_message_retention_seconds() -> (r: i32)
    ensures
        r == 345_600,
{
    345_600
}

/// Receives before a message moves to the dead-letter queue.
pub fn dlq_max_receive_count() -> (r: i32)
    ensures
        r == 5,
{
    5
}

/// Log level.
pub fn log_level() -> (r: String)
    ensures
        r@ == "info"@,
{
    "info".to_string()
}

/// Log format.
pub fn log_format() -> (r: String)
    ensures
        r@ == "text"@,
{
    "text".to_string()
}

} // verus!
