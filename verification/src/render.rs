//! The names and number formats that status lines and log records use.
use vstd::prelude::*;
use crate::config::{LogLevel, Signal};
use crate::text::{decimal, push_decimal, push_signed_decimal, push_str, signed_decimal};

verus! {

/// How a log level is printed.
pub open spec fn level_name(level: LogLevel) -> Seq<char> {
    match level {
        LogLevel::Error => "Error"@,
        LogLevel::Warn => "Warn"@,
        LogLevel::Notice => "Notice"@,
        LogLevel::Debug => "Debug"@,
    }
}

/// Appends the name of a log level.
pub fn push_level_name(out: &mut Vec<char>, level: LogLevel)
    ensures
        final(out)@ == old(out)@ + level_name(level),
{
    match level {
        LogLevel::Error => push_str(out, "Error"),
        LogLevel::Warn => push_str(out, "Warn"),
        LogLevel::Notice => push_str(out, "Notice"),
        LogLevel::Debug => push_str(out, "Debug"),
    }
}

/// How a signal is printed.
pub open spec fn signal_name(signal: Signal) -> Seq<char> {
    match signal {
        Signal::Hangup => "Hangup"@,
        Signal::Terminate => "Terminate"@,
        Signal::Kill => "Kill"@,
    }
}

/// Appends the name of a signal.
pub fn push_signal_name(out: &mut Vec<char>, signal: Signal)
    ensures
        final(out)@ == old(out)@ + signal_name(signal),
{
    match signal {
        Signal::Hangup => push_str(out, "Hangup"),
        Signal::Terminate => push_str(out, "Terminate"),
        Signal::Kill => push_str(out, "Kill"),
    }
}

/// How an optional exit code is printed in a log detail.
pub open spec fn opt_code_text(code: Option<i32>) -> Seq<char> {
    match code {
        Some(c) => "Some("@ + signed_decimal(c as int) + ")"@,
        None => "None"@,
    }
}

/// Appends an exit code, or `None`.
pub fn push_opt_code(out: &mut Vec<char>, code: Option<i32>)
    ensures
        final(out)@ == old(out)@ + opt_code_text(code),
{
    match code {
        Some(c) => {
            push_str(out, "Some(");
            push_signed_decimal(out, c as i64);
            push_str(out, ")");
            assert(final(out)@ =~= old(out)@ + opt_code_text(code));
        },
        None => push_str(out, "None"),
    }
}

/// How an optional signal number is printed in a log detail.
pub open spec fn opt_number_text(n: Option<u32>) -> Seq<char> {
    match n {
        Some(c) => "Some("@ + decimal(c as nat) + ")"@,
        None => "None"@,
    }
}

/// Appends a signal number, or `None`.
pub fn push_opt_number(out: &mut Vec<char>, n: Option<u32>)
    ensures
        final(out)@ == old(out)@ + opt_number_text(n),
{
    match n {
        Some(c) => {
            push_str(out, "Some(");
            push_decimal(out, c as u64);
            push_str(out, ")");
            assert(final(out)@ =~= old(out)@ + opt_number_text(n));
        },
        None => push_str(out, "None"),
    }
}

} // verus!
