//! The pieces of the command line the core consumes: the metric selector
//! of the top command, argument validation for a recording run, and
//! duration parsing.

use vstd::prelude::*;

use crate::strutil::{all_dec_digits, dec_val, parse_dec_range};

verus! {

/// Which table the top command prints.
#[derive(Clone, Copy, PartialEq, Eq, Structural)]
pub enum TopMetric {
    /// CPU samples.
    Cpu,
    /// Heap counters.
    Heap,
}

/// The milliseconds a duration string denotes, when the duration library
/// accepts it. The parse depends on the characters alone. A duration
/// whose millisecond count exceeds the counter is truncated to its low
/// bits; the name absorbs that rendering.
pub uninterp spec fn parsed_duration_ms(s: Seq<char>) -> Option<u64>;

/// Parse a human-readable duration into milliseconds.
///
/// Relies on `humantime::parse_duration`, a pure parser of suffixed
/// duration strings such as a count of seconds, minutes or hours. Its
/// arithmetic is checked except for one corner: a parse whose seconds
/// reach exactly the counter's maximum while a later component lands the
/// nanosecond total on exactly one billion panics in the final carry.
/// Reaching that exact maximum needs either a twenty-digit second count
/// or a twelve-digit year count plus at least one further component, more
/// than thirteen characters either way, so the bound below keeps every
/// admitted input on the checked paths.
#[verifier::external_body]
fn parse_humantime_ms(s: &str) -> (r: Option<u64>)
    requires
        s@.len() <= 13,
    ensures
        r == parsed_duration_ms(s@),
{
    match humantime::parse_duration(s) {
        Ok(d) => Some(d.as_millis() as u64),
        Err(_) => None,
    }
}

/// Parse a duration argument: a suffixed duration string of at most
/// thirteen characters, or a bare number of seconds of any length.
/// Longer suffixed strings are rejected rather than handed to the
/// duration grammar, which keeps this function total on every input.
pub fn parse_duration_arg(s: &str) -> (r: Option<u64>)
    ensures
        s@.len() <= 13 && parsed_duration_ms(s@) is Some ==> r == parsed_duration_ms(s@),
        (s@.len() > 13 || parsed_duration_ms(s@) is None) ==> match r {
            Some(ms) => s@.len() > 0 && all_dec_digits(s@) && dec_val(s@) * 1000 <= u64::MAX && ms
                == dec_val(s@) * 1000,
            None => s@.len() == 0 || !all_dec_digits(s@) || dec_val(s@) * 1000 > u64::MAX,
        },
{
    let len = s.unicode_len();
    let from_suffixed: Option<u64> = if len <= 13 {
        parse_humantime_ms(s)
    } else {
        None
    };
    match from_suffixed {
        Some(ms) => Some(ms),
        None => {
            match parse_dec_range(s, 0, len) {
                Some(secs) => {
                    proof {
                        assert(s@.subrange(0, s@.len() as int) =~= s@);
                    }
                    if secs <= u64::MAX / 1000 {
                        Some(secs * 1000)
                    } else {
                        None
                    }
                },
                None => {
                    proof {
                        assert(s@.subrange(0, s@.len() as int) =~= s@);
                    }
                    None
                },
            }
        },
    }
}

/// Validate the arguments of a recording run: a target (by id or by
/// name) must be given, and the sampling frequency must be a positive
/// number of hertz no greater than ten thousand.
pub fn validate_record_args(has_pid: bool, has_process: bool, cpu_freq: u64) -> (r: Result<
    (),
    crate::error::ProfError,
>)
    ensures
        r is Ok <==> (has_pid || has_process) && 1 <= cpu_freq <= 10000,
        r is Err ==> r->Err_0 is InvalidArgument,
{
    if !has_pid && !has_process {
        return Err(
            crate::error::ProfError::InvalidArgument(
                "either a process id or a process name is required for recording".to_owned(),
            ),
        );
    }
    if cpu_freq == 0 || cpu_freq > 10000 {
        return Err(
            crate::error::ProfError::InvalidArgument(
                "the sampling frequency must be between 1 and 10000 hertz".to_owned(),
            ),
        );
    }
    Ok(())
}

} // verus!
