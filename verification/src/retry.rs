//! When to try again: the decisions between the attempts of a command and
//! of a fetch. Running, fetching and waiting are the caller's.

use vstd::prelude::*;
use crate::error::{Error, ErrorView};

verus! {

/// The seconds to wait before another attempt.
pub const RETRY_DELAY_SECONDS: u64 = 3;

/// What to do about a command that is to be run up to `max` more times
/// after its first attempt.
#[derive(Debug, Clone, Copy, PartialEq, Eq, Structural)]
pub enum CommandStep {
    /// Run the command.
    Run,
    /// Stop, and report whether the command succeeded.
    Finish(bool),
    /// Wait for the given seconds, then take the attempt of the given
    /// number.
    RetryAfter { seconds: u64, retry: u8 },
}

/// The step before attempt number `retry` (from 0): run it unless more than
/// `max` attempts have failed already.
pub fn before_attempt(retry: u8, max: u8) -> (r: CommandStep)
    ensures
        r == if retry > max {
            CommandStep::Finish(false)
        } else {
            CommandStep::Run
        },
{
    if retry > max {
        CommandStep::Finish(false)
    } else {
        CommandStep::Run
    }
}

/// The step after attempt number `retry`: a success ends the run, a failure
/// is followed by the next attempt after the fixed delay, or ends the run
/// where the attempts can be counted no further.
pub fn after_attempt(retry: u8, succeeded: bool) -> (r: CommandStep)
    ensures
        r == if succeeded {
            CommandStep::Finish(true)
        } else if retry == u8::MAX {
            CommandStep::Finish(false)
        } else {
            CommandStep::RetryAfter { seconds: RETRY_DELAY_SECONDS, retry: (retry + 1) as u8 }
        },
{
    if succeeded {
        CommandStep::Finish(true)
    } else if retry == u8::MAX {
        CommandStep::Finish(false)
    } else {
        CommandStep::RetryAfter { seconds: RETRY_DELAY_SECONDS, retry: retry + 1 }
    }
}

/// What to do when the description of a namespace could not be fetched:
/// after the first failure wait the fixed delay and try once more, after
/// the second give up.
pub fn metadata_retry(failures: u8) -> (r: Option<u64>)
    ensures
        r == if failures == 1 {
            Some(RETRY_DELAY_SECONDS)
        } else {
            None
        },
{
    if failures == 1 {
        Some(RETRY_DELAY_SECONDS)
    } else {
        None
    }
}

/// The package manager to install with: the first of `pnpm`, `yarn` and
/// `npm` that is there. Where none is, `npm` is named as missing.
pub fn choose_package_manager(pnpm: bool, yarn: bool, npm: bool) -> (r: Result<&'static str, Error>)
    ensures
        match r {
            Ok(name) => (pnpm || yarn || npm) && name@ == if pnpm {
                "pnpm"@
            } else if yarn {
                "yarn"@
            } else {
                "npm"@
            },
            Err(e) => !pnpm && !yarn && !npm && e@ == ErrorView::MissingEnv("npm"@),
        },
{
    if pnpm {
        Ok("pnpm")
    } else if yarn {
        Ok("yarn")
    } else if npm {
        Ok("npm")
    } else {
        Err(Error::MissingEnv("npm".to_owned()))
    }
}

} // verus!
