//! The decisions of one invocation, taken on plain values: which profile
//! to resolve, whether the run may go on past the version gate, and what
//! the invocation is to do once secrets are at hand. Performing the steps —
//! file reads, the remote fetch, spawning the child — is the caller's part.

use vstd::prelude::*;
use crate::cli::{Command, CacheCommand};

verus! {

/// What one invocation is to do.
#[derive(Debug)]
pub enum RunPlan {
    /// Delete the profile's cache entry and stop.
    ClearCache,
    /// Zero the profile's cache timestamp and stop.
    InvalidateCache,
    /// Stop: the tool does not satisfy the configuration's requirement.
    FailVersion,
    /// Print the resolved secrets, revealed or redacted, and stop.
    Inspect(bool),
    /// Run the program with the resolved secrets as its environment.
    Launch(String, Vec<String>),
    /// Stop: nothing to run was named.
    FailNoProgram,
}

/// The profile a run resolves: the requested one, else "default".
pub fn resolve_profile_name(cli_profile: Option<String>) -> (r: String)
    ensures
        match cli_profile {
            Option::Some(p) => r@ == p@,
            Option::None => r@ == "default"@,
        },
{
    match cli_profile {
        Some(p) => p,
        None => "default".to_owned(),
    }
}

/// The program to run and its arguments: the first trailing word and the
/// rest, or nothing where no word was given.
pub fn get_program(slop: &Vec<String>) -> (r: Option<(String, Vec<String>)>)
    ensures
        match r {
            Option::Some(t) => slop@.len() > 0 && t.0@ == slop@[0]@
                && t.1@.len() == slop@.len() - 1
                && forall|i: int| 0 <= i < t.1@.len()
                    ==> (#[trigger] t.1@[i])@ == slop@[i + 1]@,
            Option::None => slop@.len() == 0,
        },
{
    if slop.len() == 0 {
        return None;
    }
    let program = slop[0].clone();
    let mut args: Vec<String> = Vec::new();
    let n = slop.len();
    let mut i: usize = 1;
    while i < n
        invariant
            1 <= i <= n,
            n == slop@.len(),
            args@.len() == i - 1,
            forall|k: int| 0 <= k < args@.len() ==> (#[trigger] args@[k])@ == slop@[k + 1]@,
        decreases n - i,
    {
        args.push(slop[i].clone());
        i += 1;
    }
    Some((program, args))
}

/// What the invocation does, in the order the run decides it: a cache
/// command wins outright; then the version gate; then inspection; then the
/// program, if one was named.
pub fn run_plan(command: &Option<Command>, version_ok: bool, slop: &Vec<String>) -> (r: RunPlan)
    ensures
        match command {
            Option::Some(Command::Cache(CacheCommand::Clear)) => r is ClearCache,
            Option::Some(Command::Cache(CacheCommand::Invalidate)) => r is InvalidateCache,
            _ => {
                if !version_ok {
                    r is FailVersion
                } else {
                    match command {
                        Option::Some(Command::Inspect(args)) => r == RunPlan::Inspect(
                            args.reveal,
                        ),
                        _ => {
                            match r {
                                RunPlan::Launch(p, a) => slop@.len() > 0 && p@ == slop@[0]@
                                    && a@.len() == slop@.len() - 1
                                    && forall|i: int| 0 <= i < a@.len()
                                        ==> (#[trigger] a@[i])@ == slop@[i + 1]@,
                                RunPlan::FailNoProgram => slop@.len() == 0,
                                _ => false,
                            }
                        },
                    }
                }
            },
        },
{
    match command {
        Some(Command::Cache(CacheCommand::Clear)) => {
            return RunPlan::ClearCache;
        },
        Some(Command::Cache(CacheCommand::Invalidate)) => {
            return RunPlan::InvalidateCache;
        },
        _ => {},
    }
    if !version_ok {
        return RunPlan::FailVersion;
    }
    if let Some(Command::Inspect(args)) = command {
        return RunPlan::Inspect(args.reveal);
    }
    match get_program(slop) {
        Some(t) => RunPlan::Launch(t.0, t.1),
        None => RunPlan::FailNoProgram,
    }
}

} // verus!
