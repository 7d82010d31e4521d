//! The force-update policy: what the app does with the policy it fetched,
//! with the copy it cached, or with neither.
use vstd::prelude::*;

verus! {

/// The oldest app version allowed to run, and what to tell older ones.
#[derive(Debug)]
pub struct UpdatePolicy {
    pub min_required_version: String,
    pub message: String,
}

impl Default for UpdatePolicy {
    /// The permissive policy: every version (from 0.0.0) may run.
    fn default() -> (r: Self)
        ensures
            r.min_required_version@ == "0.0.0"@,
            r.message@ == "Please update to continue."@,
    {
        UpdatePolicy {
            min_required_version: "0.0.0".to_owned(),
            message: "Please update to continue.".to_owned(),
        }
    }
}

/// What the policy check does next.
#[derive(Debug)]
pub enum PolicyStep {
    /// A policy was fetched: it is the outcome, and is to be cached.
    Done(UpdatePolicy),
    /// No policy could be had from the network: fall back to the cached copy.
    ReadCache,
}

/// Decides after the request for the policy: `fetched` is `None` when the
/// request failed or was not answered with success, and otherwise the
/// answer's body read as a policy, or the error of reading it. Only a policy
/// read from the answer ends the check; every failure to get one falls back
/// to the cache, so that a network or server problem never locks anyone out.
pub fn policy_after_fetch(fetched: Option<Result<UpdatePolicy, String>>) -> (r: PolicyStep)
    ensures
        match fetched {
            Some(Ok(p)) => r == PolicyStep::Done(p),
            _ => r is ReadCache,
        },
{
    match fetched {
        Some(Ok(p)) => PolicyStep::Done(p),
        _ => PolicyStep::ReadCache,
    }
}

/// The policy when the network gave none: the cached copy when it could be
/// read, else the permissive default, so that a network failure never
/// locks anyone out.
pub fn policy_from_cache(cached: Option<UpdatePolicy>) -> (r: UpdatePolicy)
    ensures
        match cached {
            Some(p) => r == p,
            None => r.min_required_version@ == "0.0.0"@ && r.message@
                == "Please update to continue."@,
        },
{
    match cached {
        Some(p) => p,
        None => UpdatePolicy::default(),
    }
}

} // verus!
