//! What is sent to Discord for a presence, and the order of attempts when
//! sending it fails.

use vstd::prelude::*;
use crate::settings::{RpcRule, opt_view};

verus! {

/// The images and their hover texts of an activity.
#[derive(Clone, Debug)]
pub struct AssetsPlan {
    pub large_image: Option<String>,
    pub large_text: Option<String>,
    pub small_image: Option<String>,
    pub small_text: Option<String>,
}

/// The fields of the Discord activity that is set for a presence.
#[derive(Clone, Debug)]
pub struct ActivityPlan {
    pub state: Option<String>,
    pub details: Option<String>,
    pub assets: Option<AssetsPlan>,
}

fn copy_opt(o: &Option<String>) -> (r: Option<String>)
    ensures
        opt_view(r) == opt_view(*o),
{
    match o {
        Some(s) => Some(s.clone()),
        None => None,
    }
}

/// The activity for `rule`: its state and details; and, where it names a large
/// or a small image, the assets with its images and texts (texts alone are not sent).
pub fn build_activity(rule: &RpcRule) -> (a: ActivityPlan)
    ensures
        opt_view(a.state) == opt_view(rule.state),
        opt_view(a.details) == opt_view(rule.details),
        a.assets is Some <==> (rule.large_image is Some || rule.small_image is Some),
        a.assets matches Some(x) ==> {
            &&& opt_view(x.large_image) == opt_view(rule.large_image)
            &&& opt_view(x.large_text) == opt_view(rule.large_text)
            &&& opt_view(x.small_image) == opt_view(rule.small_image)
            &&& opt_view(x.small_text) == opt_view(rule.small_text)
        },
{
    let assets = if rule.large_image.is_some() || rule.small_image.is_some() {
        Some(
            AssetsPlan {
                large_image: copy_opt(&rule.large_image),
                large_text: copy_opt(&rule.large_text),
                small_image: copy_opt(&rule.small_image),
                small_text: copy_opt(&rule.small_text),
            },
        )
    } else {
        None
    };
    ActivityPlan { state: copy_opt(&rule.state), details: copy_opt(&rule.details), assets }
}

/// The attempts that setting an activity goes through.
#[derive(Clone, Copy, Debug, PartialEq, Eq)]
pub enum UpdatePhase {
    /// Setting the activity.
    Send,
    /// Reconnecting after setting it failed.
    Reconnect,
    /// Setting it once more after reconnecting.
    Retry,
}

/// How many attempts may still follow a phase.
pub open spec fn attempts_left(p: UpdatePhase) -> nat {
    match p {
        UpdatePhase::Send => 2,
        UpdatePhase::Reconnect => 1,
        UpdatePhase::Retry => 0,
    }
}

/// The phase that follows `phase` when its attempt `succeeded`, or `None`
/// when the update is over: a failed send is followed by a reconnect, a
/// successful reconnect by one more send; anything else ends it.
pub open spec fn next_phase(phase: UpdatePhase, succeeded: bool) -> Option<UpdatePhase> {
    match phase {
        UpdatePhase::Send => if succeeded {
            None
        } else {
            Some(UpdatePhase::Reconnect)
        },
        UpdatePhase::Reconnect => if succeeded {
            Some(UpdatePhase::Retry)
        } else {
            None
        },
        UpdatePhase::Retry => None::<UpdatePhase>,
    }
}

/// The phase that follows `phase` when its attempt `succeeded`.
pub fn update_next(phase: UpdatePhase, succeeded: bool) -> (r: Option<UpdatePhase>)
    ensures
        r == next_phase(phase, succeeded),
{
    match phase {
        UpdatePhase::Send => if succeeded {
            None
        } else {
            Some(UpdatePhase::Reconnect)
        },
        UpdatePhase::Reconnect => if succeeded {
            Some(UpdatePhase::Retry)
        } else {
            None
        },
        UpdatePhase::Retry => None,
    }
}

/// An update ends: each phase is followed by one with fewer attempts left, so
/// an update makes at most three attempts, of which at most two are sends.
pub proof fn lemma_update_ends(phase: UpdatePhase, succeeded: bool)
    ensures
        next_phase(phase, succeeded) matches Some(p) ==> attempts_left(p) < attempts_left(phase),
        next_phase(phase, succeeded) == Some(UpdatePhase::Send) ==> false,
{
}

} // verus!
