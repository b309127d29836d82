//! The order in which an ICE agent is set up, and what a failed step means.
//! The caller performs each step and reports whether it succeeded.
use vstd::prelude::*;

verus! {

/// A step of setting up an ICE agent.
#[derive(Clone, Copy, Debug, PartialEq, Eq, Structural)]
pub enum SetupStage {
    /// Parse the local address `127.0.0.1`.
    SetAddress,
    /// Create the agent on the main context.
    CreateAgent,
    /// Give the agent its local address.
    AddLocalAddress,
    /// Add a stream and gather its candidates.
    GatherCandidates,
    /// Attach the receive callback to the stream.
    AttachReceiver,
}

/// What to do next.
#[derive(Debug)]
pub enum SetupAction {
    /// Perform this step.
    Run(SetupStage),
    /// Give up, with this error.
    Fail(String),
    /// The agent is ready.
    Finish,
}

/// The error that a failed step gives.
pub open spec fn stage_error(stage: SetupStage) -> Seq<char> {
    match stage {
        SetupStage::SetAddress => "an error occurred while setting the addr"@,
        SetupStage::CreateAgent => "agent creation failed"@,
        SetupStage::AddLocalAddress => "couldn't add local addr to agent"@,
        SetupStage::GatherCandidates => "either invalid stream id or couldnt allocate host candidate"@,
        SetupStage::AttachReceiver => Seq::empty(),
    }
}

/// The step after `stage`; none after the last.
pub open spec fn stage_after(stage: SetupStage) -> Option<SetupStage> {
    match stage {
        SetupStage::SetAddress => Some(SetupStage::CreateAgent),
        SetupStage::CreateAgent => Some(SetupStage::AddLocalAddress),
        SetupStage::AddLocalAddress => Some(SetupStage::GatherCandidates),
        SetupStage::GatherCandidates => Some(SetupStage::AttachReceiver),
        SetupStage::AttachReceiver => None,
    }
}

/// Whether a step can fail: attaching the receive callback cannot.
pub open spec fn stage_can_fail(stage: SetupStage) -> bool {
    stage != SetupStage::AttachReceiver
}

/// The action as a value: `Ok(Some(stage))` to run a step, `Ok(None)` when
/// ready, `Err(message)` on failure.
pub open spec fn action_view(a: SetupAction) -> Result<Option<SetupStage>, Seq<char>> {
    match a {
        SetupAction::Run(stage) => Ok(Some(stage)),
        SetupAction::Finish => Ok(None),
        SetupAction::Fail(e) => Err(e@),
    }
}

/// What follows a step that `succeeded` or not.
pub open spec fn next_action(stage: SetupStage, succeeded: bool) -> Result<Option<SetupStage>, Seq<char>> {
    if !succeeded && stage_can_fail(stage) {
        Err(stage_error(stage))
    } else {
        Ok(stage_after(stage))
    }
}

/// The first step.
pub fn setup_start() -> (a: SetupAction)
    ensures
        action_view(a) == Ok::<Option<SetupStage>, Seq<char>>(Some(SetupStage::SetAddress)),
{
    SetupAction::Run(SetupStage::SetAddress)
}

/// What to do after `stage`, which `succeeded` or not.
pub fn setup_next(stage: SetupStage, succeeded: bool) -> (a: SetupAction)
    ensures
        action_view(a) == next_action(stage, succeeded),
{
    if !succeeded {
        match stage {
            SetupStage::SetAddress => {
                return SetupAction::Fail("an error occurred while setting the addr".to_owned());
            },
            SetupStage::CreateAgent => {
                return SetupAction::Fail("agent creation failed".to_owned());
            },
            SetupStage::AddLocalAddress => {
                return SetupAction::Fail("couldn't add local addr to agent".to_owned());
            },
            SetupStage::GatherCandidates => {
                return SetupAction::Fail(
                    "either invalid stream id or couldnt allocate host candidate".to_owned(),
                );
            },
            SetupStage::AttachReceiver => {},
        }
    }
    match stage {
        SetupStage::SetAddress => SetupAction::Run(SetupStage::CreateAgent),
        SetupStage::CreateAgent => SetupAction::Run(SetupStage::AddLocalAddress),
        SetupStage::AddLocalAddress => SetupAction::Run(SetupStage::GatherCandidates),
        SetupStage::GatherCandidates => SetupAction::Run(SetupStage::AttachReceiver),
        SetupStage::AttachReceiver => SetupAction::Finish,
    }
}

/// Runs the steps from `stage` on, the i-th step run succeeding as
/// `outcomes[i]` says; gives where the setup ends.
pub open spec fn run_setup(stage: SetupStage, outcomes: Seq<bool>) -> Result<Option<SetupStage>, Seq<char>>
    decreases outcomes.len(),
{
    if outcomes.len() == 0 {
        Ok(Some(stage))
    } else {
        match next_action(stage, outcomes[0]) {
            Ok(Some(next)) => run_setup(next, outcomes.drop_first()),
            other => other,
        }
    }
}

/// Setting up an agent succeeds exactly when each of its four fallible steps
/// succeeds; otherwise it fails with the error of the first step that failed.
pub proof fn law_setup_succeeds_iff_all_steps_do(outcomes: Seq<bool>)
    requires
        outcomes.len() == 5,
    ensures
        (run_setup(SetupStage::SetAddress, outcomes) == Ok::<Option<SetupStage>, Seq<char>>(None))
            <==> (outcomes[0] && outcomes[1] && outcomes[2] && outcomes[3]),
        !outcomes[0] ==> run_setup(SetupStage::SetAddress, outcomes) == Err::<Option<SetupStage>, Seq<char>>(
            stage_error(SetupStage::SetAddress),
        ),
        outcomes[0] && !outcomes[1] ==> run_setup(SetupStage::SetAddress, outcomes) == Err::<
            Option<SetupStage>,
            Seq<char>,
        >(stage_error(SetupStage::CreateAgent)),
        outcomes[0] && outcomes[1] && !outcomes[2] ==> run_setup(SetupStage::SetAddress, outcomes)
            == Err::<Option<SetupStage>, Seq<char>>(stage_error(SetupStage::AddLocalAddress)),
        outcomes[0] && outcomes[1] && outcomes[2] && !outcomes[3] ==> run_setup(
            SetupStage::SetAddress,
            outcomes,
        ) == Err::<Option<SetupStage>, Seq<char>>(stage_error(SetupStage::GatherCandidates)),
{
    let o1 = outcomes.drop_first();
    let o2 = o1.drop_first();
    let o3 = o2.drop_first();
    let o4 = o3.drop_first();
    let o5 = o4.drop_first();
    assert(o1[0] == outcomes[1]);
    assert(o2[0] == outcomes[2]);
    assert(o3[0] == outcomes[3]);
    assert(o4[0] == outcomes[4]);
    assert(o5.len() == 0);
    reveal_with_fuel(run_setup, 6);
}

/// What the agent's answer to setting the remote credentials means: `0` is a
/// refusal.
pub fn credentials_result(code: i32) -> (r: Result<(), String>)
    ensures
        code == 0 <==> r is Err,
        r matches Err(e) ==> e@ == "couldn't set remote creds"@,
{
    if code == 0 {
        Err("couldn't set remote creds".to_owned())
    } else {
        Ok(())
    }
}

/// What the agent's answer to sending a packet means: a negative count is a
/// failure.
pub fn send_result(sent: i32) -> (r: Result<(), String>)
    ensures
        sent < 0 <==> r is Err,
        r matches Err(e) ==> e@ == "there was a problem sending the packet to the browser"@,
{
    if sent < 0 {
        Err("there was a problem sending the packet to the browser".to_owned())
    } else {
        Ok(())
    }
}

} // verus!
