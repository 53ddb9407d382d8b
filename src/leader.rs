use vstd::prelude::*;

verus! {

/// Where the root driver stands.
#[derive(Clone, Copy, Debug, PartialEq, Eq, Structural)]
pub enum LeaderPhase {
    /// Looking for the local replica of the metadata group.
    WaitForReplica,
    /// Waiting for that replica to lead its group.
    WaitForLeadership,
    /// Serving as root.
    Leading,
}

/// What the driver observed.
#[derive(Clone, Copy, Debug, PartialEq, Eq, Structural)]
pub enum LeaderEvent {
    /// The routing table names the metadata group's replica.
    ReplicaFound,
    /// The routing table names none yet; the driver was woken.
    ReplicaMissing,
    /// The replica leads its group.
    LeadershipAcquired,
    /// The replica failed to become leader.
    LeadershipFailed,
    /// One heartbeat round ended well.
    HeartbeatDone,
    /// The replica lost its leadership.
    LeadershipLost,
    /// An error that ends the current term.
    Fatal,
}

/// What the driver does next.
#[derive(Clone, Copy, Debug, PartialEq, Eq, Structural)]
pub enum LeaderAction {
    /// Ask the routing table for the replica, registering to be woken.
    LocateReplica,
    /// Wait until the replica leads.
    AwaitLeadership,
    /// Build the schema over the replica and install the root core.
    StepLeader,
    /// Sleep one interval, then send a heartbeat round.
    Heartbeat,
    /// Clear the root core.
    StepFollower,
}

/// The action that keeps the driver in `phase`.
pub open spec fn stay_action(phase: LeaderPhase) -> LeaderAction {
    match phase {
        LeaderPhase::WaitForReplica => LeaderAction::LocateReplica,
        LeaderPhase::WaitForLeadership => LeaderAction::AwaitLeadership,
        LeaderPhase::Leading => LeaderAction::Heartbeat,
    }
}

/// One step of the root driver: from its phase and what it observed, the
/// next phase and what to do. Leaving `Leading`, whatever the cause, always
/// clears the root core; a failure anywhere restarts the search for the replica.
pub fn next_phase(phase: LeaderPhase, event: LeaderEvent) -> (r: (LeaderPhase, LeaderAction))
    ensures
        phase == LeaderPhase::WaitForReplica && event == LeaderEvent::ReplicaFound
            ==> r == (LeaderPhase::WaitForLeadership, LeaderAction::AwaitLeadership),
        phase == LeaderPhase::WaitForLeadership && event == LeaderEvent::LeadershipAcquired
            ==> r == (LeaderPhase::Leading, LeaderAction::StepLeader),
        phase == LeaderPhase::Leading && event == LeaderEvent::HeartbeatDone
            ==> r == (LeaderPhase::Leading, LeaderAction::Heartbeat),
        phase == LeaderPhase::Leading && (event == LeaderEvent::LeadershipLost || event
            == LeaderEvent::Fatal || event == LeaderEvent::LeadershipFailed)
            ==> r == (LeaderPhase::WaitForReplica, LeaderAction::StepFollower),
        phase != LeaderPhase::Leading && (event == LeaderEvent::LeadershipFailed || event
            == LeaderEvent::LeadershipLost || event == LeaderEvent::Fatal)
            ==> r == (LeaderPhase::WaitForReplica, LeaderAction::LocateReplica),
        phase == LeaderPhase::Leading && r.0 != LeaderPhase::Leading ==> r.1
            == LeaderAction::StepFollower,
        r.0 == LeaderPhase::Leading && phase != LeaderPhase::Leading ==> r.1 == LeaderAction::StepLeader,
        r.1 == LeaderAction::StepLeader ==> phase == LeaderPhase::WaitForLeadership && event
            == LeaderEvent::LeadershipAcquired,
        !(phase == LeaderPhase::WaitForReplica && event == LeaderEvent::ReplicaFound)
            && !(phase == LeaderPhase::WaitForLeadership && event == LeaderEvent::LeadershipAcquired)
            && event != LeaderEvent::LeadershipFailed && event != LeaderEvent::LeadershipLost
            && event != LeaderEvent::Fatal ==> r == (phase, stay_action(phase)),
{
    match (phase, event) {
        (LeaderPhase::Leading, LeaderEvent::LeadershipLost)
        | (LeaderPhase::Leading, LeaderEvent::Fatal)
        | (LeaderPhase::Leading, LeaderEvent::LeadershipFailed) => (
            LeaderPhase::WaitForReplica,
            LeaderAction::StepFollower,
        ),
        (_, LeaderEvent::LeadershipLost)
        | (_, LeaderEvent::Fatal)
        | (_, LeaderEvent::LeadershipFailed) => (LeaderPhase::WaitForReplica, LeaderAction::LocateReplica),
        (LeaderPhase::WaitForReplica, LeaderEvent::ReplicaFound) => (
            LeaderPhase::WaitForLeadership,
            LeaderAction::AwaitLeadership,
        ),
        (LeaderPhase::WaitForLeadership, LeaderEvent::LeadershipAcquired) => (
            LeaderPhase::Leading,
            LeaderAction::StepLeader,
        ),
        (LeaderPhase::WaitForReplica, _) => (LeaderPhase::WaitForReplica, LeaderAction::LocateReplica),
        (LeaderPhase::WaitForLeadership, _) => (
            LeaderPhase::WaitForLeadership,
            LeaderAction::AwaitLeadership,
        ),
        (LeaderPhase::Leading, _) => (LeaderPhase::Leading, LeaderAction::Heartbeat),
    }
}

} // verus!
