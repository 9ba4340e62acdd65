use vstd::prelude::*;

verus! {

/// The lifecycle of the supervised terminal process. It only moves forward:
/// a stopped supervisor never runs again, and reconnecting takes a new one.
#[derive(Clone, Copy, Debug, PartialEq, Eq, Structural)]
pub enum SupervisorState {
    Unstarted,
    Running,
    Stopped,
}

/// The state after an attempt to spawn the process: a successful spawn of an
/// unstarted supervisor starts it; a failed one leaves it unstarted; any other
/// state stays as it is.
pub open spec fn after_spawn_spec(s: SupervisorState, spawned: bool) -> SupervisorState {
    if s == SupervisorState::Unstarted && spawned {
        SupervisorState::Running
    } else {
        s
    }
}

impl SupervisorState {
    pub fn after_spawn(self, spawned: bool) -> (r: SupervisorState)
        ensures
            r == after_spawn_spec(self, spawned),
    {
        if self == SupervisorState::Unstarted && spawned {
            SupervisorState::Running
        } else {
            self
        }
    }

    /// The state once the drain loop has ended, whatever ended it.
    pub fn after_drain_exit(self) -> (r: SupervisorState)
        ensures
            self == SupervisorState::Unstarted ==> r == SupervisorState::Unstarted,
            self != SupervisorState::Unstarted ==> r == SupervisorState::Stopped,
    {
        match self {
            SupervisorState::Unstarted => SupervisorState::Unstarted,
            _ => SupervisorState::Stopped,
        }
    }

    /// Whether commands may be written to the process.
    pub fn accepts_commands(self) -> (r: bool)
        ensures
            r == (self == SupervisorState::Running),
    {
        self == SupervisorState::Running
    }
}

/// What the operator can show on the board.
#[derive(Clone, Copy, Debug, PartialEq, Eq, Structural)]
pub enum Choice {
    /// The trusted design.
    Original,
    /// The tampered design.
    Malicious,
}

pub open spec fn command_of(c: Choice) -> Seq<char> {
    match c {
        Choice::Original => seq!['4'],
        Choice::Malicious => seq!['3'],
    }
}

pub open spec fn picture_of(c: Choice) -> Seq<char> {
    match c {
        Choice::Original => "images/trusted.png"@,
        Choice::Malicious => "images/malware.png"@,
    }
}

/// The command that the terminal process takes for a choice: one digit, with
/// no terminator.
pub fn command_for(c: Choice) -> (r: &'static str)
    ensures
        r@ == command_of(c),
{
    proof {
        reveal_strlit("4");
        reveal_strlit("3");
    }
    match c {
        Choice::Original => "4",
        Choice::Malicious => "3",
    }
}

/// The picture shown for a choice.
pub fn picture_for(c: Choice) -> (r: &'static str)
    ensures
        r@ == picture_of(c),
{
    match c {
        Choice::Original => "images/trusted.png",
        Choice::Malicious => "images/malware.png",
    }
}

} // verus!
