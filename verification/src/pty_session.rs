//! A terminal session: set up a PTY, run a shell in it, relay, and end the shell.

use crate::error::{ErrorText, NodegetError};
use crate::relay::TerminalSize;
use vstd::prelude::*;

verus! {

/// The size of a terminal that was not resized.
pub open spec fn first_size() -> TerminalSize {
    TerminalSize { rows: 24, cols: 80, pixel_width: 0, pixel_height: 0 }
}

/// The environment that the shell gets besides the inherited one.
pub open spec fn shell_env(windows: bool) -> Seq<(Seq<char>, Seq<char>)> {
    if windows {
        seq![]
    } else {
        seq![
            ("TERM"@, "xterm-256color"@),
            ("LANG"@, "C.UTF-8"@),
            ("LC_ALL"@, "C.UTF-8"@),
        ]
    }
}

/// The environment that the shell gets besides the inherited one: none on Windows.
pub fn terminal_env(windows: bool) -> (r: Vec<(String, String)>)
    ensures
        crate::outside::pair_texts(r@) == shell_env(windows),
        windows ==> r@.len() == 0,
        !windows ==> {
            &&& r@.len() == 3
            &&& r@[0].0@ == "TERM"@ && r@[0].1@ == "xterm-256color"@
            &&& r@[1].0@ == "LANG"@ && r@[1].1@ == "C.UTF-8"@
            &&& r@[2].0@ == "LC_ALL"@ && r@[2].1@ == "C.UTF-8"@
        },
{
    let mut env: Vec<(String, String)> = Vec::new();
    if !windows {
        env.push(("TERM".to_owned(), "xterm-256color".to_owned()));
        env.push(("LANG".to_owned(), "C.UTF-8".to_owned()));
        env.push(("LC_ALL".to_owned(), "C.UTF-8".to_owned()));
    }
    assert(crate::outside::pair_texts(env@) =~= shell_env(windows));
    env
}

/// What a session is doing.
#[derive(Debug, Clone, Copy, PartialEq, Eq, Structural)]
pub enum SessionPhase {
    OpeningPty,
    CloningReader,
    TakingWriter,
    Spawning,
    Relaying,
    Killing,
    Waiting,
}

/// The phase after one that is done.
pub open spec fn next_phase(phase: SessionPhase) -> Option<SessionPhase> {
    match phase {
        SessionPhase::OpeningPty => Some(SessionPhase::CloningReader),
        SessionPhase::CloningReader => Some(SessionPhase::TakingWriter),
        SessionPhase::TakingWriter => Some(SessionPhase::Spawning),
        SessionPhase::Spawning => Some(SessionPhase::Relaying),
        SessionPhase::Relaying => Some(SessionPhase::Killing),
        SessionPhase::Killing => Some(SessionPhase::Waiting),
        SessionPhase::Waiting => None,
    }
}

/// What is said where a phase fails; nothing where the session goes on regardless.
pub open spec fn failure_text(phase: SessionPhase) -> Option<Seq<char>> {
    match phase {
        SessionPhase::OpeningPty => Some("Failed to create PTY: "@),
        SessionPhase::CloningReader => Some("Failed to get PTY Reader: "@),
        SessionPhase::TakingWriter => Some("Failed to get PTY Writer: "@),
        SessionPhase::Spawning => Some("Failed to spawn process: "@),
        SessionPhase::Relaying => None,
        SessionPhase::Killing => None,
        SessionPhase::Waiting => Some("Failed to wait for child process: "@),
    }
}

/// The outcome of a phase over texts.
pub open spec fn phase_outcome(outcome: Result<(), String>) -> Result<(), Seq<char>> {
    match outcome {
        Ok(()) => Ok(()),
        Err(e) => Err(e@),
    }
}

/// What follows a phase with this outcome: another phase, or the outcome of the session.
pub open spec fn after_phase(phase: SessionPhase, outcome: Result<(), Seq<char>>) -> Result<
    SessionPhase,
    Result<(), ErrorText>,
> {
    match (outcome, failure_text(phase)) {
        (Err(e), Some(text)) => Err(Err(ErrorText::Other(text + e))),
        _ => match next_phase(phase) {
            Some(next) => Ok(next),
            None => Err(Ok(())),
        },
    }
}

/// Where a session stands after phases with these outcomes: in a phase, or at its end.
pub open spec fn after_phases(phase: SessionPhase, outcomes: Seq<Result<(), Seq<char>>>) -> Result<
    SessionPhase,
    Result<(), ErrorText>,
>
    decreases outcomes.len(),
{
    if outcomes.len() == 0 {
        Ok(phase)
    } else {
        match after_phase(phase, outcomes[0]) {
            Ok(next) => after_phases(next, outcomes.drop_first()),
            Err(end) => Err(end),
        }
    }
}

/// What a session does in a phase.
pub enum SessionAction {
    /// Open a PTY of this size.
    OpenPty(TerminalSize),
    /// Get a reader of the PTY.
    CloneReader,
    /// Get the writer of the PTY.
    TakeWriter,
    /// Run this program in the PTY, with these additions to its environment.
    Spawn(String, Vec<(String, String)>),
    /// Relay between WebSocket and PTY until one of the two ways ends.
    Relay,
    /// Kill the program.
    Kill,
    /// Wait until the program has ended.
    Wait,
}

/// A session in one of its phases.
pub struct PtySession {
    phase: SessionPhase,
    program: String,
    windows: bool,
}

/// What comes after a phase.
pub enum SessionStep {
    /// Another phase, in which the session does this.
    Next(PtySession, SessionAction),
    /// The end, with this outcome.
    Done(Result<(), NodegetError>),
}

impl PtySession {
    /// The phase of the session.
    pub closed spec fn phase(&self) -> SessionPhase {
        self.phase
    }

    /// The program that the session runs.
    pub closed spec fn program(&self) -> Seq<char> {
        self.program@
    }

    /// Whether the system is Windows.
    pub closed spec fn windows(&self) -> bool {
        self.windows
    }

    /// Whether `action` is what the session does in its phase.
    pub open spec fn does(&self, action: SessionAction) -> bool {
        match self.phase() {
            SessionPhase::OpeningPty => action == SessionAction::OpenPty(first_size()),
            SessionPhase::CloningReader => action == SessionAction::CloneReader,
            SessionPhase::TakingWriter => action == SessionAction::TakeWriter,
            SessionPhase::Spawning => action matches SessionAction::Spawn(program, env)
                && program@ == self.program() && crate::outside::pair_texts(env@) == shell_env(
                self.windows(),
            ),
            SessionPhase::Relaying => action == SessionAction::Relay,
            SessionPhase::Killing => action == SessionAction::Kill,
            SessionPhase::Waiting => action == SessionAction::Wait,
        }
    }

    /// A session that runs `program`: it begins by opening a PTY.
    pub fn start(program: &str, windows: bool) -> (r: (PtySession, SessionAction))
        ensures
            r.0.phase() == SessionPhase::OpeningPty,
            r.0.program() == program@,
            r.0.windows() == windows,
            r.0.does(r.1),
            r.1 matches SessionAction::OpenPty(size) && size.rows == 24 && size.cols == 80
                && size.pixel_width == 0 && size.pixel_height == 0,
    {
        let session: PtySession = PtySession {
            phase: SessionPhase::OpeningPty,
            program: program.to_owned(),
            windows,
        };
        let action: SessionAction = session.action();
        (session, action)
    }

    /// What the session does in its phase.
    fn action(&self) -> (r: SessionAction)
        ensures
            self.does(r),
            r matches SessionAction::Spawn(_, env) ==> {
                &&& self.windows() ==> env@.len() == 0
                &&& !self.windows() ==> {
                    &&& env@.len() == 3
                    &&& env@[0].0@ == "TERM"@ && env@[0].1@ == "xterm-256color"@
                    &&& env@[1].0@ == "LANG"@ && env@[1].1@ == "C.UTF-8"@
                    &&& env@[2].0@ == "LC_ALL"@ && env@[2].1@ == "C.UTF-8"@
                }
            },
    {
        match self.phase {
            SessionPhase::OpeningPty => SessionAction::OpenPty(
                TerminalSize { rows: 24, cols: 80, pixel_width: 0, pixel_height: 0 },
            ),
            SessionPhase::CloningReader => SessionAction::CloneReader,
            SessionPhase::TakingWriter => SessionAction::TakeWriter,
            SessionPhase::Spawning => SessionAction::Spawn(
                self.program.clone(),
                terminal_env(self.windows),
            ),
            SessionPhase::Relaying => SessionAction::Relay,
            SessionPhase::Killing => SessionAction::Kill,
            SessionPhase::Waiting => SessionAction::Wait,
        }
    }

    /// Goes on after a phase with this outcome. Where the set-up of the PTY or waiting for the
    /// program fails, the session ends with that error; otherwise the next phase follows, and
    /// after the last one the session has succeeded.
    pub fn step(self, outcome: Result<(), String>) -> (r: SessionStep)
        ensures
            match after_phase(self.phase(), phase_outcome(outcome)) {
                Ok(next) => r matches SessionStep::Next(session, action) && session.phase() == next
                    && session.program() == self.program() && session.windows() == self.windows()
                    && session.does(action),
                Err(end) => r matches SessionStep::Done(result) && crate::error::outcome_text(
                    result,
                ) == end,
            },
            match (self.phase(), outcome) {
                (SessionPhase::OpeningPty, Err(e)) => r matches SessionStep::Done(
                    Err(NodegetError::Other(m)),
                ) && m@ == "Failed to create PTY: "@ + e@,
                (SessionPhase::OpeningPty, Ok(())) => r matches SessionStep::Next(session, action)
                    && session.phase() == SessionPhase::CloningReader && action is CloneReader,
                (SessionPhase::CloningReader, Err(e)) => r matches SessionStep::Done(
                    Err(NodegetError::Other(m)),
                ) && m@ == "Failed to get PTY Reader: "@ + e@,
                (SessionPhase::CloningReader, Ok(())) => r matches SessionStep::Next(
                    session,
                    action,
                ) && session.phase() == SessionPhase::TakingWriter && action is TakeWriter,
                (SessionPhase::TakingWriter, Err(e)) => r matches SessionStep::Done(
                    Err(NodegetError::Other(m)),
                ) && m@ == "Failed to get PTY Writer: "@ + e@,
                (SessionPhase::TakingWriter, Ok(())) => r matches SessionStep::Next(
                    session,
                    SessionAction::Spawn(program, env),
                ) && session.phase() == SessionPhase::Spawning && program@ == self.program() && {
                    &&& self.windows() ==> env@.len() == 0
                    &&& !self.windows() ==> {
                        &&& env@.len() == 3
                        &&& env@[0].0@ == "TERM"@ && env@[0].1@ == "xterm-256color"@
                        &&& env@[1].0@ == "LANG"@ && env@[1].1@ == "C.UTF-8"@
                        &&& env@[2].0@ == "LC_ALL"@ && env@[2].1@ == "C.UTF-8"@
                    }
                },
                (SessionPhase::Spawning, Err(e)) => r matches SessionStep::Done(
                    Err(NodegetError::Other(m)),
                ) && m@ == "Failed to spawn process: "@ + e@,
                (SessionPhase::Spawning, Ok(())) => r matches SessionStep::Next(session, action)
                    && session.phase() == SessionPhase::Relaying && action is Relay,
                (SessionPhase::Relaying, _) => r matches SessionStep::Next(session, action)
                    && session.phase() == SessionPhase::Killing && action is Kill,
                (SessionPhase::Killing, _) => r matches SessionStep::Next(session, action)
                    && session.phase() == SessionPhase::Waiting && action is Wait,
                (SessionPhase::Waiting, Ok(())) => r matches SessionStep::Done(Ok(())),
                (SessionPhase::Waiting, Err(e)) => r matches SessionStep::Done(
                    Err(NodegetError::Other(m)),
                ) && m@ == "Failed to wait for child process: "@ + e@,
            },
            r matches SessionStep::Next(session, _) ==> session.program() == self.program()
                && session.windows() == self.windows(),
    {
        let text: Option<&str> = match self.phase {
            SessionPhase::OpeningPty => Some("Failed to create PTY: "),
            SessionPhase::CloningReader => Some("Failed to get PTY Reader: "),
            SessionPhase::TakingWriter => Some("Failed to get PTY Writer: "),
            SessionPhase::Spawning => Some("Failed to spawn process: "),
            SessionPhase::Relaying => None,
            SessionPhase::Killing => None,
            SessionPhase::Waiting => Some("Failed to wait for child process: "),
        };
        if let Some(text) = text {
            if let Err(e) = outcome {
                let mut message: String = text.to_owned();
                message.append(&e);
                return SessionStep::Done(Err(NodegetError::Other(message)));
            }
        }
        let phase: SessionPhase = match self.phase {
            SessionPhase::OpeningPty => SessionPhase::CloningReader,
            SessionPhase::CloningReader => SessionPhase::TakingWriter,
            SessionPhase::TakingWriter => SessionPhase::Spawning,
            SessionPhase::Spawning => SessionPhase::Relaying,
            SessionPhase::Relaying => SessionPhase::Killing,
            SessionPhase::Killing => SessionPhase::Waiting,
            SessionPhase::Waiting => {
                return SessionStep::Done(Ok(()));
            },
        };
        let session: PtySession = PtySession {
            phase,
            program: self.program,
            windows: self.windows,
        };
        let action: SessionAction = session.action();
        SessionStep::Next(session, action)
    }
}

/// A session that goes on does so from opening the PTY over its reader, its writer, the program, the
/// relay and the kill to the wait; where one of the first four or the last fails, it ends with that
/// failure, and after the last it has succeeded.
pub proof fn law_phases_in_order(e: Seq<char>)
    ensures
        after_phase(SessionPhase::OpeningPty, Ok(())) == Ok::<_, Result<(), ErrorText>>(
            SessionPhase::CloningReader,
        ),
        after_phase(SessionPhase::CloningReader, Ok(())) == Ok::<_, Result<(), ErrorText>>(
            SessionPhase::TakingWriter,
        ),
        after_phase(SessionPhase::TakingWriter, Ok(())) == Ok::<_, Result<(), ErrorText>>(
            SessionPhase::Spawning,
        ),
        after_phase(SessionPhase::Spawning, Ok(())) == Ok::<_, Result<(), ErrorText>>(
            SessionPhase::Relaying,
        ),
        after_phase(SessionPhase::Relaying, Ok(())) == Ok::<_, Result<(), ErrorText>>(
            SessionPhase::Killing,
        ),
        after_phase(SessionPhase::Relaying, Err(e)) == Ok::<_, Result<(), ErrorText>>(
            SessionPhase::Killing,
        ),
        after_phase(SessionPhase::Killing, Ok(())) == Ok::<_, Result<(), ErrorText>>(
            SessionPhase::Waiting,
        ),
        after_phase(SessionPhase::Killing, Err(e)) == Ok::<_, Result<(), ErrorText>>(
            SessionPhase::Waiting,
        ),
        after_phase(SessionPhase::Waiting, Ok(())) == Err::<SessionPhase, Result<(), ErrorText>>(
            Ok(()),
        ),
        after_phase(SessionPhase::OpeningPty, Err(e)) == Err::<SessionPhase, _>(
            Err::<(), _>(ErrorText::Other("Failed to create PTY: "@ + e)),
        ),
        after_phase(SessionPhase::CloningReader, Err(e)) == Err::<SessionPhase, _>(
            Err::<(), _>(ErrorText::Other("Failed to get PTY Reader: "@ + e)),
        ),
        after_phase(SessionPhase::TakingWriter, Err(e)) == Err::<SessionPhase, _>(
            Err::<(), _>(ErrorText::Other("Failed to get PTY Writer: "@ + e)),
        ),
        after_phase(SessionPhase::Spawning, Err(e)) == Err::<SessionPhase, _>(
            Err::<(), _>(ErrorText::Other("Failed to spawn process: "@ + e)),
        ),
        after_phase(SessionPhase::Waiting, Err(e)) == Err::<SessionPhase, _>(
            Err::<(), _>(ErrorText::Other("Failed to wait for child process: "@ + e)),
        ),
{
}

/// Once a program runs, it is killed and waited for, whatever comes of relaying and of killing it;
/// the outcome of the session is then that of waiting.
pub proof fn law_program_is_reaped(
    relayed: Result<(), Seq<char>>,
    killed: Result<(), Seq<char>>,
    waited: Result<(), Seq<char>>,
)
    ensures
        after_phases(SessionPhase::Relaying, seq![relayed]) == Ok::<
            SessionPhase,
            Result<(), ErrorText>,
        >(SessionPhase::Killing),
        after_phases(SessionPhase::Relaying, seq![relayed, killed]) == Ok::<
            SessionPhase,
            Result<(), ErrorText>,
        >(SessionPhase::Waiting),
        after_phases(SessionPhase::Relaying, seq![relayed, killed, waited]) == Err::<
            SessionPhase,
            Result<(), ErrorText>,
        >(
            match waited {
                Ok(()) => Ok(()),
                Err(e) => Err(ErrorText::Other("Failed to wait for child process: "@ + e)),
            },
        ),
{
    reveal_with_fuel(after_phases, 4);
    assert(seq![relayed].drop_first() =~= seq![]);
    assert(seq![relayed, killed].drop_first() =~= seq![killed]);
    assert(seq![killed].drop_first() =~= seq![]);
    assert(seq![relayed, killed, waited].drop_first() =~= seq![killed, waited]);
    assert(seq![killed, waited].drop_first() =~= seq![waited]);
    assert(seq![waited].drop_first() =~= seq![]);
}

/// Whatever the phases give, a session ends within seven of them, and it succeeds exactly if the
/// PTY was set up, the program was run, and it was waited for.
pub proof fn law_session_outcome(outcomes: Seq<Result<(), Seq<char>>>)
    requires
        outcomes.len() == 7,
    ensures
        after_phases(SessionPhase::OpeningPty, outcomes) is Err,
        after_phases(SessionPhase::OpeningPty, outcomes) == Err::<
            SessionPhase,
            Result<(), ErrorText>,
        >(Ok(())) <==> {
            &&& outcomes[0] is Ok
            &&& outcomes[1] is Ok
            &&& outcomes[2] is Ok
            &&& outcomes[3] is Ok
            &&& outcomes[6] is Ok
        },
{
    reveal_with_fuel(after_phases, 8);
    let o1 = outcomes.drop_first();
    let o2 = o1.drop_first();
    let o3 = o2.drop_first();
    let o4 = o3.drop_first();
    let o5 = o4.drop_first();
    let o6 = o5.drop_first();
    assert(o1[0] == outcomes[1]);
    assert(o2[0] == outcomes[2]);
    assert(o3[0] == outcomes[3]);
    assert(o4[0] == outcomes[4]);
    assert(o5[0] == outcomes[5]);
    assert(o6[0] == outcomes[6]);
    assert(o6.drop_first().len() == 0);
}

} // verus!
