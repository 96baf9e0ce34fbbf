//! A terminal task from its URL to its end: reserve the id, connect, run a shell, release the id.

use crate::config::SharedConfig;
use crate::error::{ErrorText, NodegetError};
use crate::terminal_pool::TerminalPool;
use vstd::prelude::*;

verus! {

/// The shell in the shared configuration, where one is configured.
pub open spec fn shared_shell(config: SharedConfig<'_>) -> Option<Seq<char>> {
    match config {
        SharedConfig::Ready(c) => crate::config::trimmed_setting(c.terminal_shell),
        _ => None,
    }
}

/// The shell of a system.
pub open spec fn system_shell(windows: bool, bash_exists: bool) -> Seq<char> {
    if windows {
        "cmd.exe"@
    } else if bash_exists {
        "bash"@
    } else {
        "sh"@
    }
}

/// The configured shell, or that of the system where none is configured.
pub open spec fn chosen_shell(
    shell: Option<Seq<char>>,
    windows: bool,
    bash_exists: bool,
) -> Seq<char> {
    match shell {
        Some(s) => s,
        None => system_shell(windows, bash_exists),
    }
}

/// The shell in the shared configuration; none where it cannot be read or names none.
pub fn configured_terminal_shell(config: &SharedConfig<'_>) -> (r: Option<String>)
    ensures
        crate::outside::option_text(r) == shared_shell(*config),
        match *config {
            SharedConfig::Uninitialized => r is None,
            SharedConfig::Poisoned => r is None,
            SharedConfig::Ready(c) => match c.terminal_shell {
                None => r is None,
                Some(setting) => {
                    &&& crate::text::trim(setting@).len() == 0 ==> r is None
                    &&& crate::text::trim(setting@).len() > 0 ==> (r matches Some(shell) && shell@
                        == crate::text::trim(setting@))
                },
            },
        },
{
    match config {
        SharedConfig::Ready(c) => match c.resolved_terminal_shell() {
            Some(shell) => Some(shell.to_owned()),
            None => None,
        },
        _ => None,
    }
}

/// The shell of a system: `bash_exists` says whether there is a file `/bin/bash`.
pub fn default_terminal_shell(windows: bool, bash_exists: bool) -> (r: &'static str)
    ensures
        r@ == system_shell(windows, bash_exists),
        windows ==> r@ == "cmd.exe"@,
        !windows && bash_exists ==> r@ == "bash"@,
        !windows && !bash_exists ==> r@ == "sh"@,
{
    if windows {
        "cmd.exe"
    } else if bash_exists {
        "bash"
    } else {
        "sh"
    }
}

/// A terminal task whose id is reserved.
pub struct PtyTask {
    terminal_id: String,
}

impl View for PtyTask {
    type V = Seq<char>;

    /// The id that the task holds.
    closed spec fn view(&self) -> Seq<char> {
        self.terminal_id@
    }
}

/// What a terminal task needs next.
pub enum PtyStep {
    /// Connect to this URL.
    Connect(PtyTask, String),
    /// Run this shell in a session over the connection.
    RunSession(PtyTask, String),
    /// Nothing: the task ended so.
    Done(Result<(), NodegetError>),
}

/// Begins a terminal task. `url` is the URL to connect to, or why there is none.
///
/// Without a URL the task ends at once, and so it does where its id is connected already; the pool
/// stays as it is. Otherwise the id is reserved, and the task connects.
pub fn handle_pty_url(
    pool: &mut TerminalPool,
    url: Result<String, String>,
    terminal_id: String,
) -> (r: PtyStep)
    ensures
        match url {
            Err(e) => {
                &&& final(pool)@ == old(pool)@
                &&& r matches PtyStep::Done(outcome) && crate::error::outcome_text(outcome) == Err::<
                    (),
                    ErrorText,
                >(ErrorText::Other(e@))
            },
            Ok(text) => if old(pool)@.contains(terminal_id@) {
                &&& final(pool)@ == old(pool)@
                &&& r matches PtyStep::Done(outcome) && crate::error::outcome_text(outcome) == Err::<
                    (),
                    ErrorText,
                >(ErrorText::InvalidInput(crate::terminal_pool::already_connected(terminal_id@)))
            } else {
                &&& final(pool)@ == old(pool)@.insert(terminal_id@)
                &&& r matches PtyStep::Connect(task, target) && task@ == terminal_id@ && target@
                    == text@
            },
        },
        url is Err ==> (r matches PtyStep::Done(Err(NodegetError::Other(m))) && m@ == (
        url->Err_0)@),
        url is Ok && old(pool)@.contains(terminal_id@) ==> (r matches PtyStep::Done(
            Err(NodegetError::InvalidInput(m)),
        ) && m@ == "Terminal ID '"@ + terminal_id@ + "' is already connected"@),
{
    let text: String = match url {
        Ok(text) => text,
        Err(e) => {
            return PtyStep::Done(Err(NodegetError::Other(e)));
        },
    };
    match pool.reserve_terminal_id(&terminal_id) {
        Ok(()) => PtyStep::Connect(PtyTask { terminal_id }, text),
        Err(e) => PtyStep::Done(Err(e)),
    }
}

impl PtyTask {
    /// Goes on once the task has tried to connect. Connected, it runs the configured shell, or
    /// that of the system; otherwise its id is released and it ends.
    pub fn after_connect(
        self,
        pool: &mut TerminalPool,
        connected: bool,
        configured_shell: Option<String>,
        windows: bool,
        bash_exists: bool,
    ) -> (r: PtyStep)
        ensures
            if connected {
                &&& final(pool)@ == old(pool)@
                &&& r matches PtyStep::RunSession(task, shell) && task@ == self@ && shell@
                    == chosen_shell(
                    crate::outside::option_text(configured_shell),
                    windows,
                    bash_exists,
                )
            } else {
                &&& final(pool)@ == old(pool)@.remove(self@)
                &&& r matches PtyStep::Done(outcome) && crate::error::outcome_text(outcome) == Err::<
                    (),
                    ErrorText,
                >(ErrorText::AgentConnectionError("Failed to connect to WebSocket"@))
            },
            connected && configured_shell is Some ==> (r matches PtyStep::RunSession(_, shell)
                && shell@ == (configured_shell->0)@),
            connected && configured_shell is None && windows ==> (r matches PtyStep::RunSession(
                _,
                shell,
            ) && shell@ == "cmd.exe"@),
            connected && configured_shell is None && !windows && bash_exists ==> (
            r matches PtyStep::RunSession(_, shell) && shell@ == "bash"@),
            connected && configured_shell is None && !windows && !bash_exists ==> (
            r matches PtyStep::RunSession(_, shell) && shell@ == "sh"@),
            !connected ==> (r matches PtyStep::Done(Err(NodegetError::AgentConnectionError(m)))
                && m@ == "Failed to connect to WebSocket"@),
    {
        if !connected {
            return self.finish(
                pool,
                Err(
                    NodegetError::AgentConnectionError(
                        "Failed to connect to WebSocket".to_owned(),
                    ),
                ),
            );
        }
        let shell: String = match configured_shell {
            Some(shell) => shell,
            None => default_terminal_shell(windows, bash_exists).to_owned(),
        };
        PtyStep::RunSession(self, shell)
    }

    /// Ends the task with the outcome of its session: its id is released.
    pub fn finish(self, pool: &mut TerminalPool, outcome: Result<(), NodegetError>) -> (r: PtyStep)
        ensures
            final(pool)@ == old(pool)@.remove(self@),
            r == PtyStep::Done(outcome),
    {
        pool.release_terminal_id(&self.terminal_id);
        PtyStep::Done(outcome)
    }
}

/// A configured shell is the one that runs, whatever the system is; without one it is `cmd.exe` on
/// Windows, and elsewhere `bash` where there is one and `sh` where there is none.
pub proof fn law_chosen_shell(configured: Seq<char>, windows: bool, bash_exists: bool)
    ensures
        chosen_shell(Some(configured), windows, bash_exists) == configured,
        chosen_shell(None, true, bash_exists) == "cmd.exe"@,
        chosen_shell(None, false, true) == "bash"@,
        chosen_shell(None, false, false) == "sh"@,
        system_shell(true, bash_exists) == "cmd.exe"@,
        system_shell(false, true) == "bash"@,
        system_shell(false, false) == "sh"@,
{
}

/// The shell of the shared configuration is its setting without white space at the ends, where that
/// leaves anything; where the configuration cannot be had, there is none.
pub proof fn law_shared_shell(config: crate::config::AgentConfig)
    ensures
        shared_shell(SharedConfig::Uninitialized) is None,
        shared_shell(SharedConfig::Poisoned) is None,
        config.terminal_shell is None ==> shared_shell(SharedConfig::Ready(&config)) is None,
        config.terminal_shell matches Some(setting) ==> {
            &&& crate::text::trim(setting@).len() == 0 ==> shared_shell(
                SharedConfig::Ready(&config),
            ) is None
            &&& crate::text::trim(setting@).len() > 0 ==> shared_shell(SharedConfig::Ready(&config))
                == Some(crate::text::trim(setting@))
        },
{
}

} // verus!
