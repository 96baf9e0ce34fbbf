use nodeget_agent::args::{AgentArgs, DEFAULT_CONFIG_PATH};
use nodeget_agent::config::{AgentConfig, SharedConfig};
use nodeget_agent::error::NodegetError;
use nodeget_agent::pty_session::{terminal_env, PtySession, SessionAction, SessionStep};
use nodeget_agent::pty_task::{
    configured_terminal_shell, default_terminal_shell, handle_pty_url, PtyStep, PtyTask,
};
use nodeget_agent::relay::{
    handle_ws_message, pty_to_ws_step, reader_step, ws_to_pty_step, ws_written, HeartBeat,
    NeedResize, ReaderAction, ReaderEvent, SenderAction, SenderEvent, TerminalSize, WsAction,
    WsEvent, WsMessage, WsReply, PTY_BUFFER_SIZE,
};
use nodeget_agent::terminal_pool::TerminalPool;

fn config(shell: Option<&str>) -> AgentConfig {
    AgentConfig {
        log_level: None,
        dynamic_report_interval_ms: None,
        dynamic_summary_report_interval_ms: None,
        static_report_interval_ms: None,
        agent_uuid: 0,
        connect_timeout_ms: None,
        exec_max_character: None,
        terminal_shell: shell.map(str::to_owned),
        ip_provider: None,
        ntp_server: None,
        server: None,
    }
}

fn heartbeat() -> Option<HeartBeat> {
    Some(HeartBeat {
        type_str: "heartbeat".to_owned(),
        timestamp: "1".to_owned(),
    })
}

fn resize() -> Option<NeedResize> {
    Some(NeedResize {
        type_str: "resize".to_owned(),
        cols: 120,
        rows: 40,
    })
}

fn text(s: &str) -> WsMessage {
    WsMessage::Text(s.to_owned())
}

fn connecting(step: PtyStep) -> (PtyTask, String) {
    match step {
        PtyStep::Connect(task, url) => (task, url),
        _ => panic!("the task connects"),
    }
}

fn outcome(step: PtyStep) -> Result<(), NodegetError> {
    match step {
        PtyStep::Done(outcome) => outcome,
        _ => panic!("the task is done"),
    }
}

#[test]
fn reserved_ids_are_refused_until_released() {
    let mut pool = TerminalPool::new();
    assert!(pool.reserve_terminal_id("a").is_ok());
    match pool.reserve_terminal_id("a") {
        Err(NodegetError::InvalidInput(m)) => {
            assert_eq!(m, "Terminal ID 'a' is already connected")
        }
        _ => panic!("the id is taken"),
    }
    assert!(pool.reserve_terminal_id("A").is_ok());
    pool.release_terminal_id("b");
    assert!(pool.reserve_terminal_id("A").is_err());
    pool.release_terminal_id("a");
    assert!(pool.reserve_terminal_id("A").is_err());
    assert!(pool.reserve_terminal_id("a").is_ok());
}

#[test]
fn task_without_url_ends_at_once() {
    let mut pool = TerminalPool::new();
    match outcome(handle_pty_url(&mut pool, Err("Invalid scheme: x".to_owned()), "a".to_owned())) {
        Err(NodegetError::Other(m)) => assert_eq!(m, "Invalid scheme: x"),
        _ => panic!("there is no URL"),
    }
    assert!(pool.reserve_terminal_id("a").is_ok());
}

#[test]
fn running_task_keeps_its_id() {
    let mut pool = TerminalPool::new();
    let (task, url) = connecting(handle_pty_url(&mut pool, Ok("ws://h/".to_owned()), "a".to_owned()));
    assert_eq!(url, "ws://h/");
    match outcome(handle_pty_url(&mut pool, Ok("ws://h/".to_owned()), "a".to_owned())) {
        Err(NodegetError::InvalidInput(m)) => {
            assert_eq!(m, "Terminal ID 'a' is already connected")
        }
        _ => panic!("the id is taken"),
    }
    let (task, shell) = match task.after_connect(&mut pool, true, None, false, false) {
        PtyStep::RunSession(task, shell) => (task, shell),
        _ => panic!("the session runs"),
    };
    assert_eq!(shell, "sh");
    assert!(pool.reserve_terminal_id("a").is_err());
    let ended = Err(NodegetError::Other("x".to_owned()));
    match outcome(task.finish(&mut pool, ended)) {
        Err(NodegetError::Other(m)) => assert_eq!(m, "x"),
        _ => panic!("the outcome is handed on"),
    }
    assert!(pool.reserve_terminal_id("a").is_ok());
}

#[test]
fn failed_connection_releases_the_id() {
    let mut pool = TerminalPool::new();
    let (task, _) = connecting(handle_pty_url(&mut pool, Ok("ws://h/".to_owned()), "a".to_owned()));
    match outcome(task.after_connect(&mut pool, false, Some("zsh".to_owned()), false, true)) {
        Err(NodegetError::AgentConnectionError(m)) => {
            assert_eq!(m, "Failed to connect to WebSocket")
        }
        _ => panic!("there is no connection"),
    }
    let (task, _) = connecting(handle_pty_url(&mut pool, Ok("ws://h/".to_owned()), "a".to_owned()));
    match task.after_connect(&mut pool, true, Some("zsh".to_owned()), false, true) {
        PtyStep::RunSession(task, shell) => {
            assert_eq!(shell, "zsh");
            assert!(outcome(task.finish(&mut pool, Ok(()))).is_ok());
        }
        _ => panic!("the session runs"),
    }
}

#[test]
fn shells_are_chosen_by_config_and_system() {
    assert_eq!(default_terminal_shell(true, true), "cmd.exe");
    assert_eq!(default_terminal_shell(true, false), "cmd.exe");
    assert_eq!(default_terminal_shell(false, true), "bash");
    assert_eq!(default_terminal_shell(false, false), "sh");
    let zsh = config(Some(" zsh\n"));
    assert_eq!(configured_terminal_shell(&SharedConfig::Ready(&zsh)).as_deref(), Some("zsh"));
    let blank = config(Some("  "));
    assert_eq!(configured_terminal_shell(&SharedConfig::Ready(&blank)), None);
    assert_eq!(configured_terminal_shell(&SharedConfig::Ready(&config(None))), None);
    assert_eq!(configured_terminal_shell(&SharedConfig::Uninitialized), None);
    assert_eq!(configured_terminal_shell(&SharedConfig::Poisoned), None);
}

fn name(action: &SessionAction) -> &'static str {
    match action {
        SessionAction::OpenPty(_) => "open",
        SessionAction::CloneReader => "reader",
        SessionAction::TakeWriter => "writer",
        SessionAction::Spawn(_, _) => "spawn",
        SessionAction::Relay => "relay",
        SessionAction::Kill => "kill",
        SessionAction::Wait => "wait",
    }
}

fn run(failing: &[usize]) -> (Vec<&'static str>, Result<(), String>) {
    let (mut session, mut action) = PtySession::start("zsh", false);
    let mut names = Vec::new();
    for i in 0..10 {
        names.push(name(&action));
        let outcome = if failing.contains(&i) {
            Err("oops".to_owned())
        } else {
            Ok(())
        };
        match session.step(outcome) {
            SessionStep::Next(s, a) => {
                session = s;
                action = a;
            }
            SessionStep::Done(Ok(())) => return (names, Ok(())),
            SessionStep::Done(Err(NodegetError::Other(m))) => return (names, Err(m)),
            SessionStep::Done(Err(_)) => panic!("another error"),
        }
    }
    panic!("the session does not end");
}

#[test]
fn session_runs_through_its_phases() {
    let all = vec!["open", "reader", "writer", "spawn", "relay", "kill", "wait"];
    assert_eq!(run(&[]), (all.clone(), Ok(())));
    assert_eq!(run(&[4, 5]), (all.clone(), Ok(())));
    assert_eq!(
        run(&[4, 6]),
        (all.clone(), Err("Failed to wait for child process: oops".to_owned()))
    );
    for (i, message) in [
        (0, "Failed to create PTY: oops"),
        (1, "Failed to get PTY Reader: oops"),
        (2, "Failed to get PTY Writer: oops"),
        (3, "Failed to spawn process: oops"),
    ] {
        assert_eq!(run(&[i, 6]), (all[..=i].to_vec(), Err(message.to_owned())));
    }
}

#[test]
fn session_opens_and_spawns_as_configured() {
    let (session, action) = PtySession::start("zsh", false);
    match action {
        SessionAction::OpenPty(size) => assert_eq!(
            size,
            TerminalSize { rows: 24, cols: 80, pixel_width: 0, pixel_height: 0 }
        ),
        _ => panic!("a PTY is opened first"),
    }
    let mut session = session;
    for _ in 0..2 {
        session = match session.step(Ok(())) {
            SessionStep::Next(s, _) => s,
            SessionStep::Done(_) => panic!("it goes on"),
        };
    }
    match session.step(Ok(())) {
        SessionStep::Next(_, SessionAction::Spawn(program, env)) => {
            assert_eq!(program, "zsh");
            assert_eq!(env, terminal_env(false));
        }
        _ => panic!("the shell is run"),
    }
    let pair = |n: &str, v: &str| (n.to_owned(), v.to_owned());
    assert_eq!(
        terminal_env(false),
        vec![
            pair("TERM", "xterm-256color"),
            pair("LANG", "C.UTF-8"),
            pair("LC_ALL", "C.UTF-8")
        ]
    );
    assert!(terminal_env(true).is_empty());
}

#[test]
fn messages_are_told_apart() {
    assert!(matches!(
        handle_ws_message(text("{}"), heartbeat(), resize()),
        WsReply::Handled(Ok(None))
    ));
    match handle_ws_message(text("{}"), None, resize()) {
        WsReply::Handled(Ok(Some(r))) => {
            assert_eq!((r.type_str.as_str(), r.cols, r.rows), ("resize", 120, 40))
        }
        _ => panic!("the terminal is resized"),
    }
    match handle_ws_message(text("ls \u{e9}\n"), None, None) {
        WsReply::Write(bytes) => assert_eq!(bytes, "ls \u{e9}\n".as_bytes()),
        _ => panic!("the text is input"),
    }
    match handle_ws_message(WsMessage::Binary(vec![0, 255]), heartbeat(), resize()) {
        WsReply::Write(bytes) => assert_eq!(bytes, vec![0, 255]),
        _ => panic!("the bytes are input"),
    }
    match handle_ws_message(WsMessage::Close, None, None) {
        WsReply::Handled(Err(e)) => assert_eq!(e, "WebSocket connection closed"),
        _ => panic!("the connection is closed"),
    }
    assert!(matches!(
        handle_ws_message(WsMessage::Other, None, resize()),
        WsReply::Handled(Ok(None))
    ));
    assert!(matches!(ws_written(Ok(())), Ok(None)));
    assert_eq!(
        ws_written(Err("full".to_owned())).unwrap_err(),
        "Failed to write to PTY: full"
    );
}

fn report(action: WsAction) -> Option<String> {
    match action {
        WsAction::Stop(report) => report,
        _ => panic!("the way ends"),
    }
}

#[test]
fn input_goes_to_the_pty() {
    assert!(matches!(
        ws_to_pty_step(WsEvent::Message(text("x"), heartbeat(), None)),
        WsAction::Receive
    ));
    match ws_to_pty_step(WsEvent::Message(text("x"), None, resize())) {
        WsAction::Resize(size) => assert_eq!(
            size,
            TerminalSize { rows: 40, cols: 120, pixel_width: 0, pixel_height: 0 }
        ),
        _ => panic!("the terminal is resized"),
    }
    match ws_to_pty_step(WsEvent::Message(text("x"), None, None)) {
        WsAction::Write(bytes) => assert_eq!(bytes, b"x"),
        _ => panic!("the text is input"),
    }
    match ws_to_pty_step(WsEvent::Message(WsMessage::Binary(vec![1]), None, None)) {
        WsAction::Write(bytes) => assert_eq!(bytes, vec![1]),
        _ => panic!("the bytes are input"),
    }
    assert!(matches!(
        ws_to_pty_step(WsEvent::Message(WsMessage::Other, None, None)),
        WsAction::Receive
    ));
    assert!(matches!(ws_to_pty_step(WsEvent::Written(Ok(()))), WsAction::Receive));
    assert!(matches!(
        ws_to_pty_step(WsEvent::Resized(Err("x".to_owned()))),
        WsAction::Receive
    ));
    assert_eq!(report(ws_to_pty_step(WsEvent::Ended)), None);
    assert_eq!(
        report(ws_to_pty_step(WsEvent::Message(WsMessage::Close, None, None))).as_deref(),
        Some("Failed to handle WebSocket message: WebSocket connection closed")
    );
    assert_eq!(
        report(ws_to_pty_step(WsEvent::ReceiveFailed("x".to_owned()))).as_deref(),
        Some("Error receiving message from WebSocket: x")
    );
    assert_eq!(
        report(ws_to_pty_step(WsEvent::Written(Err("x".to_owned())))).as_deref(),
        Some("Failed to handle WebSocket message: Failed to write to PTY: x")
    );
}

#[test]
fn output_goes_to_the_websocket() {
    let buffer = [1u8, 2, 3, 4];
    match reader_step(&buffer, ReaderEvent::Read(3)) {
        ReaderAction::Forward(data) => assert_eq!(data, vec![1, 2, 3]),
        _ => panic!("output is handed on"),
    }
    assert!(matches!(reader_step(&buffer, ReaderEvent::Read(0)), ReaderAction::Stop));
    assert!(matches!(reader_step(&buffer, ReaderEvent::ReadFailed), ReaderAction::Stop));
    assert!(matches!(reader_step(&buffer, ReaderEvent::Forwarded), ReaderAction::Read));
    assert!(matches!(reader_step(&buffer, ReaderEvent::Refused), ReaderAction::Stop));
    match pty_to_ws_step(SenderEvent::Output(Some(vec![7]))) {
        SenderAction::Send(WsMessage::Binary(data)) => assert_eq!(data, vec![7]),
        _ => panic!("output is sent"),
    }
    assert!(matches!(pty_to_ws_step(SenderEvent::Sent), SenderAction::Await));
    assert!(matches!(
        pty_to_ws_step(SenderEvent::Output(None)),
        SenderAction::Stop(None)
    ));
    match pty_to_ws_step(SenderEvent::SendFailed) {
        SenderAction::Stop(Some(m)) => assert_eq!(m, "Failed to send data to WebSocket"),
        _ => panic!("the way ends"),
    }
    assert_eq!(PTY_BUFFER_SIZE, 8192);
}

#[test]
fn lone_program_name_asks_for_help() {
    assert_eq!(
        AgentArgs::help_request(1, Some("agent".to_owned())),
        Some(vec!["agent".to_owned(), "-h".to_owned()])
    );
    assert_eq!(
        AgentArgs::help_request(1, None),
        Some(vec!["nodeget-agent".to_owned(), "-h".to_owned()])
    );
    assert_eq!(AgentArgs::help_request(2, Some("agent".to_owned())), None);
    assert_eq!(AgentArgs::help_request(0, None), None);
    assert_eq!(DEFAULT_CONFIG_PATH, "config.toml");
}

#[test]
fn a_run_writes_the_input_and_gives_the_sizes() {
    let beat = HeartBeat {
        type_str: "heartbeat".to_owned(),
        timestamp: "1".to_owned(),
    };
    let size = NeedResize {
        type_str: "resize".to_owned(),
        cols: 132,
        rows: 50,
    };
    let events = vec![
        WsEvent::Message(WsMessage::Text("l\u{e9}".to_owned()), None, None),
        WsEvent::Written(Ok(())),
        WsEvent::Message(WsMessage::Text("{}".to_owned()), Some(beat), Some(size.clone())),
        WsEvent::Message(WsMessage::Text("{}".to_owned()), None, Some(size)),
        WsEvent::Resized(Err("no".to_owned())),
        WsEvent::Message(WsMessage::Other, None, None),
        WsEvent::Message(WsMessage::Binary(vec![0, 255]), None, None),
        WsEvent::Written(Ok(())),
        WsEvent::Ended,
    ];
    let mut written: Vec<u8> = Vec::new();
    let mut sizes: Vec<(u16, u16)> = Vec::new();
    let mut stopped = false;
    for event in events {
        assert!(!stopped);
        match ws_to_pty_step(event) {
            WsAction::Receive => {}
            WsAction::Write(bytes) => written.extend(bytes),
            WsAction::Resize(size) => sizes.push((size.cols, size.rows)),
            WsAction::Stop(report) => {
                assert_eq!(report, None);
                stopped = true;
            }
        }
    }
    assert!(stopped);
    assert_eq!(written, vec![b'l', 0xc3, 0xa9, 0, 255]);
    assert_eq!(sizes, vec![(132, 50)]);
}

#[test]
fn a_run_sends_the_output() {
    let mut sent: Vec<Vec<u8>> = Vec::new();
    for (buffer, count) in [(b"abcd", 3), (b"efgh", 4), (b"ijkl", 1)] {
        match reader_step(buffer, ReaderEvent::Read(count)) {
            ReaderAction::Forward(data) => match pty_to_ws_step(SenderEvent::Output(Some(data))) {
                SenderAction::Send(WsMessage::Binary(data)) => sent.push(data),
                _ => panic!("output is sent"),
            },
            _ => panic!("output is handed on"),
        }
    }
    assert_eq!(sent, vec![b"abc".to_vec(), b"efgh".to_vec(), b"i".to_vec()]);
    assert_eq!(sent.concat(), b"abcefghi");
}

#[test]
fn tasks_restore_the_pool() {
    let mut pool = TerminalPool::new();
    assert!(pool.reserve_terminal_id("kept").is_ok());
    let begin = |pool: &mut TerminalPool, id: &str| {
        match handle_pty_url(pool, Ok("ws://h/".to_owned()), id.to_owned()) {
            PtyStep::Connect(task, _) => Some(task),
            _ => None,
        }
    };
    let a = begin(&mut pool, "a").unwrap();
    let b = begin(&mut pool, "b").unwrap();
    assert!(begin(&mut pool, "a").is_none());
    assert!(begin(&mut pool, "kept").is_none());
    assert!(matches!(
        handle_pty_url(&mut pool, Err("no".to_owned()), "c".to_owned()),
        PtyStep::Done(Err(NodegetError::Other(_)))
    ));
    a.finish(&mut pool, Ok(()));
    let again = begin(&mut pool, "a").unwrap();
    again.after_connect(&mut pool, false, None, false, false);
    b.finish(&mut pool, Err(NodegetError::Other("x".to_owned())));
    for id in ["a", "b", "c"] {
        assert!(pool.reserve_terminal_id(id).is_ok());
    }
    assert!(pool.reserve_terminal_id("kept").is_err());
}

#[test]
fn a_run_ends_with_the_event_that_ends_it() {
    let closing = [
        WsEvent::Message(WsMessage::Close, None, None),
        WsEvent::ReceiveFailed("x".to_owned()),
        WsEvent::Ended,
        WsEvent::Written(Err("x".to_owned())),
    ];
    for event in closing {
        assert!(matches!(ws_to_pty_step(event), WsAction::Stop(_)));
    }
    let going_on = [
        WsEvent::Message(WsMessage::Other, None, None),
        WsEvent::Message(WsMessage::Binary(vec![1]), None, None),
        WsEvent::Message(WsMessage::Text("x".to_owned()), None, None),
        WsEvent::Written(Ok(())),
        WsEvent::Resized(Err("x".to_owned())),
    ];
    for event in going_on {
        assert!(!matches!(ws_to_pty_step(event), WsAction::Stop(_)));
    }
    for event in [ReaderEvent::Read(0), ReaderEvent::ReadFailed, ReaderEvent::Refused] {
        assert!(matches!(reader_step(&[7], event), ReaderAction::Stop));
    }
    for event in [ReaderEvent::Read(1), ReaderEvent::Forwarded] {
        assert!(!matches!(reader_step(&[7], event), ReaderAction::Stop));
    }
    for event in [SenderEvent::Output(None), SenderEvent::SendFailed] {
        assert!(matches!(pty_to_ws_step(event), SenderAction::Stop(_)));
    }
    for event in [SenderEvent::Output(Some(vec![])), SenderEvent::Sent] {
        assert!(!matches!(pty_to_ws_step(event), SenderAction::Stop(_)));
    }
}
