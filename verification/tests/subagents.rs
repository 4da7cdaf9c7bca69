use codex_task::command::build_command;
use codex_task::command::final_instructions;
use codex_task::events::event_write;
use codex_task::events::Event;
use codex_task::logs::LogFile;
use codex_task::logs::LogSource;
use codex_task::logs::PageTask;
use codex_task::logs::CHUNK;
use codex_task::output::AgentStream;
use codex_task::output::StreamKind;
use codex_task::raw_output::line_text;
use codex_task::screen::Color;
use codex_task::screen::Line;
use codex_task::signals::fallback_signal;
use codex_task::signals::signal_result;
use codex_task::signals::ControlSignal;
use codex_task::strmap::StrMap;
use codex_task::subagent::agent_primer;
use codex_task::subagent::console_event_result;
use codex_task::subagent::detect_supports_approval_flag;
use codex_task::subagent::pause_process;
use codex_task::subagent::resume_process;
use codex_task::subagent::run_subagent;
use codex_task::subagent::run_subagent_streaming;
use codex_task::subagent::Launch;
use codex_task::subagent::OptionsEnv;
use codex_task::subagent::RunAction;
use codex_task::subagent::RunEvent;
use codex_task::subagent::StreamedLine;
use codex_task::subagent::SubAgentController;
use codex_task::subagent::SubAgentEventCtx;
use codex_task::subagent::SubAgentOptions;
use codex_task::subagent::SubAgentRun;
use codex_task::text::decimal_text;
use codex_task::text::lines_of;
use codex_task::text::pad_right;
use codex_task::text::same_ignoring_case;
use codex_task::text::split_text;
use codex_task::text::trimmed;
use codex_task::text::words_of;
use codex_task::AgentSpec;
use codex_task::TaskError;
use codex_task::TaskSpec;
use serde_json::Value;

fn agent() -> AgentSpec {
    let mut env = StrMap::new();
    env.insert("A".to_string(), "1".to_string());
    AgentSpec {
        id: "qa".to_string(),
        model: Some("agent-model".to_string()),
        profile: Some("agent-profile".to_string()),
        env,
        sandbox: Some("read-only".to_string()),
        ask_for_approval: Some("always".to_string()),
    }
}

fn task() -> TaskSpec {
    TaskSpec {
        id: "t".to_string(),
        title: None,
        agent: "qa".to_string(),
        instructions: "Test it.".to_string(),
        depends_on: vec![],
        env: StrMap::new(),
        retries: None,
        timeout_secs: None,
        cwd: None,
    }
}

fn no_env() -> OptionsEnv {
    OptionsEnv { extra_args: None, subagent_bin: None, show_output: None }
}

fn options() -> SubAgentOptions {
    let mut o = SubAgentOptions::from_env(&no_env());
    o.extra_args = vec!["-z".to_string()];
    o
}

#[test]
fn options_come_from_the_environment() {
    let o = SubAgentOptions::from_env(&no_env());
    assert_eq!(o.codex_bin, "codex");
    assert_eq!(o.sandbox.as_deref(), Some("workspace-write"));
    assert_eq!(o.ask_for_approval.as_deref(), Some("never"));
    assert!(!o.show_output);
    let o = SubAgentOptions::from_env(&OptionsEnv {
        extra_args: Some("  -a   b ".to_string()),
        subagent_bin: Some("/bin/agent".to_string()),
        show_output: Some("TrUe".to_string()),
    });
    assert_eq!(o.codex_bin, "/bin/agent");
    assert_eq!(
        o.extra_args,
        vec!["-a", "b", "--skip-git-repo-check", "-c", "sandbox_workspace_write.network_access=true"]
    );
    assert!(o.show_output);
    let mut env = no_env();
    env.show_output = Some("1".to_string());
    assert!(SubAgentOptions::from_env(&env).show_output);
    env.show_output = Some("yes".to_string());
    assert!(!SubAgentOptions::from_env(&env).show_output);
}

#[test]
fn a_command_is_built() {
    let mut o = options();
    o.supports_approval_flag = Some(true);
    let c = build_command("/w", &agent(), &task(), &o, &vec![]);
    assert_eq!(c.program, "codex");
    assert_eq!(c.cwd, "/w");
    assert_eq!(c.env.get("A").cloned(), Some("1".to_string()));
    let instructions = format!("{}\n\nYour task:\nTest it.", agent_primer("qa"));
    assert_eq!(
        c.args,
        vec![
            "exec",
            "--full-auto",
            "--model",
            "agent-model",
            "--profile",
            "agent-profile",
            "--sandbox",
            "workspace-write",
            "--ask-for-approval",
            "never",
            "-z",
            instructions.as_str(),
        ]
    );
    o.supports_approval_flag = None;
    o.sandbox = None;
    o.model = Some("mine".to_string());
    let c = build_command("/w", &agent(), &task(), &o, &vec![]);
    assert_eq!(c.args[3], "mine");
    assert_eq!(c.args[7], "read-only");
    assert!(!c.args.iter().any(|a| a == "--ask-for-approval"));
}

#[test]
fn instructions_hold_the_context_and_the_guidance() {
    let md = Some("# notes".to_string());
    let text = final_instructions("docs", &md, "Write.", &vec!["one".to_string(), "two".to_string()]);
    assert!(text.starts_with("You are a technical writer."));
    assert!(text.ends_with(
        "\n\nProject context (task.md):\n```md\n# notes\n```\n\nYour task:\nWrite.\n\n\
         Additional guidance (prior attempts preserved):\none\n\ntwo"
    ));
    assert!(agent_primer("someone").starts_with("You are an expert software engineer."));
    assert!(agent_primer("primary").starts_with("You are a lead full-stack engineer."));
}

fn ctx() -> SubAgentEventCtx {
    SubAgentEventCtx { run_dir: "/runs/t".to_string(), task_id: "t\"1".to_string(), attempt: 4 }
}

#[test]
fn events_are_lines_of_json() {
    let cases: Vec<(Event, &str, Vec<(&str, &str)>)> = vec![
        (Event::Start { cwd: "/w".to_string() }, "start", vec![("cwd", "\"/w\"")]),
        (Event::Success, "success", vec![]),
        (Event::Error { code: -7 }, "error", vec![("code", "-7")]),
        (Event::Fault { error: "late".to_string() }, "error", vec![("error", "\"late\"")]),
        (Event::Routed { to: "u".to_string(), bytes: 12 }, "routed", vec![("to", "\"u\""), ("bytes", "12")]),
        (Event::Pause, "pause", vec![]),
        (Event::Resume, "resume", vec![]),
        (Event::Inject { guidance: "a\nb".to_string() }, "inject", vec![("guidance", "\"a\\nb\"")]),
        (Event::Restart { guidance: "g".to_string() }, "restart", vec![("guidance", "\"g\"")]),
    ];
    for (event, name, own) in cases {
        let w = event_write(&ctx(), "2025-01-02T03:04:05Z", &event);
        assert_eq!(w.file, "/runs/t/events.ndjson");
        assert!(w.text.ends_with('\n'));
        assert_eq!(w.text.matches('\n').count(), 1);
        let v: Value = serde_json::from_str(&w.text).unwrap();
        let object = v.as_object().unwrap();
        assert_eq!(object.len(), 4 + own.len());
        assert_eq!(object["ts"].as_str(), Some("2025-01-02T03:04:05Z"));
        assert_eq!(object["task_id"].as_str(), Some("t\"1"));
        assert_eq!(object["attempt"].as_u64(), Some(4));
        assert_eq!(object["event"].as_str(), Some(name));
        for (key, value) in own {
            assert_eq!(object[key].to_string(), value);
        }
    }
}

#[test]
fn a_controller_follows_its_process() {
    let (mut c, command) = SubAgentController::spawn("/w", &agent(), &task(), &options(), Some(ctx()));
    assert_eq!(command.args.last().unwrap(), &format!("{}\n\nYour task:\nTest it.", agent_primer("qa")));
    assert!(matches!(c.inject("x"), Err(TaskError::StdinClosed)));
    assert!(c.launched(Ok(Launch { pid: Some(77), stdin: true })).is_ok());
    assert_eq!(c.pid(), 77);
    assert_eq!(c.inject("do this").unwrap(), "do this\n");
    let (r, w) = c.injected("do this", Ok(()), "now");
    assert!(r.is_ok());
    let v: Value = serde_json::from_str(&w.unwrap().text).unwrap();
    assert_eq!(v.get("guidance").unwrap().as_str(), Some("do this"));
    let (r, w) = c.injected("do this", Err("broken pipe".to_string()), "now");
    assert_eq!(r.unwrap_err().message(), "injection write failed: broken pipe");
    assert!(w.is_none());
    let (r, w) = c.paused(Ok(()), "now");
    assert!(r.is_ok() && w.unwrap().text.contains("\"pause\""));
    let (r, w) = c.resumed(Err(TaskError::Signal("no".to_string())), "now");
    assert!(r.is_err() && w.is_none());
    let e = c.launched(Err("no such file".to_string())).unwrap_err();
    assert_eq!(e.message(), "spawn failed: no such file");
}

#[test]
fn guidance_is_kept_across_restarts() {
    let (mut c, first) = SubAgentController::spawn("/w", &agent(), &task(), &options(), None);
    let second = c.restart_with_appended_guidance("be brief");
    let (r, w) = c.restarted("be brief", Ok(Launch { pid: None, stdin: false }), "now");
    assert!(r.is_ok() && w.is_none());
    assert_eq!(c.pid(), 0);
    let third = c.restart_with_appended_guidance("and kind");
    let text = |c: &codex_task::subagent::CommandSpec| c.args.last().unwrap().clone();
    let head = "\n\nAdditional guidance (prior attempts preserved):\n";
    assert_eq!(text(&second), format!("{}{head}be brief", text(&first)));
    assert_eq!(text(&third), format!("{}\n\nand kind", text(&second)));
}

#[test]
fn signals_to_nobody_fail() {
    // no process has an id this large
    let pid = i32::MAX as u32;
    let e = pause_process(pid).unwrap_err();
    assert_eq!(e.message(), "failed to send signal: SIGSTOP failed: ESRCH: No such process");
    let e = resume_process(pid).unwrap_err();
    assert_eq!(e.message(), "failed to send signal: SIGCONT failed: ESRCH: No such process");
    let (c, _) = SubAgentController::spawn("/w", &agent(), &task(), &options(), Some(ctx()));
    let mut c = c;
    c.launched(Ok(Launch { pid: Some(pid), stdin: true })).unwrap();
    let (r, w) = c.pause("now");
    assert!(r.is_err() && w.is_none());
    let (r, w) = c.inject_then_resume(Ok(()), "now");
    assert!(r.is_ok() && w.is_none());
    let (r, w) = c.resume("now");
    assert!(r.is_err() && w.is_none());
    assert!(signal_result("X", Ok(())).is_ok());
    let failed = Err("no".to_string());
    assert_eq!(fallback_signal(ControlSignal::Interrupt, &failed), Some(ControlSignal::Stop));
    assert_eq!(fallback_signal(ControlSignal::Interrupt, &Ok(())), None);
    assert_eq!(fallback_signal(ControlSignal::Stop, &failed), None);
    assert!(console_event_result(false, true).is_ok());
    assert_eq!(
        console_event_result(false, false).unwrap_err().message(),
        "failed to send signal: failed to send CTRL event"
    );
}

#[test]
fn help_tells_of_the_approval_flag() {
    assert!(detect_supports_approval_flag(Some(&b"\xff  --ask-for-approval".to_vec())));
    assert!(!detect_supports_approval_flag(Some(&b"--ask".to_vec())));
    assert!(!detect_supports_approval_flag(None));
}

#[test]
fn raw_lines_lose_their_newline() {
    assert_eq!(line_text(&b"abc\n".to_vec()), "abc");
    assert_eq!(line_text(&b"abc\r\n".to_vec()), "abc\r");
    assert_eq!(line_text(&b"".to_vec()), "");
    assert_eq!(line_text(&vec![b'a', 0xc3, b'\n']), "a\u{fffd}");
}

#[test]
fn a_run_collects_output_and_then_logs_it() {
    let mut t = task();
    t.timeout_secs = Some(5);
    let (mut run, action) = run_subagent("/w", &agent(), &t, &options(), "/logs");
    assert!(matches!(&action, RunAction::CreateDir(d) if d == "/logs"));
    let action = run.step(RunEvent::DirReady(Ok(())));
    assert!(matches!(&action, RunAction::Spawn(c) if c.cwd == "/w"));
    let action = run.step(RunEvent::Spawned(Ok((true, true))));
    assert!(matches!(action, RunAction::Collect { limit_secs: Some(5) }));
    let out = RunEvent::Collected { stdout: b"out".to_vec(), stderr: b"err".to_vec() };
    assert!(matches!(run.step(out), RunAction::Wait { limit_secs: Some(5) }));
    let action = run.step(RunEvent::Exited(Ok(Some(0))));
    assert!(matches!(&action, RunAction::WriteLogs { stdout, stderr }
        if stdout == "/logs/stdout.log" && stderr == "/logs/stderr.log"));
    match run.step(RunEvent::LogsWritten(Ok(()))) {
        RunAction::Done(Ok(r)) => {
            assert_eq!(r.status_code, 0);
            assert_eq!(r.stdout, "out");
            assert_eq!(r.stderr, "err");
        }
        other => panic!("unexpected action: {other:?}"),
    }
}

#[test]
fn a_run_that_takes_too_long_is_killed() {
    let mut o = options();
    o.time_budget_secs = Some(30);
    let (mut run, _) = run_subagent("/w", &agent(), &task(), &o, "/logs");
    run.step(RunEvent::DirReady(Ok(())));
    run.step(RunEvent::Spawned(Ok((true, true))));
    assert!(matches!(run.step(RunEvent::TimedOut), RunAction::Kill));
    let action = run.step(RunEvent::Killed);
    assert!(matches!(action, RunAction::Done(Err(TaskError::Timeout(30)))));
    // so is one that closes its output and goes on
    let (mut run, _) = run_subagent("/w", &agent(), &task(), &o, "/logs");
    run.step(RunEvent::DirReady(Ok(())));
    run.step(RunEvent::Spawned(Ok((true, true))));
    run.step(RunEvent::Collected { stdout: vec![], stderr: vec![] });
    assert!(matches!(run.step(RunEvent::TimedOut), RunAction::Kill));
    let action = run.step(RunEvent::Killed);
    assert!(matches!(action, RunAction::Done(Err(TaskError::Timeout(30)))));
}

/// Takes a streaming run up to its first line.
fn streaming(o: &SubAgentOptions, stream: Option<AgentStream>) -> SubAgentRun {
    let mut t = task();
    t.timeout_secs = Some(5);
    let (mut run, _) = run_subagent_streaming("/w", &agent(), &t, o, "/logs", stream);
    run.step(RunEvent::DirReady(Ok(())));
    let action = run.step(RunEvent::Spawned(Ok((true, true))));
    assert!(matches!(&action, RunAction::OpenLogs { stdout, stderr }
        if stdout == "/logs/stdout.log" && stderr == "/logs/stderr.log"));
    assert!(matches!(run.step(RunEvent::LogsOpen(Ok(()))), RunAction::Follow));
    run
}

fn logged(run: &mut SubAgentRun, kind: StreamKind, raw: &[u8]) -> StreamedLine {
    match run.step(RunEvent::Line { kind, raw: raw.to_vec() }) {
        RunAction::Log(line) => {
            assert_eq!(line.kind, kind);
            line
        }
        other => panic!("unexpected action: {other:?}"),
    }
}

#[test]
fn a_streaming_run_logs_as_it_goes() {
    let mut run = streaming(&options(), Some(AgentStream::new(8)));
    let line = logged(&mut run, StreamKind::Stdout, b"one\n");
    assert_eq!(line.log_text, "one\n");
    assert!(line.shown.is_none());
    let item = line.published.unwrap();
    assert_eq!((item.kind, item.text.as_str()), (StreamKind::Stdout, "one"));
    assert_eq!(logged(&mut run, StreamKind::Stderr, b"warn\n").log_text, "warn\n");
    assert_eq!(logged(&mut run, StreamKind::Stdout, b"\n").log_text, "\n");
    // the last line has no newline, and cannot be decoded whole
    assert_eq!(logged(&mut run, StreamKind::Stdout, b"a\xff").log_text, "a\u{fffd}\n");
    assert!(matches!(run.step(RunEvent::Drained), RunAction::Wait { limit_secs: None }));
    match run.step(RunEvent::Exited(Ok(Some(0)))) {
        RunAction::Done(Ok(r)) => {
            assert_eq!(r.status_code, 0);
            assert_eq!(r.stdout, "one\n\na\u{fffd}\n");
            assert_eq!(r.stderr, "warn\n");
        }
        other => panic!("unexpected action: {other:?}"),
    }
    let kept: Vec<String> =
        run.stream.unwrap().snapshot().into_iter().map(|item| item.text).collect();
    assert_eq!(kept, vec!["one", "warn", "", "a\u{fffd}"]);
}

#[test]
fn a_streaming_run_that_fails_tells_what_it_logged() {
    let mut o = options();
    o.show_output = true;
    let mut run = streaming(&o, None);
    let line = logged(&mut run, StreamKind::Stderr, b"bad");
    assert_eq!(line.shown.as_deref(), Some("bad\n"));
    assert!(line.published.is_none());
    run.step(RunEvent::Drained);
    match run.step(RunEvent::Exited(Ok(Some(3)))) {
        RunAction::Done(Err(TaskError::SubAgentFailed { code, message })) => {
            assert_eq!(code, 3);
            assert_eq!(message, "bad\n");
        }
        other => panic!("unexpected action: {other:?}"),
    }
}

#[test]
fn a_streaming_run_without_output_logs_nothing() {
    let mut run = streaming(&options(), None);
    run.step(RunEvent::Drained);
    match run.step(RunEvent::Exited(Ok(Some(0)))) {
        RunAction::Done(Ok(r)) => assert_eq!((r.stdout.as_str(), r.stderr.as_str()), ("", "")),
        other => panic!("unexpected action: {other:?}"),
    }
}

#[test]
fn a_run_that_cannot_start_fails() {
    let (mut run, _) = run_subagent("/w", &agent(), &task(), &options(), "/logs");
    let action = run.step(RunEvent::DirReady(Err("full".to_string())));
    assert!(matches!(&action, RunAction::Done(Err(TaskError::Io(m))) if m == "full"));
    let (mut run, _) = run_subagent("/w", &agent(), &task(), &options(), "/logs");
    run.step(RunEvent::DirReady(Ok(())));
    let action = run.step(RunEvent::Spawned(Err("no".to_string())));
    assert!(matches!(&action, RunAction::Done(Err(TaskError::Spawn(m))) if m == "no"));
}

fn texts(lines: &[Line]) -> Vec<String> {
    lines.iter().map(|l| l.spans.iter().map(|s| s.text.as_str()).collect()).collect()
}

#[test]
fn a_log_shows_a_window_of_its_lines() {
    let mut log = LogSource::new();
    log.append_live(&(0..5).map(|i| Line::raw(&format!("{i}"))).collect());
    assert_eq!(texts(&log.visible_lines(2, 0)), vec!["3", "4"]);
    assert_eq!(texts(&log.visible_lines(2, 1)), vec!["2", "3"]);
    assert_eq!(texts(&log.visible_lines(2, 100)), vec!["0", "1"]);
    assert_eq!(texts(&log.visible_lines(9, 0)).len(), 5);
    assert_eq!(log.older_needed(2, 3), 0);
    assert_eq!(log.older_needed(2, 5), 2);
    assert_eq!(log.older_needed(0, 5), 0);
}

#[test]
fn paging_reads_a_file_from_its_end() {
    let mut file: Vec<u8> = Vec::new();
    let mut expected: Vec<String> = Vec::new();
    for i in 0..20000 {
        let line = format!("línea {i}");
        file.extend_from_slice(line.as_bytes());
        file.push(b'\n');
        expected.push(line);
    }
    let mut log = LogSource::new();
    log.set_log_files("out", "err");
    let paged = log.ensure_older_lines(1);
    assert_eq!(paged.len(), 2);
    assert_eq!(paged[0].1, "out");
    assert!(log.ensure_older_lines(0).is_empty());
    let page = PageTask::begin(&log, LogFile::Stdout, file.len() as u64, 10);
    let (start, count) = page.next(&log).unwrap();
    assert_eq!(count, CHUNK);
    assert_eq!(start + count, file.len() as u64);
    log.prepend_chunk(LogFile::Stdout, &file[start as usize..].to_vec());
    assert!(page.next(&log).is_none());
    let all = PageTask::begin(&log, LogFile::Stdout, file.len() as u64, usize::MAX);
    while let Some((start, count)) = all.next(&log) {
        log.prepend_chunk(LogFile::Stdout, &file[start as usize..(start + count) as usize].to_vec());
    }
    assert_eq!(texts(&log.visible_lines(usize::MAX, 0)), expected);
}

#[test]
fn older_errors_come_first_and_are_red() {
    let mut log = LogSource::new();
    log.prepend_chunk(LogFile::Stdout, &b"one\r\n\ntwo\n".to_vec());
    log.prepend_chunk(LogFile::Stderr, &b"bad\n".to_vec());
    let lines = log.visible_lines(10, 0);
    assert_eq!(texts(&lines), vec!["bad", "one", "two"]);
    assert_eq!(lines[0].spans[0].style.color, Color::Red);
    assert_eq!(lines[1].spans[0].style.color, Color::Plain);
}

#[test]
fn what_is_read_comes_before_what_is_held() {
    let mut file: Vec<u8> = Vec::new();
    let mut expected: Vec<String> = Vec::new();
    for i in 0..10000 {
        file.extend_from_slice(format!("line {i}\n").as_bytes());
        expected.push(format!("line {i}"));
    }
    assert!(file.len() as u64 > CHUNK);
    let mut log = LogSource::new();
    log.prepend_chunk(LogFile::Stderr, &b"bad\n".to_vec());
    let all = PageTask::begin(&log, LogFile::Stdout, file.len() as u64, usize::MAX);
    while let Some((start, count)) = all.next(&log) {
        log.prepend_chunk(LogFile::Stdout, &file[start as usize..(start + count) as usize].to_vec());
    }
    expected.push("bad".to_string());
    assert_eq!(texts(&log.visible_lines(usize::MAX, 0)), expected);
}

#[test]
fn a_line_begun_before_is_completed_where_it_stands() {
    let mut log = LogSource::new();
    log.prepend_chunk(LogFile::Stdout, &b"ee\nfour\n".to_vec());
    log.prepend_chunk(LogFile::Stderr, &b"bad\n".to_vec());
    assert_eq!(texts(&log.visible_lines(9, 0)), vec!["bad", "ee", "four"]);
    log.prepend_chunk(LogFile::Stdout, &b"one\ntwo\nthr".to_vec());
    assert_eq!(texts(&log.visible_lines(9, 0)), vec!["one", "two", "bad", "three", "four"]);
    log.prepend_chunk(LogFile::Stderr, &b"so ".to_vec());
    assert_eq!(texts(&log.visible_lines(9, 0)), vec!["one", "two", "so bad", "three", "four"]);
    log.prepend_chunk(LogFile::Stdout, &b"zero\n".to_vec());
    assert_eq!(log.next_chunk(LogFile::Stdout, 24), None);
    assert_eq!(log.next_chunk(LogFile::Stdout, 30), Some((0, 6)));
    assert_eq!(texts(&log.visible_lines(9, 0))[0], "zero");
}

#[test]
fn text_is_taken_apart() {
    assert_eq!(trimmed(" \u{3000}a b\t\n"), "a b");
    assert_eq!(lines_of("a\r\nb\n\nc"), vec!["a", "b", "", "c"]);
    assert_eq!(lines_of("a\n"), vec!["a"]);
    assert_eq!(lines_of("a\r"), vec!["a\r"]);
    assert!(lines_of("").is_empty());
    assert_eq!(split_text("a,,b", ','), vec!["a", "", "b"]);
    assert_eq!(split_text("", ','), vec![""]);
    assert_eq!(words_of("  a  bc\td "), vec!["a", "bc", "d"]);
    assert_eq!(decimal_text(0), "0");
    assert_eq!(decimal_text(u64::MAX), "18446744073709551615");
    assert_eq!(pad_right("é", 3), "é  ");
    assert_eq!(pad_right("abcd", 3), "abcd");
    assert!(same_ignoring_case("TRUE", "true"));
    assert!(!same_ignoring_case("TRUE", "truly"));
}
