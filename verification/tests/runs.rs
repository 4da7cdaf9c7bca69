use codex_task::attempt::AttemptAction;
use codex_task::attempt::AttemptEvent;
use codex_task::attempt::AttemptPhase;
use codex_task::attempt::AttemptStep;
use codex_task::attempt::TaskRun;
use codex_task::dashboard::AgentStatus;
use codex_task::execution::call_updates;
use codex_task::execution::ExecAction;
use codex_task::execution::ExecEvent;
use codex_task::execution::WaveRun;
use codex_task::interagent::parse_all;
use codex_task::interagent::InterAgentParser;
use codex_task::multi_agent_dashboard::ControlCall;
use codex_task::multi_agent_dashboard::MultiAgentUpdate;
use codex_task::options::configure;
use codex_task::options::default_base_run_dir;
use codex_task::options::ensure_default_specialized_agents;
use codex_task::options::planning_concurrency;
use codex_task::options::planning_cwd;
use codex_task::options::planning_options;
use codex_task::options::RunArgs;
use codex_task::options::RunEnv;
use codex_task::routing::follow_stderr;
use codex_task::routing::follow_stdout;
use codex_task::routing::guidance_routes;
use codex_task::routing::plan_route;
use codex_task::routing::RouteEvent;
use codex_task::runner::wave_verdict;
use codex_task::runner::TaskLaunch;
use codex_task::screen::Color;
use codex_task::strmap::StrMap;
use codex_task::subagent::OptionsEnv;
use codex_task::subagent::SubAgentEventCtx;
use codex_task::AgentSpec;
use codex_task::Dag;
use codex_task::Runner;
use codex_task::RunnerOptions;
use codex_task::TaskError;
use codex_task::TaskFile;
use codex_task::TaskSpec;
use serde_json::Value;

fn agent(id: &str) -> AgentSpec {
    AgentSpec {
        id: id.to_string(),
        model: None,
        profile: None,
        env: StrMap::new(),
        sandbox: None,
        ask_for_approval: None,
    }
}

fn task(id: &str, agent: &str, deps: &[&str]) -> TaskSpec {
    TaskSpec {
        id: id.to_string(),
        title: None,
        agent: agent.to_string(),
        instructions: "do".to_string(),
        depends_on: deps.iter().map(|d| d.to_string()).collect(),
        env: StrMap::new(),
        retries: None,
        timeout_secs: None,
        cwd: None,
    }
}

fn file(agents: Vec<AgentSpec>, tasks: Vec<TaskSpec>) -> TaskFile {
    TaskFile {
        version: "1".to_string(),
        objective: "o".to_string(),
        agents,
        tasks,
        concurrency: None,
    }
}

fn surroundings() -> RunEnv {
    RunEnv {
        home: Some("/home/u".to_string()),
        cwd: Some("/repo".to_string()),
        default_cwd: None,
        options: OptionsEnv { extra_args: None, subagent_bin: None, show_output: None },
    }
}

fn options(tf: &TaskFile) -> RunnerOptions {
    RunnerOptions::with_run_id(tf, "r1".to_string(), &surroundings())
}

fn field(line: &str, key: &str) -> String {
    let v: Value = serde_json::from_str(line).unwrap();
    v.get(key).unwrap().to_string()
}

fn begin(retries: u32, ui: bool, timeout: Option<u64>) -> (TaskRun, AttemptStep) {
    let tf = file(vec![agent("a")], vec![task("t", "a", &[])]);
    let mut opts = options(&tf);
    opts.retries = retries;
    opts.ui = ui;
    let mut t = task("t", "a", &[]);
    t.timeout_secs = timeout;
    let launch = TaskLaunch { run_dir: "/runs/r1/t".to_string(), task: t, agent: agent("a") };
    TaskRun::begin(launch, opts)
}

fn is_dir(step: &AttemptStep, dir: &str) -> bool {
    matches!(&step.action, AttemptAction::CreateDir(d) if d == dir)
}

/// Takes an attempt up to the end of its output.
fn to_streaming(run: &mut TaskRun) -> AttemptStep {
    run.step(AttemptEvent::DirReady(Ok(())), "now");
    run.step(AttemptEvent::DirReady(Ok(())), "now");
    run.step(AttemptEvent::Spawned(Ok((true, true))), "now");
    run.step(AttemptEvent::LogsOpen(Ok(())), "now");
    run.step(AttemptEvent::Queued(None), "now")
}

#[test]
fn an_attempt_that_succeeds() {
    let (mut run, step) = begin(0, true, None);
    assert!(is_dir(&step, "/repo"));
    let step = run.step(AttemptEvent::DirReady(Ok(())), "t0");
    assert!(is_dir(&step, "/runs/r1/t/attempt-1"));
    let step = run.step(AttemptEvent::DirReady(Ok(())), "t1");
    let event = step.event.unwrap();
    assert_eq!(event.file, "/runs/r1/t/events.ndjson");
    assert_eq!(field(&event.text, "event"), "\"start\"");
    assert_eq!(field(&event.text, "cwd"), "\"/repo\"");
    assert_eq!(field(&event.text, "ts"), "\"t1\"");
    assert_eq!(field(&event.text, "attempt"), "1");
    assert_eq!(step.updates.len(), 2);
    match step.action {
        AttemptAction::Spawn { capacity, controller, command } => {
            assert_eq!(capacity, 5000);
            assert_eq!(controller.pid(), 0);
            assert_eq!(command.cwd, "/repo");
            assert_eq!(command.program, "codex");
        }
        other => panic!("unexpected action: {other:?}"),
    }
    let step = run.step(AttemptEvent::Spawned(Ok((true, true))), "t2");
    match step.action {
        AttemptAction::OpenLogs { stdout, stderr } => {
            assert_eq!(stdout, "/runs/r1/t/attempt-1/stdout.log");
            assert_eq!(stderr, "/runs/r1/t/attempt-1/stderr.log");
        }
        other => panic!("unexpected action: {other:?}"),
    }
    let step = run.step(AttemptEvent::LogsOpen(Ok(())), "t3");
    assert!(matches!(&step.updates[0], MultiAgentUpdate::SetLogFiles { .. }));
    assert!(matches!(step.action, AttemptAction::TakeSpool));
    let waiting = vec!["one".to_string(), "two".to_string()];
    let step = run.step(AttemptEvent::Queued(Some(waiting)), "t4");
    assert!(matches!(&step.action, AttemptAction::Inject(text) if text == "one\ntwo"));
    let step = run.step(AttemptEvent::Injected, "t5");
    match &step.updates[0] {
        MultiAgentUpdate::SetBanner { banner: Some(line), .. } => {
            assert_eq!(line.spans[0].text, " Delivered 2 spooled message(s)");
        }
        other => panic!("unexpected update: {other:?}"),
    }
    assert!(matches!(step.action, AttemptAction::Stream { limit_secs: None }));
    let step = run.step(AttemptEvent::Streamed, "t6");
    assert!(matches!(step.action, AttemptAction::Wait { limit_secs: None }));
    let step = run.step(AttemptEvent::Exited(Ok(Some(0))), "t7");
    assert_eq!(field(&step.event.unwrap().text, "event"), "\"success\"");
    assert!(matches!(
        &step.updates[0],
        MultiAgentUpdate::SetStatus { status: AgentStatus::Done, .. }
    ));
    assert!(matches!(&step.updates[1], MultiAgentUpdate::SetBanner { banner: None, .. }));
    assert!(matches!(step.action, AttemptAction::Done(Ok(()))));
    assert_eq!(run.phase, AttemptPhase::Finished);
}

#[test]
fn a_failing_task_is_tried_again_and_given_up() {
    let (mut run, _) = begin(2, false, None);
    let mut delays = Vec::new();
    let mut dirs = Vec::new();
    loop {
        let step = run.step(AttemptEvent::DirReady(Ok(())), "now");
        if let AttemptAction::CreateDir(d) = step.action {
            dirs.push(d);
        }
        run.step(AttemptEvent::DirReady(Ok(())), "now");
        run.step(AttemptEvent::Spawned(Ok((true, true))), "now");
        run.step(AttemptEvent::LogsOpen(Ok(())), "now");
        run.step(AttemptEvent::Queued(Some(vec![])), "now");
        run.step(AttemptEvent::Streamed, "now");
        let step = run.step(AttemptEvent::Exited(Ok(None)), "now");
        assert!(step.updates.is_empty());
        assert_eq!(field(&step.event.unwrap().text, "code"), "-1");
        match step.action {
            AttemptAction::Sleep(ms) => delays.push(ms),
            AttemptAction::Done(Err(TaskError::SubAgentFailed { code, message })) => {
                assert_eq!(code, -1);
                assert_eq!(message, "");
                break;
            }
            other => panic!("unexpected action: {other:?}"),
        }
        let step = run.step(AttemptEvent::Slept, "now");
        assert!(is_dir(&step, "/repo"));
    }
    assert_eq!(delays, vec![500, 1000]);
    assert_eq!(run.attempt, 3);
    assert_eq!(
        dirs,
        vec!["/runs/r1/t/attempt-1", "/runs/r1/t/attempt-2", "/runs/r1/t/attempt-3"]
    );
}

#[test]
fn a_task_that_runs_too_long_is_killed() {
    let (mut run, _) = begin(0, true, Some(9));
    let step = to_streaming(&mut run);
    assert!(matches!(step.action, AttemptAction::Stream { limit_secs: Some(9) }));
    let step = run.step(AttemptEvent::TimedOut, "now");
    assert!(matches!(step.action, AttemptAction::Kill));
    let step = run.step(AttemptEvent::Killed, "now");
    assert_eq!(field(&step.event.unwrap().text, "error"), "\"timeout after 9 seconds\"");
    assert!(matches!(
        &step.updates[0],
        MultiAgentUpdate::SetStatus { status: AgentStatus::Error, .. }
    ));
    assert!(matches!(step.action, AttemptAction::Done(Err(TaskError::Timeout(9)))));
}

#[test]
fn a_task_that_closes_its_output_and_runs_on_is_killed() {
    let (mut run, _) = begin(0, false, Some(9));
    to_streaming(&mut run);
    let step = run.step(AttemptEvent::Streamed, "now");
    assert!(matches!(step.action, AttemptAction::Wait { limit_secs: Some(9) }));
    let step = run.step(AttemptEvent::TimedOut, "now");
    assert!(matches!(step.action, AttemptAction::Kill));
    let step = run.step(AttemptEvent::Killed, "now");
    assert!(matches!(step.action, AttemptAction::Done(Err(TaskError::Timeout(9)))));
}

#[test]
fn a_wave_runs_no_more_tasks_than_it_may() {
    let mut wave = WaveRun::begin(5, 2);
    assert_eq!((wave.start_next(), wave.start_next(), wave.start_next()), (Some(0), Some(1), None));
    wave.one_ended();
    assert_eq!((wave.start_next(), wave.start_next()), (Some(2), None));
    wave.one_ended();
    wave.one_ended();
    assert_eq!((wave.start_next(), wave.start_next()), (Some(3), Some(4)));
    assert!(!wave.over());
    wave.one_ended();
    assert_eq!(wave.start_next(), None);
    wave.one_ended();
    assert!(wave.over());
    let mut stuck = WaveRun::begin(1, 0);
    assert_eq!(stuck.start_next(), None);
    assert!(!stuck.over());
    assert!(WaveRun::begin(0, 2).over());
}

#[test]
fn the_messages_of_an_output_are_those_of_its_text() {
    let text = "hi\n@@to: b\n\none\ntwo\n@@/to\n@@to: c\nx\n@@/to";
    let mut parser = InterAgentParser::new();
    let ctx = SubAgentEventCtx {
        run_dir: "/runs/r1/a".to_string(),
        task_id: "a".to_string(),
        attempt: 2,
    };
    let mut sent = Vec::new();
    for raw in text.split_inclusive('\n') {
        let e = follow_stdout(&mut parser, &raw.as_bytes().to_vec(), &ctx, false);
        sent.extend(e.routed.map(|m| (m.from_task_id, m.to_task_id, m.body)));
    }
    let parsed: Vec<_> =
        parse_all(text).into_iter().map(|m| ("a".to_string(), m.to, m.body)).collect();
    assert_eq!(sent, parsed);
    assert_eq!(sent.len(), 2);
    assert_eq!(sent[0].2, "one\ntwo");
}

#[test]
fn a_block_in_guidance_is_sent_on_behalf_of_the_agent() {
    let ctx = SubAgentEventCtx {
        run_dir: "/runs/r1/a".to_string(),
        task_id: "a".to_string(),
        attempt: 2,
    };
    let sent = guidance_routes("please\n@@to: b\nuse the cache\n@@/to\nthanks", &ctx);
    assert_eq!(sent.len(), 1);
    assert_eq!(sent[0].from_task_id, "a");
    assert_eq!(sent[0].from_run_dir, "/runs/r1/a");
    assert_eq!(sent[0].from_attempt, 2);
    assert_eq!(sent[0].to_task_id, "b");
    assert_eq!(sent[0].body, "use the cache");
    assert!(guidance_routes("go on", &ctx).is_empty());
}

#[test]
fn what_cannot_be_done_ends_a_task() {
    let (mut run, _) = begin(5, false, None);
    let step = run.step(AttemptEvent::DirReady(Err("full".to_string())), "now");
    assert!(matches!(&step.action, AttemptAction::Done(Err(TaskError::Io(m))) if m == "full"));

    for (event, text) in [
        (Err(TaskError::Spawn("no".to_string())), "spawn failed: no"),
        (Ok((false, true)), "spawn failed: failed to capture stdout"),
        (Ok((true, false)), "spawn failed: failed to capture stderr"),
    ] {
        let (mut run, _) = begin(5, false, None);
        run.step(AttemptEvent::DirReady(Ok(())), "now");
        run.step(AttemptEvent::DirReady(Ok(())), "now");
        let step = run.step(AttemptEvent::Spawned(event), "now");
        match step.action {
            AttemptAction::Done(Err(e)) => assert_eq!(e.message(), text),
            other => panic!("unexpected action: {other:?}"),
        }
    }

    let (mut run, _) = begin(5, false, None);
    to_streaming(&mut run);
    run.step(AttemptEvent::Streamed, "now");
    let step = run.step(AttemptEvent::Exited(Err("gone".to_string())), "now");
    assert!(matches!(&step.action, AttemptAction::Done(Err(TaskError::Spawn(m))) if m == "gone"));
}

#[test]
fn lines_are_followed() {
    let ctx = SubAgentEventCtx {
        run_dir: "/d".to_string(),
        task_id: "t".to_string(),
        attempt: 2,
    };
    let mut parser = InterAgentParser::new();
    let e = follow_stdout(&mut parser, &b"@@to: peer\n".to_vec(), &ctx, true);
    assert_eq!(e.text, "@@to: peer");
    assert_eq!(e.log_text, "@@to: peer\n");
    assert!(e.routed.is_none());
    assert!(matches!(&e.update, Some(MultiAgentUpdate::AppendLines { lines, .. })
        if lines[0].spans[0].style.color == Color::Plain));
    let e = follow_stdout(&mut parser, &vec![0xff, b'x'], &ctx, false);
    assert_eq!(e.text, "\u{fffd}x");
    assert!(e.update.is_none());
    let e = follow_stdout(&mut parser, &b"@@/to".to_vec(), &ctx, false);
    let routed = e.routed.unwrap();
    assert_eq!(routed.to_task_id, "peer");
    assert_eq!(routed.body, "\u{fffd}x");
    assert_eq!(routed.from_task_id, "t");
    assert_eq!(routed.from_run_dir, "/d");
    assert_eq!(routed.from_attempt, 2);
    let e = follow_stderr(&b"oops\n".to_vec(), "t", true);
    assert!(matches!(&e.update, Some(MultiAgentUpdate::AppendLines { lines, .. })
        if lines[0].spans[0].style.color == Color::Red && lines[0].spans[0].text == "oops"));
    assert_eq!(follow_stderr(&b"\n".to_vec(), "t", false).log_text, "\n");
}

fn message() -> RouteEvent {
    RouteEvent {
        from_task_id: "a".to_string(),
        from_run_dir: "/runs/a".to_string(),
        from_attempt: 1,
        to_task_id: "b".to_string(),
        body: "héllo".to_string(),
    }
}

#[test]
fn a_message_to_a_running_task_is_delivered() {
    let plan = plan_route(&message(), "now", true, true, true, true);
    assert!(plan.deliver);
    assert_eq!(plan.source_line.as_deref(), Some("» routed to b (6 bytes)"));
    assert_eq!(plan.target_line.as_deref(), Some("» routed from a (6 bytes)"));
    assert_eq!(plan.updates.len(), 4);
    assert_eq!(plan.event.file, "/runs/a/events.ndjson");
    assert_eq!(field(&plan.event.text, "event"), "\"routed\"");
    assert_eq!(field(&plan.event.text, "to"), "\"b\"");
    assert_eq!(field(&plan.event.text, "bytes"), "6");
    match &plan.updates[2] {
        MultiAgentUpdate::SetBanner { task_id, banner: Some(line) } => {
            assert_eq!(task_id, "b");
            let text: String = line.spans.iter().map(|s| s.text.as_str()).collect();
            assert_eq!(text, "» routed from a (6 bytes)");
            assert_eq!(line.spans[0].style.color, Color::Magenta);
            assert_eq!(line.spans[1].style.color, Color::Cyan);
        }
        other => panic!("unexpected update: {other:?}"),
    }
}

#[test]
fn a_message_to_a_task_that_waits_is_queued() {
    let plan = plan_route(&message(), "now", true, false, true, true);
    assert!(!plan.deliver);
    assert!(plan.target_line.is_none());
    assert_eq!(plan.updates.len(), 2);
    let plan = plan_route(&message(), "now", false, false, false, false);
    assert!(plan.source_line.is_none());
    assert!(plan.updates.is_empty());
}

#[test]
fn a_run_goes_wave_by_wave() {
    let tf = file(vec![agent("a")], vec![task("x", "a", &[]), task("y", "a", &["x"])]);
    let runner = Runner::new(&tf, Dag::build(&tf).unwrap(), options(&tf)).unwrap();
    let (mut exec, step) = runner.execute();
    assert!(matches!(&step.action, ExecAction::CreateDir(d) if d == "/home/u/.codex/task-runs/r1"));
    let step = runner.go_on(&mut exec, ExecEvent::DirReady(Ok(())));
    assert!(matches!(&step.action, ExecAction::AskHelp { program } if program == "codex"));
    let help = b"Usage: --ask-for-approval <MODE>".to_vec();
    let step = runner.go_on(&mut exec, ExecEvent::Help(Some(help)));
    assert_eq!(exec.opts.subagent.supports_approval_flag, Some(true));
    assert_eq!(
        step.printed,
        vec![
            "starting wave with tasks: [\"x\"]",
            "launching task: x (agent: a) in /home/u/.codex/task-runs/r1/x",
        ]
    );
    assert!(matches!(&step.action, ExecAction::RunWave { launches, limit: 2 }
        if launches.len() == 1 && launches[0].task.id == "x"));
    let step = runner.go_on(&mut exec, ExecEvent::WaveDone(vec![true]));
    assert_eq!(step.printed[0], "completed wave\n");
    assert_eq!(step.printed[1], "starting wave with tasks: [\"y\"]");
    assert!(matches!(&step.action, ExecAction::RunWave { launches, .. }
        if launches[0].task.id == "y"));
    let step = runner.go_on(&mut exec, ExecEvent::WaveDone(vec![true]));
    assert!(matches!(step.action, ExecAction::Close));
    let step = runner.go_on(&mut exec, ExecEvent::Closed);
    assert!(matches!(step.action, ExecAction::Done(Ok(()))));
}

#[test]
fn a_failed_wave_ends_the_run_unless_it_goes_on() {
    let tf = file(vec![agent("a")], vec![task("x", "a", &[]), task("y", "a", &["x"])]);
    for go_on in [false, true] {
        let mut opts = options(&tf);
        opts.continue_on_error = go_on;
        let runner = Runner::new(&tf, Dag::build(&tf).unwrap(), opts).unwrap();
        let (mut exec, _) = runner.execute();
        runner.go_on(&mut exec, ExecEvent::DirReady(Ok(())));
        runner.go_on(&mut exec, ExecEvent::Help(None));
        assert_eq!(exec.opts.subagent.supports_approval_flag, Some(false));
        let step = runner.go_on(&mut exec, ExecEvent::WaveDone(vec![false]));
        match step.action {
            ExecAction::RunWave { .. } => assert!(go_on),
            ExecAction::Done(Err(e)) => {
                assert!(!go_on);
                assert_eq!(e.message(), "invalid task file: one or more tasks failed");
            }
            other => panic!("unexpected action: {other:?}"),
        }
    }
    assert!(wave_verdict(true, false).is_ok());
}

#[test]
fn a_run_with_a_dashboard_shows_all_tasks_first() {
    let tf = file(vec![agent("a")], vec![task("x", "a", &[]), task("y", "a", &["x"])]);
    let mut opts = options(&tf);
    opts.ui = true;
    let runner = Runner::new(&tf, Dag::build(&tf).unwrap(), opts).unwrap();
    let (mut exec, _) = runner.execute();
    runner.go_on(&mut exec, ExecEvent::DirReady(Ok(())));
    let step = runner.go_on(&mut exec, ExecEvent::Help(None));
    match step.action {
        ExecAction::StartUi { task_ids, layout } => {
            assert_eq!(task_ids, vec!["x", "y"]);
            assert_eq!(layout, "tabbed");
        }
        other => panic!("unexpected action: {other:?}"),
    }
    let step = runner.go_on(&mut exec, ExecEvent::UiStarted);
    assert!(step.printed.is_empty());
    assert_eq!(step.updates.len(), 2);
    assert!(matches!(&step.updates[1], MultiAgentUpdate::SetStatus { task_id, status }
        if task_id == "y" && *status == AgentStatus::Queued));
}

#[test]
fn a_wave_stops_at_a_task_without_its_agent() {
    let tf = file(vec![agent("a")], vec![task("m", "a", &[]), task("n", "nobody", &[]), task("o", "a", &[])]);
    let runner = Runner::new(&tf, Dag::build(&tf).unwrap(), options(&tf)).unwrap();
    let (mut exec, _) = runner.execute();
    runner.go_on(&mut exec, ExecEvent::DirReady(Ok(())));
    let step = runner.go_on(&mut exec, ExecEvent::Help(None));
    match step.action {
        ExecAction::Abandon { launches, limit, error } => {
            assert_eq!(limit, 2);
            assert_eq!(launches.len(), 1);
            assert_eq!(launches[0].task.id, "m");
            assert_eq!(error.message(), "unknown agent id: nobody");
        }
        other => panic!("unexpected action: {other:?}"),
    }
}

#[test]
fn a_task_that_is_not_in_the_file_is_missing() {
    let tf = file(vec![agent("a")], vec![task("x", "a", &[])]);
    let runner = Runner::new(&tf, Dag::build(&tf).unwrap(), options(&tf)).unwrap();
    let plan = runner.plan_wave(&vec!["ghost".to_string()]);
    assert!(plan.launches.is_empty());
    assert_eq!(plan.failure.unwrap().message(), "invalid task file: missing task: ghost");
    assert_eq!(runner.task_run_dir("x"), "/home/u/.codex/task-runs/r1/x");
}

#[test]
fn a_dry_run_prints_the_plan() {
    let tf = file(vec![agent("a")], vec![task("x", "a", &[])]);
    let mut opts = options(&tf);
    opts.dry_run = true;
    let runner = Runner::new(&tf, Dag::build(&tf).unwrap(), opts).unwrap();
    let (_, step) = runner.execute();
    assert_eq!(step.printed, vec![runner.render_plan()]);
    assert!(matches!(step.action, ExecAction::Done(Ok(()))));
}

#[test]
fn a_run_without_its_directory_fails() {
    let tf = file(vec![], vec![]);
    let runner = Runner::new(&tf, Dag::build(&tf).unwrap(), options(&tf)).unwrap();
    let (mut exec, _) = runner.execute();
    let step = runner.go_on(&mut exec, ExecEvent::DirReady(Err("full".to_string())));
    assert!(matches!(&step.action, ExecAction::Done(Err(TaskError::Io(m))) if m == "full"));
}

#[test]
fn the_last_agent_with_an_id_counts() {
    let mut second = agent("a");
    second.model = Some("m".to_string());
    let tf = file(vec![agent("a"), second], vec![task("x", "a", &[])]);
    let runner = Runner::new(&tf, Dag::build(&tf).unwrap(), options(&tf)).unwrap();
    let plan = runner.plan_wave(&vec!["x".to_string()]);
    assert_eq!(plan.launches[0].agent.model.as_deref(), Some("m"));
}

#[test]
fn calls_are_told_to_the_dashboard() {
    let updates = call_updates(&ControlCall::Pause("t".to_string()), &Ok(()));
    assert_eq!(updates.len(), 1);
    assert!(matches!(&updates[0], MultiAgentUpdate::SetStatus { status: AgentStatus::Paused, .. }));
    let updates = call_updates(&ControlCall::Resume("t".to_string()), &Ok(()));
    assert!(matches!(&updates[0], MultiAgentUpdate::SetStatus { status: AgentStatus::Running, .. }));
    let call = ControlCall::Inject { task_id: "t".to_string(), text: "x".to_string() };
    assert!(call_updates(&call, &Ok(())).is_empty());
    let updates = call_updates(&call, &Err(TaskError::StdinClosed));
    match &updates[0] {
        MultiAgentUpdate::SetBanner { task_id, banner: Some(line) } => {
            assert_eq!(task_id, "t");
            assert_eq!(line.spans[0].text, "child stdin is not available or closed");
            assert_eq!(line.spans[0].style.color, Color::Red);
        }
        other => panic!("unexpected update: {other:?}"),
    }
    assert!(call_updates(&ControlCall::AbortAll, &Err(TaskError::StdinClosed)).is_empty());
}

fn args() -> RunArgs {
    RunArgs {
        concurrency: 3,
        continue_on_error: true,
        retries: 1,
        model: Some("m".to_string()),
        profile: None,
        sandbox: None,
        ask_for_approval: None,
        extra_args: vec!["-x".to_string()],
        dry_run: false,
        run_dir: None,
        time_budget_secs: Some(60),
        default_cwd: None,
        show_output: false,
        skip_git_repo_check: true,
        ui: false,
        ui_layout: "grid".to_string(),
    }
}

#[test]
fn a_run_has_defaults() {
    let tf = file(vec![], vec![]);
    let opts = RunnerOptions::with_defaults_from_taskfile(&tf, &surroundings());
    assert_eq!(opts.concurrency, 2);
    assert_eq!(opts.retries, 0);
    assert_eq!(opts.default_cwd.as_deref(), Some("/repo"));
    assert_eq!(opts.ui_layout, "tabbed");
    let other = RunnerOptions::with_defaults_from_taskfile(&tf, &surroundings());
    assert_ne!(opts.run_id, other.run_id);
    let id = uuid::Uuid::parse_str(&opts.run_id).unwrap();
    assert_eq!(id.get_version_num(), 4);
    assert_eq!(id.to_string(), opts.run_id);
    assert_eq!(opts.base_run_dir, format!("/home/u/.codex/task-runs/{}", opts.run_id));
    assert_eq!(default_base_run_dir(&None), ".codex/task-runs");
}

#[test]
fn the_command_line_is_put_over_the_defaults() {
    let tf = file(vec![], vec![]);
    let mut env = surroundings();
    let opts = configure(options(&tf), &args(), &env, "# md");
    assert_eq!(opts.concurrency, 3);
    assert!(opts.continue_on_error);
    assert_eq!(opts.retries, 1);
    assert_eq!(opts.base_run_dir, "/home/u/.codex/task-runs/r1");
    assert_eq!(opts.default_cwd.as_deref(), Some("/repo"));
    assert_eq!(opts.ui_layout, "grid");
    let sub = &opts.subagent;
    assert_eq!(sub.model.as_deref(), Some("m"));
    assert_eq!(sub.sandbox, None);
    assert_eq!(
        sub.extra_args,
        vec![
            "--skip-git-repo-check",
            "-c",
            "sandbox_workspace_write.network_access=true",
            "-x",
            "--skip-git-repo-check",
        ]
    );
    assert_eq!(sub.time_budget_secs, Some(60));
    assert_eq!(sub.task_md_full_text.as_deref(), Some("# md"));

    env.default_cwd = Some("/elsewhere".to_string());
    let mut given = args();
    given.run_dir = Some("/runs".to_string());
    let opts = configure(options(&tf), &given, &env, "");
    assert_eq!(opts.base_run_dir, "/runs/r1");
    assert_eq!(opts.default_cwd.as_deref(), Some("/elsewhere"));
    assert_eq!(planning_cwd(&given, &env), "/elsewhere");
    given.default_cwd = Some("/flag".to_string());
    assert_eq!(planning_cwd(&given, &env), "/flag");
    assert_eq!(planning_cwd(&args(), &surroundings()), "/repo");
    assert_eq!(planning_options(&given, &env, "md").model.as_deref(), Some("m"));
    assert_eq!(planning_concurrency(&tf, &given), Some(3));
}

#[test]
fn usual_roles_are_added_once() {
    let mut template = agent("primary");
    template.model = Some("m".to_string());
    let mut tf = file(vec![agent("qa"), template], vec![]);
    ensure_default_specialized_agents(&mut tf);
    let ids: Vec<&str> = tf.agents.iter().map(|a| a.id.as_str()).collect();
    assert_eq!(
        ids,
        vec!["qa", "primary", "backend", "frontend", "docs", "research", "devops", "tooling"]
    );
    assert_eq!(tf.agents[2].model.as_deref(), Some("m"));
    ensure_default_specialized_agents(&mut tf);
    assert_eq!(tf.agents.len(), 8);
    let mut none = file(vec![], vec![]);
    ensure_default_specialized_agents(&mut none);
    assert!(none.agents.is_empty());
}
