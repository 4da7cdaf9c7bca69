use codex_task::candidates::assemble_candidates;
use codex_task::candidates::extract_yaml_candidates;
use codex_task::candidates::least_offset;
use codex_task::planner::auto_plan_tasks;
use codex_task::planner::pick_plan;
use codex_task::planner::plan_outcome;
use codex_task::planner::plan_texts;
use codex_task::planner::sanitize_yaml_candidate;
use codex_task::planner::select_primary_agent;
use codex_task::planner::validate_tasks;
use codex_task::planner::ParsedCandidate;
use codex_task::strmap::StrMap;
use codex_task::AgentSpec;
use codex_task::TaskError;
use codex_task::TaskFile;
use codex_task::TaskSpec;
use serde_yaml::Value;

fn task(id: &str, deps: &[&str]) -> TaskSpec {
    TaskSpec {
        id: id.to_string(),
        title: None,
        agent: "primary".to_string(),
        instructions: String::new(),
        depends_on: deps.iter().map(|d| d.to_string()).collect(),
        env: StrMap::new(),
        retries: None,
        timeout_secs: None,
        cwd: None,
    }
}

fn agent(id: &str) -> AgentSpec {
    AgentSpec {
        id: id.to_string(),
        model: None,
        profile: None,
        env: StrMap::new(),
        sandbox: None,
        ask_for_approval: None,
    }
}

fn file(agents: Vec<AgentSpec>) -> TaskFile {
    TaskFile {
        version: "1".to_string(),
        objective: "Build it".to_string(),
        agents,
        tasks: vec![],
        concurrency: None,
    }
}

fn task_of(v: &Value) -> Option<TaskSpec> {
    let text = |key: &str| v.get(key).and_then(|t| t.as_str()).map(|t| t.to_string());
    let mut t = task(&text("id")?, &[]);
    t.agent = text("agent")?;
    t.instructions = text("instructions")?;
    for d in v.get("depends_on").and_then(|d| d.as_sequence()).cloned().unwrap_or_default() {
        t.depends_on.push(d.as_str()?.to_string());
    }
    Some(t)
}

fn tasks_of(v: &Value) -> Option<Vec<TaskSpec>> {
    v.as_sequence()?.iter().map(task_of).collect()
}

fn read(yaml: &str) -> ParsedCandidate {
    let doc: Option<Value> = serde_yaml::from_str(yaml).ok();
    let document = doc.as_ref().and_then(|d| d.get("tasks")).and_then(tasks_of);
    let whole = doc
        .as_ref()
        .map(|d| d.get("version").is_some() && d.get("objective").is_some())
        .unwrap_or(false);
    let task_file = if whole { document.as_ref().map(|t| t.iter().cloned().collect()) } else { None };
    ParsedCandidate { document, task_file, list: doc.as_ref().and_then(tasks_of) }
}

fn parse_tasks_from_output(output: &str) -> Option<Vec<TaskSpec>> {
    pick_plan(&plan_texts(output).iter().map(|t| read(t)).collect())
}

#[test]
fn prefers_last_valid_yaml_block() {
    // Simulate a noisy stream with an early, minimal YAML and a later, final YAML.
    let output = r#"
[2025-08-28T15:23:28] codex
```yaml
tasks:
  - id: a
    agent: primary
    instructions: "do a"
    depends_on: []
  - id: b
    agent: primary
    instructions: "do b"
    depends_on: [a]
```
[2025-08-28T15:23:30] stream error: stream disconnected before completion: ...
[2025-08-28T15:23:32] recovering
```yaml
tasks:
  - id: research
    agent: research
    instructions: "r"
    depends_on: []
  - id: build
    agent: backend
    instructions: "b"
    depends_on: [research]
  - id: test
    agent: qa
    instructions: "t"
    depends_on: [build]
```
misc trailing text
"#;

    let tasks = parse_tasks_from_output(output).expect("should parse tasks");
    let ids: Vec<_> = tasks.into_iter().map(|t| t.id).collect();
    assert_eq!(ids, vec!["research", "build", "test"]);
}

#[test]
fn a_later_block_that_is_invalid_gives_way() {
    let output = "```yaml\ntasks:\n  - id: a\n    agent: p\n    instructions: x\n```\n\
                  ```yaml\ntasks:\n  - id: b\n    agent: p\n    instructions: x\n    depends_on: [c]\n```\n";
    let tasks = parse_tasks_from_output(output).unwrap();
    assert_eq!(tasks.len(), 1);
    assert_eq!(tasks[0].id, "a");
    assert!(parse_tasks_from_output("nothing of use").is_none());
}

#[test]
fn a_document_is_preferred_to_a_list() {
    let doc = |t: Vec<TaskSpec>| ParsedCandidate { document: Some(t), task_file: None, list: None };
    let list = |t: Vec<TaskSpec>| ParsedCandidate { document: None, task_file: None, list: Some(t) };
    let picked = pick_plan(&vec![doc(vec![task("d", &[])]), list(vec![task("l", &[])])]).unwrap();
    assert_eq!(picked[0].id, "d");
    let picked = pick_plan(&vec![
        doc(vec![task("x", &["missing"])]),
        list(vec![task("k", &[])]),
        list(vec![task("l", &[])]),
    ])
    .unwrap();
    assert_eq!(picked[0].id, "l");
    assert!(pick_plan(&vec![]).is_none());
}

#[test]
fn candidates_come_from_marked_blocks_first() {
    let output = "talk\n```yaml\ntasks: 1\n```\n---\ntasks: 2\n---\n```\ntasks: 3\n```\n";
    let c = extract_yaml_candidates(output);
    assert_eq!(c[0], "tasks: 1");
    assert_eq!(c[1], "tasks: 2");
    assert!(c.contains(&"tasks: 3"));
    assert_eq!(*c.last().unwrap(), output);
}

#[test]
fn candidates_are_assembled_from_spans() {
    let output = "tasks: é|tasks: b|c";
    let spans = |s: &[(usize, usize)]| s.iter().map(|p| Some(*p)).collect::<Vec<_>>();
    let c = assemble_candidates(output, &spans(&[(0, 9)]), &spans(&[(19, 20)]), &spans(&[(10, 18)]));
    assert_eq!(c[0], "tasks: é");
    assert!(c.contains(&"tasks: b"));
    // a front-matter block without tasks is passed over
    assert!(!c.contains(&"c"));
}

#[test]
fn the_least_offset_ends_a_block() {
    assert_eq!(least_offset(10, &vec![None, Some(7), Some(3), None, Some(5)]), 3);
    assert_eq!(least_offset(10, &vec![None, None]), 10);
}

#[test]
fn candidates_are_cleaned() {
    assert_eq!(sanitize_yaml_candidate("\u{feff}tasks:\r\n\t- a  \n"), "tasks:\r\n  - a");
    assert_eq!(sanitize_yaml_candidate("  x  "), "x");
}

#[test]
fn plans_are_validated() {
    assert!(validate_tasks(&vec![]).is_ok());
    assert!(validate_tasks(&vec![task("a", &["b"]), task("b", &[])]).is_ok());
    match validate_tasks(&vec![task("a", &["z"]), task("a", &[])]) {
        Err(TaskError::DuplicateTask(id)) => assert_eq!(id, "a"),
        _ => panic!("should be refused"),
    }
    match validate_tasks(&vec![task("a", &[]), task("b", &["a", "z"])]) {
        Err(TaskError::MissingDependency(id)) => assert_eq!(id, "z"),
        _ => panic!("should be refused"),
    }
}

#[test]
fn the_primary_agent_plans() {
    assert_eq!(select_primary_agent(&vec![agent("x"), agent("primary")]).unwrap().id, "primary");
    assert_eq!(select_primary_agent(&vec![agent("x"), agent("y")]).unwrap().id, "x");
    assert!(select_primary_agent(&vec![]).is_none());
}

#[test]
fn a_plan_is_asked_for() {
    let tf = file(vec![agent("primary"), agent("qa")]);
    let req = auto_plan_tasks(&tf, "the body", "/repo", Some("/home/u")).unwrap();
    assert_eq!(req.agent.id, "primary");
    assert_eq!(req.log_dir, "/home/u/.codex/planner-logs");
    assert_eq!(req.task.id, "auto-plan");
    assert_eq!(req.task.timeout_secs, Some(1200));
    assert_eq!(req.task.retries, Some(0));
    assert_eq!(req.task.cwd.as_deref(), Some("/repo"));
    let text = &req.task.instructions;
    assert!(text.contains("Objective:\nBuild it\n\nContext (from task.md body):\nthe body\n"));
    assert!(text.contains("agent: <one-of: [\"primary\", \"qa\"]>"));
    assert!(text.contains("- Use at most 6 tasks,"));
    let req = auto_plan_tasks(&tf, "", "/repo", None).unwrap();
    assert_eq!(req.log_dir, "/repo/.codex/planner-logs");
}

#[test]
fn without_agents_no_plan_is_asked_for() {
    let e = auto_plan_tasks(&file(vec![]), "", "/repo", None).unwrap_err();
    assert_eq!(e.message(), "invalid task file: no agents defined");
}

#[test]
fn a_missing_plan_is_an_error() {
    let e = plan_outcome(None, "/logs").unwrap_err();
    assert_eq!(
        e.message(),
        "invalid task file: planner did not return a valid YAML tasks list \
         (see /logs/stdout.log for output)"
    );
    assert_eq!(plan_outcome(Some(vec![task("a", &[])]), "/logs").unwrap()[0].id, "a");
}
