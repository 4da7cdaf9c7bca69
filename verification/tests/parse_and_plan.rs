use codex_task::extract_yaml_front_matter;
use codex_task::frontmatter::task_body;
use codex_task::order::sort_texts;
use codex_task::runner::RunEnv;
use codex_task::strmap::StrMap;
use codex_task::subagent::merge_envs;
use codex_task::subagent::OptionsEnv;
use codex_task::AgentSpec;
use codex_task::Dag;
use codex_task::Runner;
use codex_task::RunnerOptions;
use codex_task::TaskError;
use codex_task::TaskFile;
use codex_task::TaskSpec;
use serde_yaml::Value;

const SIMPLE: &str = r#"---
version: "1"
objective: "Ship a thing"
agents:
  - id: "primary"
    model: "o4-mini"
  - id: "backend"
    model: "gpt-5"
tasks:
  - id: "design"
    agent: "primary"
    instructions: "Do the high-level design."
    depends_on: []
  - id: "api"
    agent: "backend"
    instructions: "Implement API."
    depends_on: ["design"]
  - id: "tests"
    agent: "backend"
    instructions: "Write tests."
    depends_on: ["api"]
  - id: "docs"
    agent: "primary"
    instructions: "Draft docs."
    depends_on: ["api"]
concurrency: 2
---
Body not used
"#;

fn text(v: &Value, key: &str) -> Option<String> {
    v.get(key).and_then(|t| t.as_str()).map(|t| t.to_string())
}

fn env(v: &Value) -> StrMap<String> {
    let mut r = StrMap::new();
    if let Some(map) = v.get("env").and_then(|e| e.as_mapping()) {
        for (k, v) in map {
            r.insert(k.as_str().unwrap().to_string(), v.as_str().unwrap().to_string());
        }
    }
    r
}

fn list(v: &Value, key: &str) -> Vec<Value> {
    v.get(key).and_then(|l| l.as_sequence()).cloned().unwrap_or_default()
}

fn task_of(t: &Value) -> TaskSpec {
    TaskSpec {
        id: text(t, "id").unwrap(),
        title: text(t, "title"),
        agent: text(t, "agent").unwrap(),
        instructions: text(t, "instructions").unwrap(),
        depends_on: list(t, "depends_on").iter().map(|d| d.as_str().unwrap().to_string()).collect(),
        env: env(t),
        retries: t.get("retries").and_then(|n| n.as_u64()).map(|n| n as u32),
        timeout_secs: t.get("timeout_secs").and_then(|n| n.as_u64()),
        cwd: text(t, "cwd"),
    }
}

fn parse(yaml: &str) -> TaskFile {
    let doc: Value = match serde_yaml::from_str(yaml) {
        Ok(v) => v,
        Err(e) => panic!("yaml parse failed: {e}"),
    };
    TaskFile {
        version: text(&doc, "version").unwrap(),
        objective: text(&doc, "objective").unwrap(),
        agents: list(&doc, "agents")
            .iter()
            .map(|a| AgentSpec {
                id: text(a, "id").unwrap(),
                model: text(a, "model"),
                profile: text(a, "profile"),
                env: env(a),
                sandbox: text(a, "sandbox"),
                ask_for_approval: text(a, "ask_for_approval"),
            })
            .collect(),
        tasks: list(&doc, "tasks").iter().map(task_of).collect(),
        concurrency: doc.get("concurrency").and_then(|n| n.as_u64()).map(|n| n as usize),
    }
}

fn surroundings() -> RunEnv {
    RunEnv {
        home: Some("/home/u".to_string()),
        cwd: Some("/repo".to_string()),
        default_cwd: None,
        options: OptionsEnv { extra_args: None, subagent_bin: None, show_output: None },
    }
}

fn task(id: &str, deps: &[&str]) -> TaskSpec {
    TaskSpec {
        id: id.to_string(),
        title: None,
        agent: "a".to_string(),
        instructions: "do".to_string(),
        depends_on: deps.iter().map(|d| d.to_string()).collect(),
        env: StrMap::new(),
        retries: None,
        timeout_secs: None,
        cwd: None,
    }
}

fn file(tasks: Vec<TaskSpec>) -> TaskFile {
    TaskFile {
        version: "1".to_string(),
        objective: "o".to_string(),
        agents: vec![],
        tasks,
        concurrency: None,
    }
}

#[test]
fn test_frontmatter_parse() {
    let yaml = match extract_yaml_front_matter(SIMPLE) {
        Ok(y) => y,
        Err(e) => panic!("frontmatter parse failed: {}", e.message()),
    };
    let tf: TaskFile = parse(yaml);
    assert_eq!(tf.version, "1");
    assert_eq!(tf.objective, "Ship a thing");
    assert_eq!(tf.tasks.len(), 4);
}

#[test]
fn test_dag_levels() {
    let yaml = match extract_yaml_front_matter(SIMPLE) {
        Ok(y) => y,
        Err(e) => panic!("frontmatter parse failed: {}", e.message()),
    };
    let tf: TaskFile = parse(yaml);
    let dag = match Dag::build(&tf) {
        Ok(d) => d,
        Err(e) => panic!("dag build failed: {}", e.message()),
    };
    let levels = dag.levels();
    // Expected waves: [design], [api], [tests, docs] (third level order deterministic by sort)
    assert_eq!(levels.len(), 3);
    assert_eq!(levels[0], vec!["design".to_string()]);
    assert_eq!(levels[1], vec!["api".to_string()]);
    assert_eq!(levels[2], vec!["docs".to_string(), "tests".to_string()]);
}

#[test]
fn test_cyclic_dag_rejected() {
    const CYCLIC: &str = r#"---
version: "1"
objective: "Cycle"
agents:
  - id: a
tasks:
  - id: t1
    agent: a
    instructions: ""
    depends_on: ["t2"]
  - id: t2
    agent: a
    instructions: ""
    depends_on: ["t1"]
---
"#;
    let yaml = match extract_yaml_front_matter(CYCLIC) {
        Ok(y) => y,
        Err(e) => panic!("frontmatter parse failed: {}", e.message()),
    };
    let tf: TaskFile = parse(yaml);
    if Dag::build(&tf).is_ok() {
        panic!("should be cyclic")
    }
}

#[test]
fn test_env_merge_task_overrides_agent() {
    let mut agent_env = StrMap::new();
    agent_env.insert("FOO".to_string(), "from_agent".to_string());
    agent_env.insert("BAR".to_string(), "agent_bar".to_string());
    let agent = AgentSpec {
        id: "a".into(),
        model: None,
        profile: None,
        env: agent_env,
        sandbox: None,
        ask_for_approval: None,
    };
    let mut task_env = StrMap::new();
    task_env.insert("FOO".to_string(), "from_task".to_string());
    task_env.insert("BAZ".to_string(), "task_baz".to_string());
    let task = TaskSpec {
        id: "t".into(),
        title: None,
        agent: "a".into(),
        instructions: "hi".into(),
        depends_on: vec![],
        env: task_env,
        retries: None,
        timeout_secs: None,
        cwd: None,
    };
    let merged = merge_envs(&agent, &task);
    assert_eq!(merged.get("FOO").cloned(), Some("from_task".into()));
    assert_eq!(merged.get("BAR").cloned(), Some("agent_bar".into()));
    assert_eq!(merged.get("BAZ").cloned(), Some("task_baz".into()));
    assert_eq!(merged.len(), 3);
}

#[test]
fn test_dry_run_renders_plan() {
    let yaml = match extract_yaml_front_matter(SIMPLE) {
        Ok(y) => y,
        Err(e) => panic!("frontmatter parse failed: {}", e.message()),
    };
    let tf: TaskFile = parse(yaml);
    let dag = match Dag::build(&tf) {
        Ok(d) => d,
        Err(e) => panic!("dag build failed: {}", e.message()),
    };
    let mut opts = RunnerOptions::with_defaults_from_taskfile(&tf, &surroundings());
    opts.dry_run = true;
    let runner = match Runner::new(&tf, dag, opts) {
        Ok(r) => r,
        Err(e) => panic!("runner failed: {}", e.message()),
    };
    let plan = runner.render_plan();
    assert!(plan.contains("# Run Plan"));
    assert!(plan.contains("objective:"));
}

#[test]
fn a_plan_lists_levels_and_tasks() {
    let tf = parse(extract_yaml_front_matter(SIMPLE).unwrap());
    let dag = Dag::build(&tf).unwrap();
    let opts = RunnerOptions::with_run_id(&tf, "run-1".to_string(), &surroundings());
    let runner = Runner::new(&tf, dag, opts).unwrap();
    assert_eq!(
        runner.render_plan(),
        "# Run Plan\nrun_id: run-1\nobjective: Ship a thing\nconcurrency: 2\n\n## DAG levels\n\
         level 0: [\"design\"]\nlevel 1: [\"api\"]\nlevel 2: [\"docs\", \"tests\"]\n\n## Tasks\n\
         - id: design       agent: primary      depends_on: []\n\
         - id: api          agent: backend      depends_on: [\"design\"]\n\
         - id: tests        agent: backend      depends_on: [\"api\"]\n\
         - id: docs         agent: primary      depends_on: [\"api\"]\n"
    );
}

#[test]
fn front_matter_is_what_stands_between_the_fences() {
    assert_eq!(extract_yaml_front_matter("---\na: 1\n---\nbody").unwrap(), "a: 1\n");
    assert_eq!(extract_yaml_front_matter(" \n---\r\na: 1\r\n---\r\n").unwrap(), "a: 1\r\n");
    assert_eq!(extract_yaml_front_matter("---\n---").unwrap(), "");
    assert_eq!(extract_yaml_front_matter("---\n ---\n---").unwrap(), " ---\n");
}

#[test]
fn front_matter_may_be_missing_or_malformed() {
    let missing = extract_yaml_front_matter("# title\n").unwrap_err();
    assert_eq!(missing.message(), "invalid task file: missing YAML front-matter '---' header");
    let no_newline = extract_yaml_front_matter("---").unwrap_err();
    assert_eq!(no_newline.message(), "invalid task file: malformed YAML front-matter");
    let longer = extract_yaml_front_matter("----\na\n---\n").unwrap_err();
    assert_eq!(longer.message(), "invalid task file: malformed YAML front-matter");
    let open = extract_yaml_front_matter("---\na: 1\n").unwrap_err();
    assert_eq!(
        open.message(),
        "invalid task file: missing closing '---' for YAML front-matter"
    );
}

#[test]
fn the_body_follows_the_front_matter() {
    assert_eq!(task_body(SIMPLE), "Body not used");
    assert_eq!(task_body("---\na: 1\n---\none\ntwo\n"), "one\ntwo");
    assert_eq!(task_body("no front matter"), "");
    assert_eq!(task_body("---\nnever closed"), "");
}

#[test]
fn a_repeated_task_is_refused() {
    let tf = file(vec![task("x", &[]), task("y", &[]), task("x", &[]), task("y", &[])]);
    match Dag::build(&tf) {
        Err(TaskError::DuplicateTask(id)) => assert_eq!(id, "x"),
        _ => panic!("should be refused"),
    }
    assert_eq!(tf.validate().unwrap_err(), "duplicate task id: x");
}

#[test]
fn a_missing_dependency_is_refused() {
    let tf = file(vec![task("x", &["y"]), task("y", &["p", "q"])]);
    match Dag::build(&tf) {
        Err(TaskError::MissingDependency(id)) => assert_eq!(id, "p"),
        _ => panic!("should be refused"),
    }
    assert!(tf.validate().is_ok());
}

#[test]
fn a_task_that_depends_on_itself_is_a_cycle() {
    let tf = file(vec![task("x", &["x"])]);
    assert!(matches!(Dag::build(&tf), Err(TaskError::CyclicDag)));
}

#[test]
fn a_version_may_be_unsupported() {
    let mut tf = file(vec![]);
    assert!(tf.validate().is_ok());
    tf.version = "2".to_string();
    assert_eq!(tf.validate().unwrap_err(), "unsupported version: 2");
}

#[test]
fn levels_hold_each_task_once_after_its_dependencies() {
    let tf = file(vec![
        task("e", &["c", "d"]),
        task("d", &["b"]),
        task("c", &["a"]),
        task("b", &["a"]),
        task("a", &[]),
        task("z", &[]),
        task("f", &["z", "e", "z"]),
    ]);
    let levels = Dag::build(&tf).unwrap().levels();
    assert_eq!(
        levels,
        vec![vec!["a", "z"], vec!["b", "c"], vec!["d"], vec!["e"], vec!["f"]]
    );
    let at = |id: &str| levels.iter().position(|l| l.iter().any(|t| t == id)).unwrap();
    let mut count = 0;
    for t in &tf.tasks {
        count += levels.iter().filter(|l| l.contains(&t.id)).count();
        for d in &t.depends_on {
            assert!(at(d) < at(&t.id));
        }
    }
    assert_eq!(count, tf.tasks.len());
}

#[test]
fn no_tasks_have_no_levels() {
    let dag = Dag::build(&file(vec![])).unwrap();
    assert_eq!(dag.levels().len(), 0);
}

#[test]
fn tasks_and_agents_are_found_by_id() {
    let tf = parse(extract_yaml_front_matter(SIMPLE).unwrap());
    let dag = Dag::build(&tf).unwrap();
    assert_eq!(dag.task_by_id(&tf, "api").unwrap().agent, "backend");
    assert!(dag.task_by_id(&tf, "nothing").is_none());
    assert_eq!(tf.agent_by_id("backend").unwrap().model.as_deref(), Some("gpt-5"));
    assert!(tf.agent_by_id("nobody").is_none());
}

#[test]
fn texts_are_ordered_by_their_bytes() {
    let texts = vec!["é", "z", "a", "", "ab", "A", "a"].into_iter().map(String::from).collect();
    assert_eq!(sort_texts(&texts), vec!["", "A", "a", "a", "ab", "z", "é"]);
}

#[test]
fn a_map_keeps_its_keys_in_order() {
    let mut m = StrMap::new();
    for (k, v) in [("b", 1), ("a", 2), ("c", 3), ("b", 4)] {
        m.insert(k.to_string(), v);
    }
    assert_eq!(m.len(), 3);
    let pairs: Vec<(String, i32)> = (0..3).map(|i| (m.key_at(i).clone(), *m.value_at(i))).collect();
    assert_eq!(
        pairs,
        vec![("a".to_string(), 2), ("b".to_string(), 4), ("c".to_string(), 3)]
    );
    assert!(m.contains_key("a"));
    assert!(!m.contains_key("d"));
}
