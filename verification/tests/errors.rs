use codex_task::TaskError;

#[test]
fn errors_are_told_in_words() {
    let told = |e: TaskError| e.message();
    assert_eq!(told(TaskError::InvalidTaskFile("x".to_string())), "invalid task file: x");
    assert_eq!(told(TaskError::Yaml("x".to_string())), "yaml parse error: x");
    assert_eq!(told(TaskError::Io("x".to_string())), "io error: x");
    assert_eq!(told(TaskError::CyclicDag), "dag contains a cycle");
    assert_eq!(told(TaskError::UnknownAgent("x".to_string())), "unknown agent id: x");
    assert_eq!(told(TaskError::DuplicateTask("x".to_string())), "duplicate task id: x");
    assert_eq!(
        told(TaskError::MissingDependency("x".to_string())),
        "invalid depends_on (missing task id: x)"
    );
    assert_eq!(told(TaskError::Spawn("x".to_string())), "spawn failed: x");
    assert_eq!(
        told(TaskError::SubAgentFailed { code: -1, message: "x".to_string() }),
        "sub-agent failed with code -1: x"
    );
    assert_eq!(
        told(TaskError::SubAgentFailed { code: i32::MIN, message: String::new() }),
        "sub-agent failed with code -2147483648: "
    );
    assert_eq!(told(TaskError::Timeout(1200)), "timeout after 1200 seconds");
    assert_eq!(
        told(TaskError::SignalUnsupported("x")),
        "signal operation not supported on this platform: x"
    );
    assert_eq!(told(TaskError::Signal("x".to_string())), "failed to send signal: x");
    assert_eq!(told(TaskError::StdinClosed), "child stdin is not available or closed");
    assert_eq!(told(TaskError::Injection("x".to_string())), "injection write failed: x");
}
