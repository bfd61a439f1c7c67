use pi_natives::registry::{ExecutionRegistry, RegistryError};
use pi_natives::supervisor::{
    escalation_plan, relay_chunk, settle, EscalationStep, RaceOutcome, ShellError,
    ShellExecuteResult, CHUNK_SIZE, GRACE_PERIOD_MS,
};

#[test]
fn duplicate_id_is_refused_while_running() {
    let mut reg: ExecutionRegistry<u32> = ExecutionRegistry::new();
    assert_eq!(reg.register("run-1".to_string(), 1), Ok(()));
    assert_eq!(reg.register("run-1".to_string(), 2), Err(RegistryError::DuplicateExecution));
    assert_eq!(reg.register("run-2".to_string(), 3), Ok(()));
    assert!(reg.is_running(&"run-1".to_string()));
    assert!(reg.is_running(&"run-2".to_string()));
}

#[test]
fn id_can_be_reused_after_unregister() {
    let mut reg: ExecutionRegistry<u32> = ExecutionRegistry::new();
    assert_eq!(reg.register("a".to_string(), 1), Ok(()));
    reg.unregister(&"a".to_string());
    assert!(!reg.is_running(&"a".to_string()));
    assert_eq!(reg.register("a".to_string(), 2), Ok(()));
}

#[test]
fn cancel_hands_back_the_trigger() {
    let mut reg: ExecutionRegistry<&str> = ExecutionRegistry::new();
    reg.register("a".to_string(), "trigger-a").unwrap();
    reg.register("b".to_string(), "trigger-b").unwrap();
    assert_eq!(reg.cancel(&"b".to_string()), Some("trigger-b"));
    assert!(reg.is_running(&"b".to_string()));
    assert!(reg.is_running(&"a".to_string()));
    assert_eq!(reg.cancel(&"b".to_string()), None);
    assert!(reg.is_running(&"b".to_string()));
}

#[test]
fn cancelled_run_blocks_its_id_until_cleanup() {
    let mut reg: ExecutionRegistry<u32> = ExecutionRegistry::new();
    reg.register("job".to_string(), 1).unwrap();
    assert_eq!(reg.cancel(&"job".to_string()), Some(1));
    assert_eq!(reg.register("job".to_string(), 2), Err(RegistryError::DuplicateExecution));
    reg.unregister(&"job".to_string());
    assert!(!reg.is_running(&"job".to_string()));
    assert_eq!(reg.register("job".to_string(), 3), Ok(()));
    assert_eq!(reg.cancel(&"job".to_string()), Some(3));
}

#[test]
fn cancel_of_unknown_id_changes_nothing() {
    let mut reg: ExecutionRegistry<u32> = ExecutionRegistry::new();
    reg.register("known".to_string(), 5).unwrap();
    assert_eq!(reg.cancel(&"unknown".to_string()), None);
    assert!(reg.is_running(&"known".to_string()));
    reg.unregister(&"unknown".to_string());
    assert!(reg.is_running(&"known".to_string()));
}

#[test]
fn finished_run_reports_exit_code() {
    assert_eq!(
        settle(RaceOutcome::Finished(Ok(3))),
        Ok(ShellExecuteResult { exit_code: Some(3), cancelled: false, timed_out: false })
    );
    assert_eq!(
        settle(RaceOutcome::Finished(Ok(255))),
        Ok(ShellExecuteResult { exit_code: Some(255), cancelled: false, timed_out: false })
    );
}

#[test]
fn failed_run_reports_its_error() {
    let e = ShellError::InterpreterExecutionFailed("boom".to_string());
    assert_eq!(settle(RaceOutcome::Finished(Err(e.clone()))), Err(e));
}

#[test]
fn timeout_reports_timed_out_without_exit_code() {
    let outcome = RaceOutcome::TimedOut;
    assert!(outcome.escalates());
    assert_eq!(
        settle(outcome),
        Ok(ShellExecuteResult { exit_code: None, cancelled: false, timed_out: true })
    );
}

#[test]
fn cancellation_reports_cancelled_without_exit_code() {
    let outcome = RaceOutcome::Cancelled;
    assert!(outcome.escalates());
    assert_eq!(
        settle(outcome),
        Ok(ShellExecuteResult { exit_code: None, cancelled: true, timed_out: false })
    );
    assert!(!RaceOutcome::Finished(Ok(0)).escalates());
}

#[test]
fn escalation_interrupts_waits_then_kills() {
    assert_eq!(
        escalation_plan(&vec![10, 11]),
        vec![
            EscalationStep::Interrupt(10),
            EscalationStep::Interrupt(11),
            EscalationStep::Wait(50),
            EscalationStep::Kill(10),
            EscalationStep::Kill(11),
        ]
    );
    assert_eq!(GRACE_PERIOD_MS, 50);
}

#[test]
fn escalation_without_children_does_nothing() {
    assert_eq!(escalation_plan(&Vec::new()), Vec::<EscalationStep>::new());
}

#[test]
fn relay_delivers_the_bytes_read() {
    let buf = b"hello world";
    assert_eq!(relay_chunk(buf, Some(5)), Some("hello".to_string()));
    assert_eq!(relay_chunk(buf, Some(0)), None);
    assert_eq!(relay_chunk(buf, None), None);
}

#[test]
fn relay_replaces_invalid_bytes() {
    let buf = [0x66u8, 0xff, 0x67];
    assert_eq!(relay_chunk(&buf, Some(3)), Some("f\u{fffd}g".to_string()));
}

#[test]
fn relayed_chunks_rebuild_large_output() {
    let stream: Vec<u8> = (0..20_000u32).map(|i| b'a' + (i % 26) as u8).collect();
    let mut delivered = String::new();
    let mut count = 0;
    for piece in stream.chunks(CHUNK_SIZE) {
        let mut buf = [0u8; CHUNK_SIZE];
        buf[..piece.len()].copy_from_slice(piece);
        let chunk = relay_chunk(&buf, Some(piece.len())).unwrap();
        delivered.push_str(&chunk);
        count += 1;
    }
    assert_eq!(count, 3);
    assert_eq!(delivered.as_bytes(), &stream[..]);
}

#[test]
fn error_messages_carry_the_cause() {
    assert_eq!(ShellError::LockPoisoned.message(), "Execution lock poisoned");
    assert_eq!(ShellError::DuplicateExecution.message(), "Execution already running");
    assert_eq!(
        ShellError::InterpreterInitFailed("x".to_string()).message(),
        "Failed to initialize shell: x"
    );
    assert_eq!(ShellError::WorkingDirectorySetFailed("d".to_string()).message(), "Failed to set cwd: d");
    assert_eq!(ShellError::EnvironmentSetFailed("e".to_string()).message(), "Failed to set env: e");
    assert_eq!(ShellError::PipeCreationFailed("p".to_string()).message(), "Failed to create pipe: p");
    assert_eq!(ShellError::PipeCloneFailed("c".to_string()).message(), "Failed to clone pipe: c");
    assert_eq!(
        ShellError::InterpreterExecutionFailed("r".to_string()).message(),
        "Shell execution failed: r"
    );
}
