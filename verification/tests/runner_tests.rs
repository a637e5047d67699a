//! The spawn driver's decisions: stage order, input wiring, and the error
//! reported when a spawn is refused.

use piper::{Executor, PipeError, PipedCommand};

#[test]
fn walks_stages_in_order() {
    let p = PipedCommand::parse("echo hi | tr h H | wc -c").unwrap();
    let mut ex = Executor::new(p);

    assert!(!ex.wires_input());
    let c0 = ex.current().expect("stage 0");
    assert_eq!(c0.program, "echo");
    assert_eq!(c0.args, vec!["hi".to_string()]);
    ex.advance();

    assert!(ex.wires_input());
    let c1 = ex.current().expect("stage 1");
    assert_eq!(c1.program, "tr");
    assert_eq!(c1.args, vec!["h".to_string(), "H".to_string()]);
    ex.advance();

    assert!(ex.wires_input());
    let c2 = ex.current().expect("stage 2");
    assert_eq!(c2.program, "wc");
    assert_eq!(c2.args, vec!["-c".to_string()]);
    ex.advance();

    assert!(ex.current().is_none());
}

#[test]
fn spawn_error_names_first_stage() {
    let p = PipedCommand::parse("nonexistent-binary-xyz | cat").unwrap();
    let ex = Executor::new(p);
    match ex.spawn_error() {
        PipeError::Spawn { stage, program } => {
            assert_eq!(stage, 0);
            assert_eq!(program, "nonexistent-binary-xyz");
        },
        _ => panic!("expected the spawn error"),
    }
}

#[test]
fn spawn_error_names_later_stage() {
    let p = PipedCommand::parse("echo hi | missing-filter-abc").unwrap();
    let mut ex = Executor::new(p);
    ex.advance();
    match ex.spawn_error() {
        PipeError::Spawn { stage, program } => {
            assert_eq!(stage, 1);
            assert_eq!(program, "missing-filter-abc");
        },
        _ => panic!("expected the spawn error"),
    }
}

#[test]
fn spawn_error_describes_itself() {
    let p = PipedCommand::parse("nonexistent-binary-xyz").unwrap();
    let ex = Executor::new(p);
    let e = ex.spawn_error();
    assert_eq!(e.describe(), "failed to spawn stage program nonexistent-binary-xyz");
}

#[test]
fn single_stage_walk_never_wires_input() {
    let p = PipedCommand::parse("echo hello").unwrap();
    let mut ex = Executor::new(p);
    assert!(!ex.wires_input());
    assert_eq!(ex.current().unwrap().program, "echo");
    ex.advance();
    assert!(ex.current().is_none());
}
