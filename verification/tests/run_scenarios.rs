//! End-to-end scenarios: the parsed pipeline driven over real operating
//! system processes, stage by stage, exactly as the executor directs.

use piper::{Executor, PipeError, PipedCommand};
use subprocess::{Exec, Pipeline};

/// Drives the executor over real processes: each stage is spawned as the
/// executor directs, its input fed from the previous stage's captured
/// output when the executor says to wire it, and the last stage's output
/// and status are returned.
fn run(text: &str) -> Result<(Vec<u8>, bool), PipeError> {
    let parsed = PipedCommand::parse(text)?;
    let mut ex = Executor::new(parsed);
    let mut carried: Vec<u8> = Vec::new();
    let mut success = false;
    loop {
        let wire = ex.wires_input();
        let (program, args) = match ex.current() {
            None => break,
            Some(cmd) => (cmd.program.clone(), cmd.args.clone()),
        };
        let mut stage = Exec::cmd(&program).args(&args);
        if wire {
            stage = stage.stdin(std::mem::take(&mut carried));
        }
        match stage.capture() {
            Ok(cap) => {
                success = cap.success();
                carried = cap.stdout;
            },
            Err(_) => return Err(ex.spawn_error()),
        }
        ex.advance();
    }
    Ok((carried, success))
}

#[test]
fn three_stage_pipeline_output() {
    let (stdout, success) = run("echo goodbye | tr o b | tr b o").unwrap();
    assert_eq!(String::from_utf8_lossy(&stdout), "goodoye\n");
    assert!(success);
}

#[test]
fn single_stage_matches_direct_invocation() {
    let (stdout, success) = run("echo hello").unwrap();
    assert_eq!(String::from_utf8_lossy(&stdout), "hello\n");
    assert!(success);
    let direct = Exec::cmd("echo").arg("hello").capture().unwrap();
    assert_eq!(stdout, direct.stdout);
    assert_eq!(success, direct.success());
}

#[test]
fn pipeline_matches_externally_wired_pipe() {
    let (stdout, success) = run("echo goodbye | tr o b").unwrap();
    let manual = Pipeline::new()
        .pipe(Exec::cmd("echo").arg("goodbye"))
        .pipe(Exec::cmd("tr").args(&["o", "b"]))
        .capture()
        .unwrap();
    assert_eq!(stdout, manual.stdout);
    assert_eq!(success, manual.success());
}

#[test]
fn deterministic_pipeline_runs_identically_twice() {
    let once = run("echo repeat | tr e E").unwrap();
    let again = run("echo repeat | tr e E").unwrap();
    assert_eq!(once, again);
}

#[test]
fn missing_program_fails_at_stage_zero() {
    match run("nonexistent-binary-xyz | cat") {
        Err(PipeError::Spawn { stage, program }) => {
            assert_eq!(stage, 0);
            assert_eq!(program, "nonexistent-binary-xyz");
        },
        _ => panic!("expected the spawn error for stage 0"),
    }
}

#[test]
fn only_last_stage_status_is_observed() {
    let (stdout, success) = run("false | echo done").unwrap();
    assert_eq!(String::from_utf8_lossy(&stdout), "done\n");
    assert!(success);
}

#[test]
fn empty_input_spawns_nothing() {
    match run("") {
        Err(PipeError::Malformed { input }) => assert_eq!(input, ""),
        _ => panic!("expected the malformed-pipeline error"),
    }
}
