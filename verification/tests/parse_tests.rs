//! Parsing behaviour: token splitting, whitespace handling, empty-segment
//! policy, and the malformed-pipeline error.

use piper::{PipeError, PipedCommand, Pipeline};

fn programs_and_args(p: &Pipeline) -> Vec<(String, Vec<String>)> {
    let mut out = vec![(p.first.program.clone(), p.first.args.clone())];
    for c in &p.rest {
        out.push((c.program.clone(), c.args.clone()));
    }
    out
}

#[test]
fn single_stage_splits_program_and_args() {
    let p = PipedCommand::parse("echo hello").unwrap();
    assert_eq!(p.first.program, "echo");
    assert_eq!(p.first.args, vec!["hello".to_string()]);
    assert!(p.rest.is_empty());
}

#[test]
fn three_stages_in_order() {
    let p = PipedCommand::parse("echo goodbye | tr o b | tr b o").unwrap();
    let cmds = programs_and_args(&p);
    assert_eq!(
        cmds,
        vec![
            ("echo".to_string(), vec!["goodbye".to_string()]),
            ("tr".to_string(), vec!["o".to_string(), "b".to_string()]),
            ("tr".to_string(), vec!["b".to_string(), "o".to_string()]),
        ]
    );
}

#[test]
fn empty_input_is_malformed() {
    match PipedCommand::parse("") {
        Err(PipeError::Malformed { input }) => assert_eq!(input, ""),
        _ => panic!("expected the malformed-pipeline error"),
    }
}

#[test]
fn whitespace_only_input_is_malformed() {
    match PipedCommand::parse("   ") {
        Err(PipeError::Malformed { input }) => assert_eq!(input, "   "),
        _ => panic!("expected the malformed-pipeline error"),
    }
}

#[test]
fn pipes_only_input_is_malformed() {
    match PipedCommand::parse(" | ||  | ") {
        Err(PipeError::Malformed { input }) => assert_eq!(input, " | ||  | "),
        _ => panic!("expected the malformed-pipeline error"),
    }
}

#[test]
fn extra_whitespace_parses_like_minimal_spacing() {
    let padded = PipedCommand::parse("  echo   hi\t |\t tr  h H  ").unwrap();
    let minimal = PipedCommand::parse("echo hi|tr h H").unwrap();
    assert_eq!(programs_and_args(&padded), programs_and_args(&minimal));
}

#[test]
fn tabs_and_newlines_separate_tokens() {
    let p = PipedCommand::parse("printf a\tb\nc").unwrap();
    assert_eq!(p.first.program, "printf");
    assert_eq!(p.first.args, vec!["a".to_string(), "b".to_string(), "c".to_string()]);
}

#[test]
fn empty_segments_are_ignored() {
    let doubled = PipedCommand::parse("echo hi | | tr h H").unwrap();
    let leading = PipedCommand::parse("| echo hi | tr h H").unwrap();
    let trailing = PipedCommand::parse("echo hi | tr h H |").unwrap();
    let plain = PipedCommand::parse("echo hi | tr h H").unwrap();
    assert_eq!(programs_and_args(&doubled), programs_and_args(&plain));
    assert_eq!(programs_and_args(&leading), programs_and_args(&plain));
    assert_eq!(programs_and_args(&trailing), programs_and_args(&plain));
}

#[test]
fn parse_is_deterministic() {
    let once = PipedCommand::parse("sort -r | uniq -c").unwrap();
    let twice = PipedCommand::parse("sort -r | uniq -c").unwrap();
    assert_eq!(programs_and_args(&once), programs_and_args(&twice));
}

#[test]
fn program_with_no_args() {
    let p = PipedCommand::parse("ls|wc").unwrap();
    assert_eq!(p.first.program, "ls");
    assert!(p.first.args.is_empty());
    assert_eq!(p.rest[0].program, "wc");
    assert!(p.rest[0].args.is_empty());
}

#[test]
fn form_feed_separates_tokens() {
    let p = PipedCommand::parse("echo a\x0cb").unwrap();
    assert_eq!(p.first.program, "echo");
    assert_eq!(p.first.args, vec!["a".to_string(), "b".to_string()]);
}

#[test]
fn non_ascii_whitespace_stays_in_a_token() {
    let p = PipedCommand::parse("echo a\u{00a0}b").unwrap();
    assert_eq!(p.first.program, "echo");
    assert_eq!(p.first.args, vec!["a\u{00a0}b".to_string()]);
}

#[test]
fn multibyte_characters_survive_parsing() {
    let p = PipedCommand::parse("echo héllo wörld | tr é e").unwrap();
    assert_eq!(p.first.program, "echo");
    assert_eq!(p.first.args, vec!["héllo".to_string(), "wörld".to_string()]);
    assert_eq!(p.rest[0].program, "tr");
    assert_eq!(p.rest[0].args, vec!["é".to_string(), "e".to_string()]);
}

#[test]
fn malformed_error_describes_itself() {
    let e = PipedCommand::parse(" | ").unwrap_err();
    assert_eq!(e.describe(), "malformed pipeline:  | ");
}
