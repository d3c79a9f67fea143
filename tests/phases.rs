use prepost::argparse::{Argument, ArgumentParser};
use prepost::command::{split_command, white_space};
use prepost::phases::{Outcome, Phase, PhaseRunner, RunPlan, Step};

fn plan(tokens: &[&str]) -> RunPlan {
    let mut parser = ArgumentParser::new();
    for (name, required) in [("pre", false), ("cmd", true), ("post", false)] {
        parser.add_argument(Argument {
            name: name.into(),
            description: "".into(),
            required,
            multiple: name != "cmd",
        });
    }
    let args = parser
        .parse_args(tokens.iter().map(|s| s.to_string()).collect())
        .unwrap();
    RunPlan::from_args(&args)
}

/// Drives a runner, answering each command with the exit code that `exit_of`
/// gives for its command line; returns the commands run and the final code.
fn drive(plan: RunPlan, exit_of: impl Fn(&str) -> Outcome) -> (Vec<(Phase, String)>, i32) {
    let mut runner = PhaseRunner::new(plan);
    let mut ran = Vec::new();
    loop {
        match runner.next_step() {
            Step::Finish(code) => return (ran, code),
            Step::Run(phase) => {
                let cmd = runner.current_command().clone();
                let outcome = exit_of(&cmd);
                ran.push((phase, cmd));
                runner.record(outcome);
            }
        }
    }
}

fn shell_like(cmd: &str) -> Outcome {
    match cmd {
        "true" => Outcome::Exited(Some(0)),
        "false" => Outcome::Exited(Some(1)),
        "killed" => Outcome::Exited(None),
        "exit7" => Outcome::Exited(Some(7)),
        _ => Outcome::SpawnFailed,
    }
}

#[test]
fn failing_pre_aborts_run() {
    let (ran, code) = drive(plan(&["--pre=false", "--cmd=true", "--post=true"]), shell_like);
    assert_eq!(ran, vec![(Phase::Pre(0), "false".to_string())]);
    assert_eq!(code, 1);
}

#[test]
fn failing_main_still_runs_posts() {
    let (ran, code) = drive(plan(&["--cmd=false", "--post=true", "--post=true"]), shell_like);
    assert_eq!(
        ran,
        vec![
            (Phase::Main, "false".to_string()),
            (Phase::Post(0), "true".to_string()),
            (Phase::Post(1), "true".to_string()),
        ]
    );
    assert_eq!(code, 1);
}

#[test]
fn main_alone_exits_zero() {
    let (ran, code) = drive(plan(&["--cmd=true"]), shell_like);
    assert_eq!(ran, vec![(Phase::Main, "true".to_string())]);
    assert_eq!(code, 0);
}

#[test]
fn phases_run_in_order() {
    let (ran, code) = drive(
        plan(&["--post=true", "--pre=true", "--cmd=exit7", "--pre=true", "--post=false"]),
        shell_like,
    );
    let phases: Vec<Phase> = ran.iter().map(|(p, _)| *p).collect();
    assert_eq!(
        phases,
        vec![Phase::Pre(0), Phase::Pre(1), Phase::Main, Phase::Post(0), Phase::Post(1)]
    );
    assert_eq!(code, 7);
}

#[test]
fn pre_code_is_propagated_and_signal_gives_one() {
    let (_, code) = drive(plan(&["--pre=exit7", "--cmd=true"]), shell_like);
    assert_eq!(code, 7);
    let (ran, code) = drive(plan(&["--pre=killed", "--cmd=true"]), shell_like);
    assert_eq!(ran.len(), 1);
    assert_eq!(code, 1);
    let (_, code) = drive(plan(&["--cmd=killed"]), shell_like);
    assert_eq!(code, 1);
}

#[test]
fn spawn_failure_is_fatal_in_every_phase() {
    let (ran, code) = drive(plan(&["--pre=nope", "--cmd=true"]), shell_like);
    assert_eq!((ran.len(), code), (1, 1));
    let (ran, code) = drive(plan(&["--cmd=nope", "--post=true"]), shell_like);
    assert_eq!((ran.len(), code), (1, 1));
    let (ran, code) = drive(plan(&["--cmd=true", "--post=nope", "--post=true"]), shell_like);
    assert_eq!((ran.len(), code), (2, 1));
}

#[test]
fn main_command_is_first_cmd_value() {
    let p = plan(&["--cmd=ls -la", "--cmd=whoami"]);
    assert_eq!(p.cmd, "ls -la");
    assert!(p.pre.is_empty());
    assert!(p.post.is_empty());
}

#[test]
fn split_command_on_whitespace() {
    assert_eq!(split_command("ls -la /tmp"), vec!["ls", "-la", "/tmp"]);
    assert_eq!(split_command("true"), vec!["true"]);
    assert_eq!(split_command(""), Vec::<String>::new());
    assert_eq!(split_command(" \t\n "), Vec::<String>::new());
    assert_eq!(split_command("a  b"), vec!["a", "b"]);
    assert_eq!(split_command("echo x "), vec!["echo", "x"]);
    assert_eq!(split_command("\tprintf\t%s\u{3000}y\n"), vec!["printf", "%s", "y"]);
}

#[test]
fn split_command_matches_split_whitespace() {
    for s in ["  a b\t\tc ", "x\u{a0}y\u{2028}z", "\u{85}q", "é  è"] {
        let expected: Vec<String> = s.split_whitespace().map(|w| w.to_string()).collect();
        assert_eq!(split_command(s), expected);
    }
}

#[test]
fn white_space_agrees_with_std() {
    for u in 0u32..=0x10ffff {
        if let Some(c) = char::from_u32(u) {
            assert_eq!(white_space(c), c.is_whitespace(), "U+{:04X}", u);
        }
    }
}
