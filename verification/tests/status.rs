use std::io;

use process::child::PtyProcess;
use process::cmd::{Launched, SpawnPlan};
use process::status::{show_section, show_status};
use process::{Cmd, CmdChild, Error, ExitStatus, Output, StatusError, Stdio};

const GOOD: ExitStatus = ExitStatus { raw: 0 };
const BAD: ExitStatus = ExitStatus { raw: 256 };

fn output(status: ExitStatus) -> Output {
    Output {
        status,
        stdout: b"out\n".to_vec(),
        stderr: b" \n err \n".to_vec(),
    }
}

fn cause() -> io::Error {
    io::Error::from(io::ErrorKind::NotFound)
}

fn assert_status(error: Error, status: ExitStatus, with_output: bool) {
    match error {
        Error::Status { summary, error } => {
            assert_eq!(summary, "try");
            assert_eq!(error.status, status);
            match error.output {
                Some(found) => {
                    assert!(with_output);
                    assert_eq!(found.status, status);
                    assert_eq!(found.stdout, b"out\n");
                    assert_eq!(found.stderr, b" \n err \n");
                }
                None => assert!(!with_output),
            }
        }
        Error::Exec { .. } => panic!("the command was executed"),
    }
}

fn assert_exec(error: Error) {
    match error {
        Error::Exec { summary, cause } => {
            assert_eq!(summary, "try");
            assert_eq!(cause.kind(), io::ErrorKind::NotFound);
        }
        Error::Status { .. } => panic!("the command was not executed"),
    }
}

#[test]
fn success_is_status_zero() {
    assert!(GOOD.success());
    assert!(!BAD.success());
    assert!(!ExitStatus { raw: 9 }.success());
    assert!(!ExitStatus { raw: -1 }.success());
}

#[test]
fn a_status_is_checked_by_default() {
    let mut cmd = Cmd::new(b"false", "try");
    assert!(cmd.check_status(GOOD).is_ok());
    assert_status(cmd.check_status(BAD).unwrap_err(), BAD, false);
    assert!(cmd.maybe_check_status(GOOD).is_ok());
    assert_status(cmd.maybe_check_status(BAD).unwrap_err(), BAD, false);
    cmd.check(false);
    assert!(cmd.maybe_check_status(BAD).is_ok());
    assert_status(cmd.check_status(BAD).unwrap_err(), BAD, false);
}

#[test]
fn an_output_is_checked_by_default() {
    let mut cmd = Cmd::new(b"false", "try");
    assert!(cmd.check_output(&output(GOOD)).is_ok());
    assert_status(cmd.check_output(&output(BAD)).unwrap_err(), BAD, true);
    assert_status(cmd.maybe_check_output(&output(BAD)).unwrap_err(), BAD, false);
    assert!(cmd.maybe_check_output(&output(GOOD)).is_ok());
    cmd.check(false);
    assert!(cmd.maybe_check_output(&output(BAD)).is_ok());
}

#[test]
fn what_an_execution_comes_to() {
    let mut cmd = Cmd::new(b"false", "try");
    assert_eq!(cmd.status(Ok(GOOD)).unwrap(), GOOD);
    assert_status(cmd.status(Ok(BAD)).unwrap_err(), BAD, false);
    assert_exec(cmd.status(Err(cause())).unwrap_err());
    assert!(cmd.run(Ok(GOOD)).is_ok());
    assert_status(cmd.run(Ok(BAD)).unwrap_err(), BAD, false);
    assert_exec(cmd.run(Err(cause())).unwrap_err());
    cmd.check(false);
    assert_eq!(cmd.status(Ok(BAD)).unwrap(), BAD);
    assert!(cmd.run(Ok(BAD)).is_ok());
    assert_exec(cmd.run(Err(cause())).unwrap_err());
}

#[test]
fn what_collecting_output_comes_to() {
    let mut cmd = Cmd::new(b"false", "try");
    assert_eq!(cmd.output(Ok(output(GOOD))).unwrap().stdout, b"out\n");
    assert_status(cmd.output(Ok(output(BAD))).unwrap_err(), BAD, true);
    assert_exec(cmd.output(Err(cause())).unwrap_err());
    cmd.check(false);
    assert_eq!(cmd.output(Ok(output(BAD))).unwrap().status, BAD);
    assert_exec(cmd.output(Err(cause())).unwrap_err());
}

#[test]
fn streams_that_are_collected_are_those_left_open() {
    let mut cmd = Cmd::new(b"false", "try");
    let streams = cmd.output_streams();
    assert_eq!(streams.stdin, Stdio::Null);
    assert_eq!(streams.stdout, Stdio::Piped);
    assert_eq!(streams.stderr, Stdio::Piped);
    cmd.stdout(Stdio::Null).stdin(Stdio::Inherit);
    let streams = cmd.output_streams();
    assert_eq!(streams.stdin, Stdio::Inherit);
    assert_eq!(streams.stdout, Stdio::Null);
    assert_eq!(streams.stderr, Stdio::Piped);
    cmd.stdout_to_stderr().stderr(Stdio::Handle(1));
    let streams = cmd.output_streams();
    assert_eq!(streams.stdout, Stdio::ParentStderr);
    assert_eq!(streams.stderr, Stdio::Handle(1));
}

#[test]
fn what_spawning_comes_to() {
    let mut cmd = Cmd::new(b"ls", "try");
    assert!(matches!(
        cmd.spawn::<u8, u8, u8>(Ok(Launched::Direct(7))).unwrap(),
        CmdChild::TokioChild(Some(7))
    ));
    assert_exec(match cmd.spawn::<u8, u8, u8>(Err(cause())) {
        Ok(_) => panic!("nothing was launched"),
        Err(error) => error,
    });
    cmd.with_pty(true);
    assert!(matches!(
        cmd.spawn::<u8, u8, u8>(Ok(Launched::Pty { child: 8, master: 9 })).unwrap(),
        CmdChild::PtyChild { child: PtyProcess::Running(8), master: 9 }
    ));
}

#[test]
fn what_is_to_be_launched() {
    let mut cmd = Cmd::new(b"echo", "try");
    cmd.arg(b"hi").current_dir(b"/").env(b"TERM", b"dumb").env_remove(b"LANG");
    match cmd.spawn_plan() {
        SpawnPlan::Direct(command) => {
            assert_eq!(command.program, b"echo");
            assert_eq!(command.args, [b"hi".to_vec()]);
            assert_eq!(command.current_dir, Some(b"/".to_vec()));
        }
        SpawnPlan::Pty(_) => panic!("no terminal was asked for"),
    }
    cmd.with_pty(true);
    match cmd.spawn_plan() {
        SpawnPlan::Direct(_) => panic!("a terminal was asked for"),
        SpawnPlan::Pty(spawn) => {
            assert_eq!(spawn.command.program, b"echo");
            assert_eq!(spawn.command.args, [b"hi".to_vec()]);
            assert_eq!(spawn.command.current_dir, Some(b"/".to_vec()));
            assert_eq!(
                spawn.command.env.list(),
                &vec![
                    (b"LANG".to_vec(), None),
                    (b"TERM".to_vec(), Some(b"dumb".to_vec())),
                ]
            );
            assert_eq!((spawn.size.rows, spawn.size.cols), (24, 80));
            assert_eq!((spawn.size.pixel_width, spawn.size.pixel_height), (0, 0));
            assert_eq!(
                spawn.env,
                [("FORCE_COLOR", "1"), ("CLICOLOR", "1"), ("TERM", "xterm-256color")]
            );
        }
    }
    cmd.with_pty(false);
    assert!(matches!(cmd.spawn_plan(), SpawnPlan::Direct(_)));
}

#[test]
fn variables_for_a_terminal_win() {
    let var = |key: &str, val: Option<&str>| {
        (key.as_bytes().to_vec(), val.map(|val| val.as_bytes().to_vec()))
    };
    let changes = |cmd: &Cmd| match cmd.spawn_plan() {
        SpawnPlan::Pty(spawn) => {
            let env = spawn.env_changes();
            (env.list().clone(), env.is_cleared())
        }
        SpawnPlan::Direct(_) => panic!("a terminal was asked for"),
    };
    let mut cmd = Cmd::new(b"echo", "try");
    cmd.with_pty(true);
    cmd.env(b"TERM", b"dumb").env_remove(b"CLICOLOR").env(b"A", b"1").env_remove(b"B");
    assert_eq!(
        changes(&cmd),
        (
            vec![
                var("A", Some("1")),
                var("B", None),
                var("CLICOLOR", Some("1")),
                var("FORCE_COLOR", Some("1")),
                var("TERM", Some("xterm-256color")),
            ],
            false
        )
    );
    assert_eq!(cmd.get_envs().len(), 4);
    cmd.env_clear();
    assert_eq!(
        changes(&cmd),
        (
            vec![
                var("CLICOLOR", Some("1")),
                var("FORCE_COLOR", Some("1")),
                var("TERM", Some("xterm-256color")),
            ],
            true
        )
    );
}

#[test]
fn errors_in_words() {
    let error = Error::Exec { summary: "try".to_string(), cause: cause() };
    assert_eq!(error.display(""), "run command `try` failed");
    let error = Error::Status {
        summary: "try".to_string(),
        error: StatusError { status: BAD, output: None },
    };
    assert_eq!(
        error.display("exit status: 1"),
        "command `try` exited with an error:\n\n\x1b[31m[status]\x1b[39m\nexit status: 1\n"
    );
}

#[test]
fn output_of_a_failure_in_words() {
    let error = StatusError { status: BAD, output: Some(output(BAD)) };
    assert_eq!(
        error.display("exit status: 1"),
        "\n\x1b[31m[status]\x1b[39m\nexit status: 1\n\
         \n\x1b[31m[stdout]\x1b[39m\nout\n\
         \n\x1b[31m[stderr]\x1b[39m\nerr\n"
    );
    let error = StatusError {
        status: BAD,
        output: Some(Output {
            status: BAD,
            stdout: b" \n\t\n".to_vec(),
            stderr: b"a\xff\n\n  b".to_vec(),
        }),
    };
    assert_eq!(
        error.display("signal: 9"),
        "\n\x1b[31m[status]\x1b[39m\nsignal: 9\n\n\x1b[31m[stderr]\x1b[39m\na\u{fffd}\nb\n"
    );
}

#[test]
fn noise_in_the_output_makes_no_difference() {
    let report_bytes = |stdout: &[u8], stderr: &[u8]| {
        let output = Output {
            status: BAD,
            stdout: stdout.to_vec(),
            stderr: stderr.to_vec(),
        };
        StatusError { status: BAD, output: Some(output) }.display("exit status: 1")
    };
    let report = |stdout: &str, stderr: &str| report_bytes(stdout.as_bytes(), stderr.as_bytes());
    let plain = report("one\ntwo\n", "\u{e9}");
    assert_eq!(report("one\r\ntwo\r\n", "\u{e9}"), plain);
    assert_eq!(report("\n one\t\n\u{3000}\n\n  two", " \n\u{e9}\n\n"), plain);
    assert_ne!(report("one\n\ntw o\n", "\u{e9}"), plain);
    let plain = report_bytes(b"a\xff\n\xe2\x82\nb", b"\xff");
    assert_eq!(report_bytes(b"a\xff\r\n\xe2\x82\r\nb", b"\xff"), plain);
    assert_eq!(report_bytes(b" a\xff\n\n\xe2\x82 \nb\n", b"\t\xff"), plain);
}

#[test]
fn sections_of_a_report() {
    assert_eq!(show_section("[stdout]", ""), "");
    assert_eq!(show_section("t", " x \n\n y"), "\n\x1b[31mt\x1b[39m\nx\ny\n");
    assert_eq!(show_section("t", "x\ny"), show_section("t", " x \n\n y"));
    assert_eq!(
        show_status("s", Some(("", "e"))),
        "\n\x1b[31m[status]\x1b[39m\ns\n\n\x1b[31m[stderr]\x1b[39m\ne\n"
    );
    assert_eq!(show_status("s", Some(("", ""))), show_status("s", None));
}
