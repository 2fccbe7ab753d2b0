use process::display::{show_command, shown_args, skip_args};
use process::Cmd;

const GIT: &[u8] = b"/usr/bin/git";

fn bytes(list: &[&str]) -> Vec<Vec<u8>> {
    list.iter().map(|text| text.as_bytes().to_vec()).collect()
}

fn shown(program: &str, args: &[&str]) -> (Vec<String>, bool) {
    let (picked, cut) = shown_args(program.as_bytes(), Some(GIT), &bytes(args));
    let picked = picked
        .iter()
        .map(|arg| String::from_utf8(arg.clone()).unwrap())
        .collect();
    (picked, cut)
}

#[test]
fn a_command_line_in_color() {
    let mut cmd = Cmd::new(b"echo", "say");
    cmd.arg(b"hello").arg(b"world");
    assert_eq!(
        cmd.display(None),
        "\x1b[36mecho\x1b[39m \x1b[2mhello\x1b[0m \x1b[2mworld\x1b[0m"
    );
    cmd.current_dir(b"/tmp");
    assert_eq!(
        cmd.display(None),
        "cd /tmp && \x1b[36mecho\x1b[39m \x1b[2mhello\x1b[0m \x1b[2mworld\x1b[0m"
    );
    assert_eq!(
        cmd.log_command(None),
        "Executing `cd /tmp && \x1b[36mecho\x1b[39m \x1b[2mhello\x1b[0m \x1b[2mworld\x1b[0m`"
    );
}

#[test]
fn bytes_that_are_no_text_are_replaced() {
    let mut cmd = Cmd::new(b"e\xffo", "say");
    cmd.arg("\u{e9}".as_bytes()).arg(b"a\xe9");
    assert_eq!(
        cmd.display(None),
        "\x1b[36me\u{fffd}o\x1b[39m \x1b[2m\u{e9}\x1b[0m \x1b[2ma\u{fffd}\x1b[0m"
    );
}

#[test]
fn noise_of_git_is_not_shown() {
    let args = [
        "-c",
        "core.useBuiltinFSMonitor=false",
        "-c",
        "user.name=x",
        "diff",
        "--no-ext-diff",
        "--no-textconv",
        "--ignore-submodules",
        "--no-color",
        "-c",
        "protocol.version=2",
        "--",
        "-c",
    ];
    assert_eq!(
        shown("/usr/bin/git", &args).0,
        ["-c", "user.name=x", "diff", "--", "-c"]
    );
    assert_eq!(
        shown("/usr//bin/./git", &args).0,
        ["-c", "user.name=x", "diff", "--", "-c"]
    );
    assert_eq!(shown("/usr/bin/grep", &args[..6]).0, &args[..6]);
    let (all, _) = shown_args(b"/usr/bin/git", None, &bytes(&args[..6]));
    assert_eq!(all, bytes(&args[..6]));
}

#[test]
fn arguments_to_skip_are_counted() {
    let count = |cur: &str, next: Option<&str>| {
        skip_args(GIT, Some(GIT), cur.as_bytes(), next.map(str::as_bytes))
    };
    assert_eq!(count("-c", Some("core.useBuiltinFSMonitor=false")), 2);
    assert_eq!(count("-c", Some("protocol.version=2")), 2);
    assert_eq!(count("-c", Some("protocol.versio")), 0);
    assert_eq!(count("-c", None), 0);
    assert_eq!(count("--no-color", None), 1);
    assert_eq!(count("--no-colors", None), 0);
    assert_eq!(skip_args(b"ls", Some(GIT), b"--no-color", None), 0);
    assert_eq!(skip_args(GIT, None, b"--no-color", None), 0);
}

#[test]
fn a_setting_after_a_skipped_flag_is_shown() {
    assert_eq!(
        shown("/usr/bin/git", &["-c", "--no-color", "protocol.version=2"]).0,
        ["-c", "protocol.version=2"]
    );
}

#[test]
fn a_repeated_program_is_not_shown() {
    assert_eq!(shown("ls", &["ls", "-l"]).0, ["-l"]);
    assert_eq!(shown("ls", &["ls", "ls", "-l"]).0, ["ls", "-l"]);
    assert_eq!(shown("ls", &["-l", "ls"]).0, ["-l", "ls"]);
}

#[test]
fn wide_arguments_are_cut() {
    let fits = "x".repeat(99);
    let wide = "x".repeat(100);
    assert_eq!(shown("ls", &[&fits]), (vec![fits.clone()], false));
    assert_eq!(shown("ls", &[&wide]), (vec![wide.clone()], true));
    assert_eq!(shown("ls", &[&fits, "", "a"]), (vec![fits.clone(), String::new()], true));
    assert_eq!(shown("ls", &[&wide, "a"]), (vec![wide.clone()], true));
    let fifty = "x".repeat(49);
    assert_eq!(
        shown("ls", &[&fifty, &fifty]),
        (vec![fifty.clone(), fifty.clone()], false)
    );
    let mut cmd = Cmd::new(b"ls", "list");
    cmd.arg(wide.as_bytes()).arg(b"a");
    assert_eq!(
        cmd.display(None),
        format!("\x1b[36mls\x1b[39m \x1b[2m{wide}\x1b[0m \x1b[2m[...]\x1b[0m")
    );
}

#[test]
fn width_is_counted_in_bytes() {
    let wide = "\u{e9}".repeat(50);
    assert_eq!(shown("ls", &[&wide]), (vec![wide.clone()], true));
}

#[test]
fn skipped_arguments_take_no_width() {
    let mut args = vec!["--no-color"; 50];
    args.push("status");
    assert_eq!(shown("/usr/bin/git", &args), (vec!["status".to_string()], false));
}

#[test]
fn nothing_but_a_program() {
    assert_eq!(show_command(&None, "ls", &Vec::new(), false), "\x1b[36mls\x1b[39m");
    assert_eq!(
        show_command(&Some("/".to_string()), "", &vec![String::new()], true),
        "cd / && \x1b[36m\x1b[39m \x1b[2m\x1b[0m \x1b[2m[...]\x1b[0m"
    );
}
