use process::{Cmd, Stdio};

fn var(key: &str, val: Option<&str>) -> (Vec<u8>, Option<Vec<u8>>) {
    (key.as_bytes().to_vec(), val.map(|val| val.as_bytes().to_vec()))
}

#[test]
fn a_new_command_has_nothing_but_a_program() {
    let cmd = Cmd::new(b"echo", "say something");
    assert_eq!(cmd.get_program(), b"echo");
    assert!(cmd.get_args().is_empty());
    assert!(cmd.get_envs().is_empty());
    assert_eq!(cmd.get_current_dir(), None);
    assert!(!cmd.inner.env.is_cleared());
    assert_eq!(cmd.inner.stdin, None);
    assert_eq!(cmd.inner.stdout, None);
    assert_eq!(cmd.inner.stderr, None);
}

#[test]
fn arguments_are_kept_in_order() {
    let mut cmd = Cmd::new(b"git", "look");
    cmd.arg(b"log").args(&[b"-n", b"1"]).arg(b"\xff");
    assert_eq!(
        cmd.get_args(),
        &vec![b"log".to_vec(), b"-n".to_vec(), b"1".to_vec(), b"\xff".to_vec()]
    );
}

#[test]
fn variables_are_listed_by_name_and_the_last_value_counts() {
    let mut cmd = Cmd::new(b"env", "look");
    cmd.env(b"B", b"1")
        .envs(&[(b"C", b"2"), (b"A", b"3"), (b"B", b"4")])
        .env(b"AB", b"")
        .env_remove(b"C")
        .env_remove(b"Z");
    assert_eq!(
        cmd.get_envs(),
        &vec![
            var("A", Some("3")),
            var("AB", Some("")),
            var("B", Some("4")),
            var("C", None),
            var("Z", None),
        ]
    );
}

#[test]
fn lists_of_variables_in_sequence() {
    let mut one = Cmd::new(b"env", "look");
    one.envs(&[(b"A", b"1"), (b"B", b"2"), (b"A", b"3")]);
    let mut two = Cmd::new(b"env", "look");
    two.envs(&[(b"A", b"1")]).envs(&[(b"B", b"2"), (b"A", b"3")]);
    assert_eq!(one.get_envs(), two.get_envs());
    assert_eq!(one.get_envs(), &vec![var("A", Some("3")), var("B", Some("2"))]);
}

#[test]
fn nothing_needs_removing_where_nothing_is_inherited() {
    let mut cmd = Cmd::new(b"env", "look");
    cmd.env(b"A", b"1").env_remove(b"B").env_clear();
    assert!(cmd.inner.env.is_cleared());
    assert!(cmd.get_envs().is_empty());
    cmd.env(b"A", b"1").env(b"C", b"2").env_remove(b"A").env_remove(b"B");
    assert_eq!(cmd.get_envs(), &vec![var("C", Some("2"))]);
}

#[test]
fn directory_and_streams() {
    let mut cmd = Cmd::new(b"cat", "copy");
    cmd.current_dir(b"/tmp")
        .stdin(Stdio::Null)
        .stdout(Stdio::Handle(3))
        .stderr(Stdio::Inherit);
    assert_eq!(cmd.get_current_dir(), Some(b"/tmp".as_slice()));
    assert_eq!(cmd.inner.stdin, Some(Stdio::Null));
    assert_eq!(cmd.inner.stdout, Some(Stdio::Handle(3)));
    assert_eq!(cmd.inner.stderr, Some(Stdio::Inherit));
    cmd.stdout_to_stderr();
    assert_eq!(cmd.inner.stdout, Some(Stdio::ParentStderr));
    assert_eq!(cmd.inner.stderr, Some(Stdio::Inherit));
}
