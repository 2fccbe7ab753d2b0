use std::collections::HashMap;

use process::{Cmd, ColorChoice};

fn get_env_map(cmd: &Cmd) -> HashMap<String, String> {
    cmd.get_envs()
        .iter()
        .map(|(k, v)| {
            let key = String::from_utf8_lossy(k).to_string();
            let val = v
                .as_ref()
                .map(|v| String::from_utf8_lossy(v).to_string())
                .unwrap_or_default();
            (key, val)
        })
        .collect()
}

fn assert_env_var(envs: &HashMap<String, String>, key: &str, expected: Option<&str>) {
    let actual = envs.get(key).map(String::as_str);
    assert_eq!(actual, expected);
}

#[test]
fn test_set_color_env_always() {
    let mut cmd = Cmd::new(b"echo", "echo");
    cmd.set_color_env_with_choice(ColorChoice::Always);
    let envs = get_env_map(&cmd);
    assert_env_var(&envs, "FORCE_COLOR", Some("1"));
    assert_env_var(&envs, "CLICOLOR_FORCE", Some("1"));
    assert_env_var(&envs, "CLICOLOR", Some("1"));
    assert_env_var(&envs, "NO_COLOR", None);
}

#[test]
fn test_set_color_env_always_ansi() {
    let mut cmd = Cmd::new(b"echo", "echo");
    cmd.set_color_env_with_choice(ColorChoice::AlwaysAnsi);
    let envs = get_env_map(&cmd);
    assert_env_var(&envs, "FORCE_COLOR", Some("1"));
    assert_env_var(&envs, "CLICOLOR_FORCE", Some("1"));
    assert_env_var(&envs, "CLICOLOR", Some("1"));
    assert_env_var(&envs, "NO_COLOR", None);
}

#[test]
fn test_set_color_env_never() {
    let mut cmd = Cmd::new(b"echo", "echo");
    cmd.set_color_env_with_choice(ColorChoice::Never);
    let envs = get_env_map(&cmd);
    assert_env_var(&envs, "NO_COLOR", Some("1"));
    assert_env_var(&envs, "FORCE_COLOR", None);
    assert_env_var(&envs, "CLICOLOR_FORCE", None);
}

#[test]
fn test_set_color_env_auto() {
    let mut cmd = Cmd::new(b"echo", "echo");
    cmd.set_color_env_with_choice(ColorChoice::Auto);
    let envs = get_env_map(&cmd);
    assert_env_var(&envs, "CLICOLOR", Some("1"));
    assert_env_var(&envs, "FORCE_COLOR", None);
    assert_env_var(&envs, "CLICOLOR_FORCE", None);
    assert_env_var(&envs, "NO_COLOR", None);
}

#[test]
fn stored_choice_is_used() {
    for (stored, choice) in [
        (anstream::ColorChoice::Auto, ColorChoice::Auto),
        (anstream::ColorChoice::AlwaysAnsi, ColorChoice::AlwaysAnsi),
        (anstream::ColorChoice::Always, ColorChoice::Always),
        (anstream::ColorChoice::Never, ColorChoice::Never),
    ] {
        stored.write_global();
        let mut by_store = Cmd::new(b"echo", "echo");
        by_store.set_color_env();
        let mut by_choice = Cmd::new(b"echo", "echo");
        by_choice.set_color_env_with_choice(choice);
        assert_eq!(by_store.get_envs(), by_choice.get_envs());
    }
}

#[test]
fn choosing_again_changes_nothing_and_leaves_others() {
    let mut cmd = Cmd::new(b"echo", "echo");
    cmd.env(b"NO_COLOR", b"0").env(b"LANG", b"C");
    cmd.set_color_env_with_choice(ColorChoice::Always);
    let once = cmd.get_envs().clone();
    cmd.set_color_env_with_choice(ColorChoice::AlwaysAnsi);
    assert_eq!(cmd.get_envs(), &once);
    let envs = get_env_map(&cmd);
    assert_env_var(&envs, "NO_COLOR", Some("0"));
    assert_env_var(&envs, "LANG", Some("C"));
    assert_eq!(once.len(), 5);
}
