use handterm::child_env::{effective_env, program_candidates, upsert_env};

fn entry(k: &str, v: &str) -> (Vec<u8>, Vec<u8>) {
    (k.as_bytes().to_vec(), v.as_bytes().to_vec())
}

#[test]
fn upsert_replaces_the_first_entry_or_appends() {
    let mut env = vec![entry("A", "1"), entry("B", "2"), entry("A", "3")];
    upsert_env(&mut env, b"A", b"9");
    assert_eq!(env, vec![entry("A", "9"), entry("B", "2"), entry("A", "3")]);
    upsert_env(&mut env, b"C", b"4");
    assert_eq!(env.last(), Some(&entry("C", "4")));
    assert_eq!(env.len(), 4);
}

#[test]
fn child_environment_announces_the_terminal_then_applies_overrides() {
    let parent = vec![entry("HOME", "/home/u"), entry("TERM", "dumb")];
    let env = effective_env(parent, &[("HANDTERM_PTY_TEST", "fork-safe"), ("COLORTERM", "24bit")]);
    assert_eq!(
        env,
        vec![
            entry("HOME", "/home/u"),
            entry("TERM", "xterm-256color"),
            entry("COLORTERM", "24bit"),
            entry("HANDTERM_PTY_TEST", "fork-safe"),
        ]
    );
}

#[test]
fn program_with_a_slash_is_used_as_is() {
    assert_eq!(
        program_candidates("/bin/sh", &[entry("PATH", "/usr/bin")]),
        Ok(vec![b"/bin/sh".to_vec()])
    );
}

#[test]
fn program_is_searched_along_path_like_execvp() {
    let env = vec![entry("PATH", "/usr/local/bin::/opt/bin/"), entry("PATH", "/ignored")];
    assert_eq!(
        program_candidates("sh", &env),
        Ok(vec![
            b"/usr/local/bin/sh".to_vec(),
            b"./sh".to_vec(),
            b"/opt/bin/sh".to_vec(),
        ])
    );
    assert_eq!(
        program_candidates("sh", &[]),
        Ok(vec![b"/usr/bin/sh".to_vec(), b"/bin/sh".to_vec()])
    );
}

#[test]
fn nul_bytes_make_an_invalid_shell_path() {
    assert_eq!(
        program_candidates("s\0h", &[]),
        Err("invalid shell path: s\0h".to_string())
    );
    assert_eq!(
        program_candidates("sh", &[(b"PATH".to_vec(), b"/a\0b".to_vec())]),
        Err("invalid shell path: sh".to_string())
    );
}
