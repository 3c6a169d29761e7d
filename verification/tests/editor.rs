use oxide::editor::{edit_file_command, path_needs_indirection};
use oxide::prompt::integration::edit_target_name;

/// The line for a path, its text handed over through a file where it has to.
fn edit_command(path: &str, shell: &str) -> String {
    let name = edit_target_name(4321, 7);
    let target = if path_needs_indirection(path) { Some(name.as_str()) } else { None };
    edit_file_command(path, shell, target).unwrap()
}

#[test]
fn non_posix_commands_never_use_the_quote_splice() {
    let hazards = [
        "/tmp/it's a config.toml",
        "/tmp/bang!.toml",
        "/tmp/back\\slash.toml",
        "/tmp/plain.toml",
        "/tmp/a space.toml",
    ];
    for shell in ["/opt/homebrew/bin/fish", "/bin/tcsh", "/opt/homebrew/bin/nu", "/usr/bin/elvish"] {
        for hazard in hazards {
            let command = edit_command(hazard, shell);
            assert!(
                !command.contains("'\\''"),
                "{shell} would get a quote splice for {hazard:?}:\n  {command}"
            );
        }
    }
}

#[test]
fn only_non_posix_shells_are_delegated_to_sh() {
    let path = "/tmp/config.toml";
    for direct in [
        "/bin/sh",
        "/bin/bash",
        "/bin/zsh",
        "/bin/dash",
        "/bin/ksh",
        "/opt/homebrew/bin/bash-5.2",
    ] {
        assert!(
            !edit_command(path, direct).starts_with("/bin/sh -c"),
            "{direct} understands the snippet directly and should not pay for a subshell"
        );
    }
    for delegated in [
        "/opt/homebrew/bin/fish",
        "/bin/tcsh",
        "/bin/csh",
        "/opt/homebrew/bin/nu",
        "/usr/bin/elvish",
    ] {
        assert!(
            edit_command(path, delegated).starts_with("/bin/sh -c"),
            "{delegated} cannot parse the snippet and must go through /bin/sh"
        );
    }
}

#[test]
fn the_three_lines_are_exact() {
    assert_eq!(
        edit_file_command("/tmp/it's", "/bin/zsh", None).unwrap(),
        "if [ -n \"${EDITOR:-}\" ]; then $EDITOR '/tmp/it'\\''s'; else open -t '/tmp/it'\\''s'; fi"
    );
    assert_eq!(
        edit_file_command("/tmp/a b", "/bin/fish", None).unwrap(),
        "/bin/sh -c 'if [ -n \"${EDITOR:-}\" ]; then $EDITOR \"$1\"; else open -t \"$1\"; fi' oxide '/tmp/a b'"
    );
    assert_eq!(
        edit_file_command("/tmp/a!", "/bin/fish", Some("12-3")).unwrap(),
        "/bin/sh -c 'f=\"$HOME/.cache/oxide/edit/12-3\"; p=$(cat \"$f\"); rm -f \"$f\"; if [ -n \"${EDITOR:-}\" ]; then $EDITOR \"$p\"; else open -t \"$p\"; fi'"
    );
}

#[test]
fn a_path_that_could_not_be_written_down_is_never_typed() {
    for path in ["/tmp/a!", "/tmp/it's", "/tmp/back\\slash"] {
        for shell in ["/bin/fish", "/bin/tcsh", "/opt/homebrew/bin/nu"] {
            assert_eq!(edit_file_command(path, shell, None), None);
            assert_eq!(edit_file_command(path, shell, Some("it's")), None);
        }
        assert!(edit_file_command(path, "/bin/zsh", None).is_some());
    }
}
