use oxide::cli::{parse, Cli, Parsed, USAGE};

fn strs(items: &[&str]) -> Vec<String> {
    items.iter().map(|s| s.to_string()).collect()
}

fn parse_ok(args: &[&str]) -> Cli {
    match parse(strs(args)) {
        Ok(Parsed::Run(cli)) => cli,
        other => panic!("expected a run, got {other:?}"),
    }
}

#[test]
fn no_arguments_means_defaults() {
    assert_eq!(parse_ok(&[]), Cli::default());
}

#[test]
fn directory_and_flags_in_any_order() {
    let cli = parse_ok(&["--no-startup-commands", "/tmp"]);
    assert_eq!(cli.directory, Some("/tmp".to_string()));
    assert!(cli.no_startup_commands);
    let cli = parse_ok(&["/tmp", "--no-startup-commands"]);
    assert_eq!(cli.directory, Some("/tmp".to_string()));
    assert!(cli.no_startup_commands);
}

#[test]
fn dash_e_takes_the_rest_verbatim() {
    let cli = parse_ok(&["-e", "vim", "--help", "-e", "/tmp"]);
    assert_eq!(cli.command, Some(strs(&["vim", "--help", "-e", "/tmp"])));
    assert_eq!(cli.directory, None);
}

#[test]
fn dash_e_needs_a_command() {
    assert_eq!(parse(strs(&["-e"])), Err("-e needs a command to run".to_string()));
}

#[test]
fn app_id_in_both_spellings() {
    assert_eq!(
        parse_ok(&["--app-id", "org.omarchy.btop"]).app_id.as_deref(),
        Some("org.omarchy.btop")
    );
    assert_eq!(
        parse_ok(&["--app-id=org.omarchy.btop"]).app_id.as_deref(),
        Some("org.omarchy.btop")
    );
    assert!(parse(strs(&["--app-id"])).is_err());
    assert!(parse(strs(&["--app-id="])).is_err());
    assert_eq!(parse(strs(&["--app-id"])), Err("--app-id needs a value".to_string()));
}

#[test]
fn xdg_terminal_exec_shape() {
    // What `xdg-terminal-exec --app-id=X -e cmd args` hands us.
    let cli = parse_ok(&["--app-id=org.omarchy.btop", "-e", "btop", "--utf-force"]);
    assert_eq!(cli.app_id.as_deref(), Some("org.omarchy.btop"));
    assert_eq!(cli.command, Some(strs(&["btop", "--utf-force"])));
}

#[test]
fn help_and_version_win() {
    assert_eq!(parse(strs(&["/tmp", "-h"])), Ok(Parsed::Help));
    assert_eq!(parse(strs(&["--version"])), Ok(Parsed::Version));
    // ...unless they belong to the command.
    assert!(matches!(parse(strs(&["-e", "cat", "--version"])), Ok(Parsed::Run(_))));
}

#[test]
fn unknown_options_and_extra_positionals_are_errors() {
    assert_eq!(parse(strs(&["--bogus"])), Err("unknown option: --bogus".to_string()));
    assert_eq!(parse(strs(&["/a", "/b"])), Err("unexpected argument: /b".to_string()));
    // Legacy Launch Services noise is still tolerated.
    assert_eq!(parse_ok(&["-psn_0_12345"]), Cli::default());
}

#[test]
fn working_directory_prefers_the_argument_then_cwd() {
    let explicit = Cli { directory: Some("/tmp".to_string()), ..Cli::default() };
    assert_eq!(explicit.working_directory(true, None), Some("/tmp".to_string()));

    let missing = Cli { directory: Some("/definitely/not/here".to_string()), ..Cli::default() };
    assert_eq!(missing.working_directory(false, Some("/home".to_string())), None);

    let cwd = Some("/home/me".to_string());
    assert_eq!(Cli::default().working_directory(false, cwd.clone()), cwd);
}

#[test]
fn the_root_is_no_place_to_start() {
    // Finder-launched apps inherit "/".
    assert_eq!(Cli::default().working_directory(false, Some("/".to_string())), None);
}

#[test]
fn usage_names_every_option() {
    for option in ["-e", "--app-id", "--no-startup-commands", "--version", "--help"] {
        assert!(USAGE.contains(option), "{option}");
    }
}
