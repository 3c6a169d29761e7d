use oxide::config::schema::{
    CommandsConfig, PromptConfig, SegmentConfig, SegmentKind, SegmentOptions, ShellConfig,
};
use oxide::prompt::integration::{
    cache_dir, cd_target_path, edit_target_name, run_target_path, setup,
};
use oxide::prompt::{
    bash_segment_snippet, generate_init, generate_init_bash, segment_snippet, zsh_dq,
};

#[test]
fn generates_osc_markers_and_hooks() {
    let script = generate_init(&PromptConfig::default(), true);
    assert!(script.contains("133;A"));
    assert!(script.contains("133;B"));
    assert!(script.contains("133;C"));
    assert!(script.contains("133;D"));
    assert!(script.contains("add-zsh-hook precmd __oxide_precmd"));
    // Default config has cwd + git + exit segments.
    assert!(script.contains("__cwd"));
    assert!(script.contains("__br"));
    assert!(script.contains("__oxide_exit != 0"));
}

#[test]
fn env_segment_rejects_injection() {
    let seg = SegmentConfig {
        kind: SegmentKind::Env,
        options: SegmentOptions { var: Some("$(rm -rf /)".into()), ..Default::default() },
        ..Default::default()
    };
    assert_eq!(segment_snippet(0, &seg), "");
    assert_eq!(bash_segment_snippet(&seg), "");
}

#[test]
fn an_env_segment_reads_its_variable() {
    let seg = SegmentConfig {
        kind: SegmentKind::Env,
        options: SegmentOptions { var: Some("AWS_PROFILE".into()), ..Default::default() },
        ..Default::default()
    };
    assert!(segment_snippet(0, &seg).contains("AWS_PROFILE"));
    assert!(bash_segment_snippet(&seg).contains("AWS_PROFILE"));
}

#[test]
fn an_unstyled_prompt_still_marks() {
    for script in [
        generate_init(&PromptConfig::default(), false),
        generate_init_bash(&PromptConfig::default(), false),
    ] {
        assert!(script.contains("133;A") && script.contains("133;D"));
    }
    assert!(generate_init(&PromptConfig::default(), false).contains("__oxide_style_prompt=0\n"));
    assert!(generate_init(&PromptConfig::default(), true).contains("__oxide_style_prompt=1\n"));
}

#[test]
fn quoted_text_stays_text() {
    assert_eq!(zsh_dq("a\"b$c`d\\e"), "a\\\"b\\$c\\`d\\\\e");
}

#[test]
fn integration_files_go_to_the_cache() {
    assert_eq!(cache_dir("/home/me"), "/home/me/.cache/oxide");
    assert_eq!(cd_target_path("/home/me"), "/home/me/.cache/oxide/cd_target");
    assert_eq!(run_target_path("/home/me"), "/home/me/.cache/oxide/run_target");
    assert!(edit_target_name(12, 3).chars().all(|c| c.is_ascii_alphanumeric() || c == '-' || c == '.'));
    assert_ne!(edit_target_name(12, 3), edit_target_name(12, 4));
}

#[test]
fn only_zsh_and_bash_are_set_up() {
    let prompt = PromptConfig::default();
    let shell = ShellConfig::default();
    let commands = CommandsConfig::default();
    let plan = |program: &str| setup(&prompt, &shell, &commands, program, Some("/c"), None);
    let zsh = plan("/bin/zsh");
    assert!(zsh.integration.env.iter().any(|(k, _)| k == "ZDOTDIR"));
    assert!(zsh.files.iter().any(|(name, _)| name.ends_with(".zshrc")));
    let bash = plan("/bin/bash");
    assert!(bash.integration.args_override.is_some());
    let fish = plan("/bin/fish");
    assert!(fish.files.is_empty() && fish.integration.args_override.is_none());
}
