use oxide::changelog::{render_ansi, CHANGELOG};

#[test]
fn renders_headings_bullets_and_inline() {
    let md = "# Changelog\n\npreamble\n\n## [Unreleased]\n\n- pending\n\n## [0.5.1] - 2026-09-13\n\n### Fixed\n- `ls` and **bold** and [docs](https://x)\n";
    let out = render_ansi(md, 80).text;
    assert!(
        !out.contains("preamble") && !out.contains("pending"),
        "skips preamble and Unreleased"
    );
    assert!(
        out.contains("\x1b[1m\x1b[36m0.5.1 - 2026-09-13\x1b[0m"),
        "version heading, brackets dropped"
    );
    assert!(out.contains("\x1b[1m\x1b[33mFixed\x1b[0m"));
    assert!(
        out.contains("  • \x1b[36mls\x1b[0m and \x1b[1mbold\x1b[0m and \x1b[4mdocs\x1b[0m"),
        "{out}"
    );
}

#[test]
fn bundled_changelog_renders() {
    assert!(render_ansi(CHANGELOG, 80).text.contains("0.1.0"));
}

#[test]
fn a_changelog_without_a_release_shows_only_the_title() {
    let out = render_ansi("# Changelog\n\n## [Unreleased]\n\n- pending\n", 80).text;
    assert!(out.contains("what's new"));
    assert!(!out.contains("pending") && !out.contains("Unreleased"));
}
