//! The configuration: its values, the colours they resolve to, the file that
//! is written on the first run, and what is said of one with errors.
use vstd::prelude::*;

pub mod edit;
pub mod schema;
pub mod theme;

use crate::config::schema::{ColorsConfig, SshConfig};
use crate::config::theme::{hex_colour, parse_hex, preset_list, preset_names};
use crate::path::{file_name, join_path, joined_path, lemma_joining, named};
use crate::text::{
    chars_views, join, lines, maybe, replace_text, replaced_text, same, split_lines, str_views,
    string_of, trim, trim_chars,
};

verus! {

/// Where the configuration is read from: `$OXIDE_CONFIG`, else below the home
/// directory, else below the root.
pub fn config_path(oxide_config: Option<String>, home: Option<&str>) -> (r: String)
    ensures
        r@ == match oxide_config {
            Some(p) => p@,
            None => joined_path(
                match home {
                    Some(h) => h@,
                    None => "/"@,
                },
                ".config/oxide/config.toml"@,
            ),
        },
{
    match oxide_config {
        Some(p) => p,
        None => join_path(
            match home {
                Some(h) => h,
                None => "/",
            },
            ".config/oxide/config.toml",
        ),
    }
}

/// The first line of a text that is not blank.
pub open spec fn first_filled(v: Seq<Seq<char>>) -> Option<Seq<char>>
    decreases v.len(),
{
    if v.len() == 0 {
        None
    } else if trim(v[0]).len() > 0 {
        Some(trim(v[0]))
    } else {
        first_filled(v.skip(1))
    }
}

/// The first line of a message that says something.
pub open spec fn headline(s: Seq<char>) -> Seq<char> {
    match first_filled(lines(s)) {
        None => "parse failed"@,
        Some(l) => l,
    }
}

fn first_line(s: &str) -> (r: String)
    ensures
        r@ == headline(s@),
{
    let list = split_lines(s);
    let ghost all = lines(s@);
    let mut i: usize = 0;
    assert(all.skip(0) =~= all);
    while i < list.len()
        invariant
            i <= list.len(),
            all == chars_views(list@),
            all == lines(s@),
            first_filled(all) == first_filled(all.skip(i as int)),
        decreases list.len() - i,
    {
        assert(all.skip(i as int)[0] == list@[i as int]@);
        assert(all.skip(i as int).skip(1) =~= all.skip(i + 1));
        let line = trim_chars(&list[i]);
        if line.len() > 0 {
            return string_of(&line);
        }
        i += 1;
    }
    "parse failed".to_owned()
}

/// What the banner says of a file that does not parse.
pub fn config_error(message: &str) -> (r: String)
    ensures
        r@ == "config error: "@ + headline(message@),
{
    let mut out = "config error: ".to_owned();
    out.push_str(first_line(message).as_str());
    out
}

/// What the banner says of a file that cannot be read.
pub fn config_unreadable(message: &str) -> (r: String)
    ensures
        r@ == "config unreadable: "@ + message@,
{
    let mut out = "config unreadable: ".to_owned();
    out.push_str(message);
    out
}

/// What is wrong with a preset's name, if anything.
pub open spec fn preset_warning(key: Seq<char>, preset: Option<String>) -> Option<Seq<char>> {
    match preset {
        None => None,
        Some(p) => if preset_list().contains(p@) {
            None
        } else {
            Some(
                "unknown color "@ + key + " \""@ + p@ + "\" — available: "@ + join(
                    preset_list(),
                    ", "@,
                ),
            )
        },
    }
}

/// What is wrong with the accents of hosts, from host `i` on.
pub open spec fn accent_warning(ssh: SshConfig, i: int) -> Option<Seq<char>>
    decreases ssh.hosts@.len() - i,
{
    if i < 0 || i >= ssh.hosts@.len() {
        None
    } else if hex_colour(ssh.hosts@[i].accent@) is None {
        Some(
            "ssh.hosts: bad accent \""@ + ssh.hosts@[i].accent@ + "\" for \""@
                + ssh.hosts@[i].pattern@ + "\" — use #rrggbb"@,
        )
    } else {
        accent_warning(ssh, i + 1)
    }
}

/// The first thing that is wrong with a configuration that parses.
pub open spec fn warning(
    colors: ColorsConfig,
    ssh: SshConfig,
    opacities_fit: bool,
    thickness_fits: bool,
) -> Option<Seq<char>> {
    let a = preset_warning("preset"@, colors.preset);
    let b = preset_warning("preset_dark"@, colors.preset_dark);
    let c = preset_warning("preset_light"@, colors.preset_light);
    let d = accent_warning(ssh, 0);
    if a is Some {
        a
    } else if b is Some {
        b
    } else if c is Some {
        c
    } else if d is Some {
        d
    } else if !opacities_fit {
        Some(
            "window.inactive_pane_opacity / inactive_window_opacity must be between 0.05 and 1.0"@,
        )
    } else if !thickness_fits {
        Some("cursor.thickness must be between 0 and 1 (a fraction of a cell)"@)
    } else {
        None
    }
}

fn listed(name: &str, list: &Vec<&'static str>) -> (r: bool)
    ensures
        r == str_views(list@).contains(name@),
{
    let ghost all = str_views(list@);
    let mut i: usize = 0;
    while i < list.len()
        invariant
            i <= list.len(),
            all == str_views(list@),
            forall|k: int| 0 <= k < i ==> all[k] != name@,
        decreases list.len() - i,
    {
        assert(all[i as int] == list@[i as int]@);
        if same(name, list[i]) {
            return true;
        }
        i += 1;
    }
    false
}

fn joined_names(list: &Vec<&'static str>) -> (r: String)
    ensures
        r@ == join(str_views(list@), ", "@),
{
    let ghost all = str_views(list@);
    let mut out = String::new();
    let mut i: usize = 0;
    assert(all.take(0) =~= Seq::empty());
    assert(out@ =~= join(all.take(0), ", "@));
    while i < list.len()
        invariant
            i <= list.len(),
            all == str_views(list@),
            out@ == join(all.take(i as int), ", "@),
        decreases list.len() - i,
    {
        assert(all.take(i + 1).drop_last() =~= all.take(i as int));
        assert(all.take(i + 1).last() == list@[i as int]@);
        if i > 0 {
            out.push_str(", ");
        }
        out.push_str(list[i]);
        assert(out@ =~= join(all.take(i + 1), ", "@));
        i += 1;
    }
    assert(all.take(i as int) =~= all);
    out
}

fn check_preset(key: &str, preset: &Option<String>) -> (r: Option<String>)
    ensures
        maybe(r) == preset_warning(key@, *preset),
{
    match preset {
        None => None,
        Some(p) => {
            let names = preset_names();
            if listed(p.as_str(), &names) {
                None
            } else {
                let mut out = "unknown color ".to_owned();
                out.push_str(key);
                out.push_str(" \"");
                out.push_str(p.as_str());
                out.push_str("\" — available: ");
                out.push_str(joined_names(&names).as_str());
                Some(out)
            }
        },
    }
}

/// The first thing that is wrong with a configuration that parses, for a
/// banner. Fractions are compared by the caller: `opacities_fit` is whether
/// both opacities of inactive panes and windows lie between 0.05 and 1, and
/// `thickness_fits` whether the cursor's thickness lies between 0 and 1.
pub fn validate(
    colors: &ColorsConfig,
    ssh: &SshConfig,
    opacities_fit: bool,
    thickness_fits: bool,
) -> (r: Option<String>)
    ensures
        maybe(r) == warning(*colors, *ssh, opacities_fit, thickness_fits),
{
    if let Some(w) = check_preset("preset", &colors.preset) {
        return Some(w);
    }
    if let Some(w) = check_preset("preset_dark", &colors.preset_dark) {
        return Some(w);
    }
    if let Some(w) = check_preset("preset_light", &colors.preset_light) {
        return Some(w);
    }
    let mut i: usize = 0;
    while i < ssh.hosts.len()
        invariant
            i <= ssh.hosts.len(),
            accent_warning(*ssh, 0) == accent_warning(*ssh, i as int),
            preset_warning("preset"@, colors.preset) is None,
            preset_warning("preset_dark"@, colors.preset_dark) is None,
            preset_warning("preset_light"@, colors.preset_light) is None,
        decreases ssh.hosts.len() - i,
    {
        let host = &ssh.hosts[i];
        if parse_hex(host.accent.as_str()).is_none() {
            let mut out = "ssh.hosts: bad accent \"".to_owned();
            out.push_str(host.accent.as_str());
            out.push_str("\" for \"");
            out.push_str(host.pattern.as_str());
            out.push_str("\" — use #rrggbb");
            return Some(out);
        }
        i += 1;
    }
    if !opacities_fit {
        return Some(
            "window.inactive_pane_opacity / inactive_window_opacity must be between 0.05 and 1.0".to_owned(),
        );
    }
    if !thickness_fits {
        return Some("cursor.thickness must be between 0 and 1 (a fraction of a cell)".to_owned());
    }
    None
}

/// Whether some paths that changed are those of a file. Editors
/// write-and-rename, so the file's directory is watched, and changes to other
/// files in it are none of ours.
pub fn concerns(paths: &Vec<String>, name: &str) -> (r: bool)
    ensures
        r == exists|i: int| 0 <= i < paths@.len() && named(#[trigger] paths@[i]@) == Some(name@),
{
    let mut i: usize = 0;
    while i < paths.len()
        invariant
            i <= paths.len(),
            forall|k: int| 0 <= k < i ==> named(#[trigger] paths@[k]@) != Some(name@),
        decreases paths.len() - i,
    {
        if let Some(n) = file_name(paths[i].as_str()) {
            if same(n.as_str(), name) {
                assert(named(paths@[i as int]@) == Some(name@));
                return true;
            }
        }
        i += 1;
    }
    false
}

/// The generated config, in macOS terms.
pub const DEFAULT_CONFIG_FILE: &'static str = "# Oxide configuration.
# This file was generated on first run; every value shown is the default.
# Font and color changes apply live; [shell] and [prompt] changes apply to
# newly started sessions.

[font]
family      = \"JetBrainsMono Nerd Font Mono\"
                              # or a list: the rest are fallbacks for CJK/emoji,
                              # e.g. [\"JetBrainsMono Nerd Font Mono\", \"Apple Color Emoji\"]
size        = 14.0
line_height = 1.25
weight      = \"normal\"        # normal | medium | bold
ligatures   = false

[window]
padding  = { x = 12, y = 8 }
opacity  = 1.0                # 0.0 - 1.0; < 1.0 makes the background translucent
blur     = false              # blur what's behind a translucent window
titlebar = \"hidden\"           # native | hidden
new_tab_directory = \"pwd\"     # pwd | home — where cmd-t starts
inactive_pane_opacity   = 1.0 # dim the panes you aren't in (0.5–0.9 typical)
inactive_window_opacity = 1.0 # dim the whole window when another app is active

[cursor]
style          = \"block\"      # block | bar | underline (programs can override via DECSCUSR)
blink          = true
blink_interval = 530          # ms per half-cycle
unfocused      = \"hollow\"     # hollow | solid | hidden — the cursor in an unfocused pane
thickness      = 0.15         # bar width / underline height, as a fraction of a cell

[shell]
# program = \"/bin/zsh\"        # default: $SHELL
args           = [\"-l\"]
scrollback     = 10000
option_as_meta = \"none\"       # none | left | right | both
                              # (left/right currently behave like \"both\")
integration    = true         # OSC 133 markers + silent cd from the file tree.
                              # Independent of [prompt]: keep your own prompt
                              # (starship, p10k) and still get integration.

[tree]
width             = 280
show_hidden       = false
respect_gitignore = true      # dim gitignored files in the drawer
indent            = 16
icons             = true      # nerd-font icons in the drawer
follow_cwd        = true      # re-root the tree when the shell cd's
git_status        = true      # colour rows by git state (modified, added, untracked…)
open_on_startup   = true      # false starts with the drawer hidden (cmd-b shows it)

# [editor]
# open_at_line = \"myeditor --line {line} {path}\"   # for editors Oxide doesn't know

# bell = \"none\"               # none | sound | visual
# copy_on_select = false      # mouse selection copies to clipboard on release

[status_bar]
enabled  = true               # native bar showing cwd + git branch/dirty
position = \"bottom\"           # top | bottom
tab      = \"number\"           # number (2/5) | name — the current-tab chip beside the workspace

[tabs]
enabled      = true           # show the tab bar (View → Toggle Tab Bar flips it for the session)
show_numbers = true           # small position number on each tab — the n in cmd-n

[notifications]
enabled             = true    # notify when a command finishes in a pane you aren't watching
min_duration        = \"30s\"   # ...if it ran at least this long (\"2m\", \"1.5s\", or seconds)
only_when_unfocused = true    # stay quiet when the pane is focused and the window active
on_failure_always   = false   # a non-zero exit notifies regardless of duration
passthrough_osc9    = true    # let programs post notifications (OSC 9 / OSC 777)

[commands]
track        = true           # the command log: status bar, tab dots, cmd-r history, gutter
emit_cmdline = true           # the shell sends each command line to Oxide (memory only)
max_entries  = 500

[workspaces]
run_startup_commands = true   # re-run each pane's saved startup command when a pinned
                              # workspace is restored (skip once: --no-startup-commands,
                              # or hold shift while Oxide launches)
startup_timeout      = \"5s\"   # give up on a pane's command if its shell isn't ready by then

# [keymap]                    # keystroke = \"action id\"; see the keybindings docs
# \"cmd-shift-p\" = \"app::palette\"
# \"cmd-d\"       = \"\"          # unbind a default

# [[ssh.hosts]]                # colour a pane's border while ssh'd into a matching host
# match  = \"*.prod.example.com\"
# accent = \"#f38ba8\"

[colors]
# Presets: catppuccin-mocha | catppuccin-latte | gruvbox-dark | tokyonight
#          | dracula | nord | solarized-dark | oxide
#          | ethereal | everforest | flexoki-light | hackerman | kanagawa
#          | last-horizon | lumon | lupine | matte-black | miasma | osaka-jade
#          | retro-82 | ristretto | rose-pine-dawn | solitude | vantablack | white
preset = \"catppuccin-mocha\"
# Follow the system appearance instead, switching between two presets:
# follow_system = true
# preset_dark   = \"catppuccin-mocha\"
# preset_light  = \"catppuccin-latte\"
# Any color can override the preset individually:
# background   = \"#11111b\"
# foreground   = \"#cdd6f4\"
# cursor       = \"#f5e0dc\"
# selection_bg = \"#414458\"
# selection_fg = \"#cdd6f4\"    # text inside a selection; unset keeps each cell's colour
# black / red / green / yellow / blue / magenta / cyan / white
# bright_black / bright_red / ... / bright_white

# The prompt is compiled into a zsh init script and injected via ZDOTDIR.
# Your own ~/.zshrc is sourced first; only PROMPT is overridden.
# Requires zsh or bash; other shells keep their own prompt.
[prompt]
enabled              = true
separator            = \"\"   # powerline right arrow
end                  = \"\"
newline_before_input = false

# Segment kinds: cwd | git | exit_status | time | user | host | duration
#                | text (options.text) | env (options.var)
[[prompt.segments]]
kind = \"cwd\"
fg   = \"#11111b\"
bg   = \"#89b4fa\"
bold = true
options = { style = \"truncate_to_repo\", max_len = 40 }   # full | truncate_to_repo | basename

[[prompt.segments]]
kind = \"git\"
fg   = \"#11111b\"
bg   = \"#a6e3a1\"
options = { show_dirty = true, dirty_bg = \"#f9e2af\", ahead_behind = true }

[[prompt.segments]]
kind = \"exit_status\"
fg   = \"#11111b\"
bg   = \"#f38ba8\"
options = { hide_on_success = true }

# [[prompt.segments]]
# kind = \"time\"
# options = { format = \"%H:%M\" }

# [[prompt.segments]]
# kind = \"duration\"
";

/// The generated config, in macOS terms.
pub open spec fn template() -> Seq<char> {
    DEFAULT_CONFIG_FILE@
}

/// The generated config, with the key names in its comments spelled for the
/// platform.
pub open spec fn default_file(macos: bool) -> Seq<char> {
    if macos {
        template()
    } else {
        let t0 = replaced_text(template(), "\"cmd-shift-p\" = \"app::palette\""@, "\"ctrl-shift-p\" = \"app::palette\""@);
        let t1 = replaced_text(t0, "\"cmd-d\"       = \"\"  "@, "\"ctrl-shift-k\" = \"\""@);
        let t2 = replaced_text(t1, "the n in cmd-n"@, "the n in alt-n"@);
        let t3 = replaced_text(t2, "cmd-t"@, "ctrl-shift-t"@);
        let t4 = replaced_text(t3, "cmd-b"@, "ctrl-shift-b"@);
        let t5 = replaced_text(t4, "cmd-r"@, "ctrl-shift-r"@);
        t5
    }
}

/// The generated config, with the key names in its comments spelled for
/// this platform. The template is written in macOS terms; on Linux each
/// `cmd-…` mention becomes its Linux keymap equivalent so the comments
/// don't describe keys that don't exist here. The longest names come first,
/// so `cmd-shift-p` isn't rewritten as `ctrl-shift-shift-p`.
pub fn default_config_file(macos: bool) -> (r: String)
    ensures
        r@ == default_file(macos),
{
    if macos {
        return DEFAULT_CONFIG_FILE.to_owned();
    }
    proof {
        reveal_strlit("\"cmd-shift-p\" = \"app::palette\"");
        reveal_strlit("\"cmd-d\"       = \"\"  ");
        reveal_strlit("the n in cmd-n");
        reveal_strlit("cmd-t");
        reveal_strlit("cmd-b");
        reveal_strlit("cmd-r");
    }
    let t0 = replace_text(DEFAULT_CONFIG_FILE, "\"cmd-shift-p\" = \"app::palette\"", "\"ctrl-shift-p\" = \"app::palette\"");
    let t1 = replace_text(t0.as_str(), "\"cmd-d\"       = \"\"  ", "\"ctrl-shift-k\" = \"\"");
    let t2 = replace_text(t1.as_str(), "the n in cmd-n", "the n in alt-n");
    let t3 = replace_text(t2.as_str(), "cmd-t", "ctrl-shift-t");
    let t4 = replace_text(t3.as_str(), "cmd-b", "ctrl-shift-b");
    let t5 = replace_text(t4.as_str(), "cmd-r", "ctrl-shift-r");
    t5
}

/// Whether a preset that is set exists.
pub open spec fn known_preset(preset: Option<String>) -> bool {
    preset matches Some(p) ==> preset_list().contains(p@)
}

proof fn lemma_accents(ssh: SshConfig, i: int)
    requires
        0 <= i <= ssh.hosts@.len(),
    ensures
        accent_warning(ssh, i) is None <==> forall|k: int|
            i <= k < ssh.hosts@.len() ==> hex_colour((#[trigger] ssh.hosts@[k]).accent@) is Some,
    decreases ssh.hosts@.len() - i,
{
    if i < ssh.hosts@.len() {
        lemma_accents(ssh, i + 1);
    }
}

/// A file is accepted without a word exactly where the presets that it names
/// exist, every host's accent is a colour, and the fractions are in range.
pub proof fn lemma_no_warning(
    colors: ColorsConfig,
    ssh: SshConfig,
    opacities_fit: bool,
    thickness_fits: bool,
)
    ensures
        warning(colors, ssh, opacities_fit, thickness_fits) is None <==> known_preset(colors.preset)
            && known_preset(colors.preset_dark) && known_preset(colors.preset_light) && (forall|
            k: int,
        |
            0 <= k < ssh.hosts@.len() ==> hex_colour((#[trigger] ssh.hosts@[k]).accent@) is Some)
            && opacities_fit && thickness_fits,
{
    lemma_accents(ssh, 0);
}

/// An unknown preset is named together with its key, before anything else is
/// complained about.
pub proof fn lemma_unknown_presets(
    colors: ColorsConfig,
    ssh: SshConfig,
    opacities_fit: bool,
    thickness_fits: bool,
    p: String,
)
    requires
        !preset_list().contains(p@),
    ensures
        ({
            let told = warning(colors, ssh, opacities_fit, thickness_fits);
            let tail = p@ + "\" — available: "@ + join(preset_list(), ", "@);
            &&& colors.preset == Some(p) ==> told == Some(
                "unknown color "@ + "preset"@ + " \""@ + tail,
            )
            &&& known_preset(colors.preset) && colors.preset_dark == Some(p) ==> told == Some(
                "unknown color "@ + "preset_dark"@ + " \""@ + tail,
            )
            &&& known_preset(colors.preset) && known_preset(colors.preset_dark)
                && colors.preset_light == Some(p) ==> told == Some(
                "unknown color "@ + "preset_light"@ + " \""@ + tail,
            )
        }),
{
    let tail = p@ + "\" — available: "@ + join(preset_list(), ", "@);
    assert forall|key: Seq<char>| #[trigger] preset_warning(key, Some(p)) == Some(
        "unknown color "@ + key + " \""@ + tail,
    ) by {
        assert("unknown color "@ + key + " \""@ + p@ + "\" — available: "@ + join(
            preset_list(),
            ", "@,
        ) =~= "unknown color "@ + key + " \""@ + tail);
    }
}

/// Of a message, the first line that says something is shown.
pub proof fn lemma_headlines(v: Seq<Seq<char>>, k: int)
    requires
        0 <= k < v.len(),
        trim(v[k]).len() > 0,
        forall|i: int| 0 <= i < k ==> trim(#[trigger] v[i]).len() == 0,
    ensures
        first_filled(v) == Some(trim(v[k])),
    decreases k,
{
    if k > 0 {
        let r = v.skip(1);
        assert(trim(v[0]).len() == 0);
        assert forall|i: int| 0 <= i < k - 1 implies trim(#[trigger] r[i]).len() == 0 by {
            assert(r[i] == v[i + 1]);
        }
        assert(r[k - 1] == v[k]);
        lemma_headlines(r, k - 1);
    }
}

/// The configuration is where the environment says, or else in its place
/// below home.
pub proof fn lemma_where_the_configuration_is(p: String, home: &str, r: String)
    ensures
        call_ensures(config_path, (Some(p), Some(home)), r) ==> r@ == p@,
        home@.len() > 0 && home@.last() != '/' && call_ensures(config_path, (None, Some(home)), r)
            ==> r@ == home@ + seq!['/'] + ".config/oxide/config.toml"@,
{
    reveal_strlit(".config/oxide/config.toml");
    lemma_joining(home@, ".config/oxide/config.toml"@);
}

} // verus!
