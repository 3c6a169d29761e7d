//! Merge the built-in keymap with the user's `[keymap]` config into the
//! bindings the window installs, plus a lookup the palette uses to show which
//! keys invoke each action.
//!
//! Errors never abort: every malformed entry is reported and skipped, and
//! everything else still binds.
use vstd::prelude::*;

use crate::config::schema::KeymapConfig;
use crate::keymap::actions::registry;
use crate::keymap::default::{binding_rows, default_bindings, defaults, BindingRow};
use crate::keymap::keystroke::{find_parse, parse_of, KeyParse, Keystroke, Modifiers};
use crate::keymap::registry::{by_id, distance, nearest_id, nearest_row, row_of, NEAR, Row};
use crate::text::{
    chars_of, join, joined, same, split_words, str_upper, trim, trimmed, upper_of, views, words,
};

verus! {

/// A keybinding context: the name of the element that owns the binding, and
/// the `[keymap.<name>]` table users write.
#[derive(Debug, Clone, Copy, PartialEq, Eq, Structural, Hash)]
pub enum KeyCtx {
    Root,
    Terminal,
    /// Copy mode: keys don't reach the shell, so bare letters are legal.
    TerminalVi,
    FileTree,
    Workspaces,
    /// Any modal list: theme picker and command palette.
    Overlay,
    /// A modal list without a text input, nested inside `Overlay`.
    OverlayList,
}

impl KeyCtx {
    /// The context's name in the window.
    pub open spec fn window_name(self) -> Seq<char> {
        match self {
            KeyCtx::Root => "Root"@,
            KeyCtx::Terminal => "Terminal"@,
            KeyCtx::TerminalVi => "TerminalVi"@,
            KeyCtx::FileTree => "FileTree"@,
            KeyCtx::Workspaces => "Workspaces"@,
            KeyCtx::Overlay => "Overlay"@,
            KeyCtx::OverlayList => "OverlayList"@,
        }
    }

    /// The context's name in the config file.
    pub open spec fn table_name(self) -> Seq<char> {
        match self {
            KeyCtx::Root => "root"@,
            KeyCtx::Terminal => "terminal"@,
            KeyCtx::TerminalVi => "terminal_vi"@,
            KeyCtx::FileTree => "file_tree"@,
            KeyCtx::Workspaces => "workspaces"@,
            KeyCtx::Overlay => "overlay"@,
            KeyCtx::OverlayList => "overlay_list"@,
        }
    }

    /// Contexts where a bare key would reach the shell: `Root` wraps the
    /// terminal, so a bare-key binding there steals just as surely as one in
    /// `Terminal`.
    pub open spec fn shields(self) -> bool {
        self == KeyCtx::Root || self == KeyCtx::Terminal
    }

    pub fn gpui_name(self) -> (r: &'static str)
        ensures
            r@ == self.window_name(),
    {
        match self {
            KeyCtx::Root => "Root",
            KeyCtx::Terminal => "Terminal",
            KeyCtx::TerminalVi => "TerminalVi",
            KeyCtx::FileTree => "FileTree",
            KeyCtx::Workspaces => "Workspaces",
            KeyCtx::Overlay => "Overlay",
            KeyCtx::OverlayList => "OverlayList",
        }
    }

    pub fn config_name(self) -> (r: &'static str)
        ensures
            r@ == self.table_name(),
    {
        match self {
            KeyCtx::Root => "root",
            KeyCtx::Terminal => "terminal",
            KeyCtx::TerminalVi => "terminal_vi",
            KeyCtx::FileTree => "file_tree",
            KeyCtx::Workspaces => "workspaces",
            KeyCtx::Overlay => "overlay",
            KeyCtx::OverlayList => "overlay_list",
        }
    }

    fn shields_the_shell(self) -> (r: bool)
        ensures
            r == self.shields(),
    {
        matches!(self, KeyCtx::Root | KeyCtx::Terminal)
    }
}

/// One resolved binding: normalised keystrokes, the action, its context, and
/// whether it came from the user's config (shown in preference to defaults).
#[derive(Debug, Clone)]
pub struct Entry {
    pub keys: String,
    pub action: &'static str,
    pub ctx: KeyCtx,
    pub user: bool,
}

/// The text of a binding.
pub struct EntryRow {
    pub keys: Seq<char>,
    pub action: Seq<char>,
    pub ctx: KeyCtx,
    pub user: bool,
}

impl View for Entry {
    type V = EntryRow;

    open spec fn view(&self) -> EntryRow {
        EntryRow { keys: self.keys@, action: self.action@, ctx: self.ctx, user: self.user }
    }
}

/// The text of a list of bindings.
pub open spec fn entry_rows(v: Seq<Entry>) -> Seq<EntryRow> {
    v.map_values(|e: Entry| e@)
}

pub struct ResolvedKeymap {
    pub entries: Vec<Entry>,
    pub errors: Vec<String>,
}

/// What a resolution has gathered: the bindings and the complaints.
pub struct Gathered {
    pub entries: Seq<EntryRow>,
    pub errors: Seq<Seq<char>>,
}

impl View for ResolvedKeymap {
    type V = Gathered;

    open spec fn view(&self) -> Gathered {
        Gathered { entries: entry_rows(self.entries@), errors: views(self.errors@) }
    }
}

/// The first binding of `action` with the given origin.
pub open spec fn first_entry(entries: Seq<EntryRow>, action: Seq<char>, user: bool) -> Option<
    EntryRow,
>
    decreases entries.len(),
{
    if entries.len() == 0 {
        None
    } else if entries[0].action == action && entries[0].user == user {
        Some(entries[0])
    } else {
        first_entry(entries.skip(1), action, user)
    }
}

/// The binding to show for `action`: the user's first, else the first
/// built-in one.
pub open spec fn shown_entry(entries: Seq<EntryRow>, action: Seq<char>) -> Option<EntryRow> {
    match first_entry(entries, action, true) {
        Some(e) => Some(e),
        None => first_entry(entries, action, false),
    }
}

fn find_entry<'a>(entries: &'a Vec<Entry>, action: &str, user: bool) -> (r: Option<&'a Entry>)
    ensures
        match r {
            None => first_entry(entry_rows(entries@), action@, user) is None,
            Some(e) => first_entry(entry_rows(entries@), action@, user) == Some(e@),
        },
{
    let ghost all = entry_rows(entries@);
    assert(all.skip(0) =~= all);
    let mut i: usize = 0;
    while i < entries.len()
        invariant
            i <= entries.len(),
            all == entry_rows(entries@),
            first_entry(all, action@, user) == first_entry(all.skip(i as int), action@, user),
        decreases entries.len() - i,
    {
        assert(all.skip(i as int)[0] == entries@[i as int]@);
        assert(all.skip(i as int).skip(1) =~= all.skip(i + 1));
        if same(entries[i].action, action) && entries[i].user == user {
            return Some(&entries[i]);
        }
        i += 1;
    }
    None
}

impl ResolvedKeymap {
    /// The keystrokes to show next to an action, or `None` when unbound.
    pub fn display_for(&self, action: &str) -> (r: Option<&Entry>)
        ensures
            match r {
                None => shown_entry(self@.entries, action@) is None,
                Some(e) => shown_entry(self@.entries, action@) == Some(e@),
            },
    {
        match find_entry(&self.entries, action, true) {
            Some(e) => Some(e),
            None => find_entry(&self.entries, action, false),
        }
    }

    /// One banner-ready message, or `None` when everything bound cleanly.
    pub fn error_banner(&self) -> (r: Option<String>)
        ensures
            match r {
                None => self@.errors.len() == 0,
                Some(m) => self@.errors.len() > 0 && m@ == "keymap: "@ + join(
                    self@.errors,
                    "\n"@,
                ),
            },
    {
        if self.errors.len() == 0 {
            return None;
        }
        let mut out = "keymap: ".to_owned();
        out.push_str(joined(&self.errors, "\n").as_str());
        Some(out)
    }
}

/// The complaint about keystrokes that do not read.
pub open spec fn unreadable(keys: Seq<char>) -> Seq<char> {
    "can't parse keystroke \""@ + keys + "\""@
}

/// How the keystroke sequence `keys` reads: one record per token.
pub open spec fn read_keys(keys: Seq<char>, table: Seq<KeyParse>) -> Result<
    Seq<KeyParse>,
    Seq<char>,
> {
    let tokens = words(keys);
    if exists|i: int| 0 <= i < tokens.len() && parse_of(table, #[trigger] tokens[i]) is None {
        Err(unreadable(keys))
    } else if tokens.len() == 0 {
        Err("empty keystroke"@)
    } else {
        Ok(tokens.map_values(|t: Seq<char>| parse_of(table, t)->0))
    }
}

/// The canonical spelling of a sequence of keystrokes.
pub open spec fn spelled(ks: Seq<KeyParse>) -> Seq<char> {
    join(ks.map_values(|k: KeyParse| k.text@), " "@)
}

/// The key presses of a sequence.
pub open spec fn strokes(ks: Seq<KeyParse>) -> Seq<Keystroke> {
    ks.map_values(|k: KeyParse| k.stroke)
}

/// Read and normalise a keystroke sequence so `"cmd-shift-p"` and
/// `"shift-cmd-p"` compare equal. `table` says how single tokens read.
pub fn normalise_keys(keys: &str, table: &Vec<KeyParse>) -> (r: Result<
    (String, Vec<Keystroke>),
    String,
>)
    ensures
        match (r, read_keys(keys@, table@)) {
            (Ok((text, ks)), Ok(read)) => text@ == spelled(read) && ks@ == strokes(read),
            (Err(e), Err(complaint)) => e@ == complaint,
            _ => false,
        },
{
    let tokens = split_words(keys);
    let ghost names = words(keys@);
    let mut texts: Vec<String> = Vec::new();
    let mut parsed: Vec<Keystroke> = Vec::new();
    let ghost mut read: Seq<KeyParse> = Seq::empty();
    let mut i: usize = 0;
    while i < tokens.len()
        invariant
            i <= tokens.len(),
            names == words(keys@),
            views(tokens@) == names,
            read.len() == i,
            forall|k: int| 0 <= k < i ==> parse_of(table@, #[trigger] names[k]) is Some,
            forall|k: int| 0 <= k < i ==> #[trigger] read[k] == parse_of(table@, names[k])->0,
            parsed@ == strokes(read),
            views(texts@) == read.map_values(|k: KeyParse| k.text@),
        decreases tokens.len() - i,
    {
        assert(names[i as int] == tokens@[i as int]@);
        match find_parse(table, tokens[i].as_str()) {
            None => {
                let mut out = "can't parse keystroke \"".to_owned();
                out.push_str(keys);
                out.push_str("\"");
                return Err(out);
            },
            Some(k) => {
                let ghost before = read;
                let ghost old_texts = texts@;
                parsed.push(k.stroke.copy());
                texts.push(k.text.clone());
                proof {
                    read = read.push(*k);
                    assert(strokes(read) =~= strokes(before).push(k.stroke));
                    assert(views(texts@) =~= views(old_texts).push(k.text@));
                    assert(read.map_values(|k: KeyParse| k.text@) =~= before.map_values(
                        |k: KeyParse| k.text@,
                    ).push(k.text@));
                }
            },
        }
        i += 1;
    }
    if parsed.len() == 0 {
        return Err("empty keystroke".to_owned());
    }
    assert(read =~= names.map_values(|t: Seq<char>| parse_of(table@, t)->0));
    Ok((joined(&texts, " "), parsed))
}

/// Whether a key press carries a modifier that keeps it from typing text.
pub open spec fn guarded(m: Modifiers) -> bool {
    m.control || m.alt || m.platform || m.function
}

fn has_modifier(ks: &Keystroke) -> (r: bool)
    ensures
        r == guarded(ks.modifiers),
{
    let m = ks.modifiers;
    m.control || m.alt || m.platform || m.function
}

/// The config section of a context, as the complaints name it.
pub open spec fn section(ctx: KeyCtx) -> Seq<char> {
    if ctx == KeyCtx::Root {
        "[keymap]"@
    } else {
        "[keymap."@ + ctx.table_name() + "]"@
    }
}

fn section_name(ctx: KeyCtx) -> (r: String)
    ensures
        r@ == section(ctx),
{
    if ctx == KeyCtx::Root {
        "[keymap]".to_owned()
    } else {
        let mut s = "[keymap.".to_owned();
        s.push_str(ctx.config_name());
        s.push_str("]");
        s
    }
}

/// The complaint about a bare key that would never reach the shell.
pub open spec fn hides_key(keys: Seq<char>, ctx: KeyCtx) -> Seq<char> {
    "\""@ + keys + "\" in "@ + section(ctx) + " would hide that key from your shell — "@
        + ctx.table_name() + " bindings need a modifier (ctrl/alt/cmd) or a ctrl-w prefix"@
}

/// The suggestion for an unknown action id.
pub open spec fn hint(action: Seq<char>) -> Seq<char> {
    if exists|k: int| nearest_row(action, registry(), k) {
        let k = choose|k: int| nearest_row(action, registry(), k);
        " — did you mean \""@ + registry()[k].id + "\"?"@
    } else {
        Seq::empty()
    }
}

fn hint_for(action: &str) -> (r: String)
    ensures
        r@ == hint(action@),
{
    match nearest_id(action) {
        None => {
            proof {
                assert forall|k: int| !nearest_row(action@, registry(), k) by {
                    if nearest_row(action@, registry(), k) {
                        assert(distance(action@, registry()[k].id) > NEAR);
                    }
                }
            }
            String::new()
        },
        Some(n) => {
            proof {
                let a = choose|k: int| #[trigger]
                    nearest_row(action@, registry(), k) && registry()[k].id == n@;
                let b = choose|k: int| nearest_row(action@, registry(), k);
                assert(nearest_row(action@, registry(), a));
                assert(nearest_row(action@, registry(), b));
                if a < b {
                    assert(distance(action@, registry()[b].id) < distance(
                        action@,
                        registry()[a].id,
                    ));
                } else if b < a {
                    assert(distance(action@, registry()[a].id) < distance(
                        action@,
                        registry()[b].id,
                    ));
                }
                assert(a == b);
            }
            let mut s = " — did you mean \"".to_owned();
            s.push_str(n);
            s.push_str("\"?");
            s
        },
    }
}

/// The complaint about an action id that is not registered.
pub open spec fn unknown_action(action: Seq<char>, keys: Seq<char>, ctx: KeyCtx) -> Seq<char> {
    "unknown action \""@ + action + "\" for \""@ + keys + "\" in "@ + section(ctx) + hint(action)
}

/// `entries` without the built-in binding of `keys` in `ctx`.
pub open spec fn unbound(entries: Seq<EntryRow>, ctx: KeyCtx, keys: Seq<char>) -> Seq<EntryRow>
    decreases entries.len(),
{
    if entries.len() == 0 {
        Seq::empty()
    } else {
        let rest = unbound(entries.drop_last(), ctx, keys);
        let e = entries.last();
        if e.ctx == ctx && e.keys == keys && !e.user {
            rest
        } else {
            rest.push(e)
        }
    }
}

fn without(entries: Vec<Entry>, ctx: KeyCtx, keys: &str) -> (r: Vec<Entry>)
    ensures
        entry_rows(r@) == unbound(entry_rows(entries@), ctx, keys@),
{
    let mut kept: Vec<Entry> = Vec::new();
    let ghost all = entry_rows(entries@);
    let mut rest = entries;
    let mut i: usize = 0;
    assert(entry_rows(kept@) =~= Seq::<EntryRow>::empty());
    while i < rest.len()
        invariant
            i <= rest.len(),
            all == entry_rows(rest@),
            entry_rows(kept@) == unbound(all.take(i as int), ctx, keys@),
        decreases rest.len() - i,
    {
        let e = &rest[i];
        let next = Entry { keys: e.keys.clone(), action: e.action, ctx: e.ctx, user: e.user };
        let drop = next.ctx == ctx && same(next.keys.as_str(), keys) && !next.user;
        let ghost before = kept@;
        proof {
            assert(all.take(i + 1).drop_last() =~= all.take(i as int));
            assert(all.take(i + 1).last() == next@);
        }
        if !drop {
            kept.push(next);
            assert(entry_rows(kept@) =~= entry_rows(before).push(next@));
        }
        i += 1;
    }
    assert(all.take(all.len() as int) =~= all);
    kept
}

/// What one line of a user's table adds: it replaces the built-in binding of
/// its keys in its context; an empty id is a plain unbind; a line that cannot
/// be used is reported and changes nothing else.
pub open spec fn add_line(
    g: Gathered,
    ctx: KeyCtx,
    keys: Seq<char>,
    action: Seq<char>,
    table: Seq<KeyParse>,
) -> Gathered {
    match read_keys(keys, table) {
        Err(e) => Gathered { errors: g.errors.push(e + " in "@ + section(ctx)), ..g },
        Ok(ks) => if ctx.shields() && !guarded(ks[0].stroke.modifiers) {
            Gathered { errors: g.errors.push(hides_key(keys, ctx)), ..g }
        } else {
            let kept = unbound(g.entries, ctx, spelled(ks));
            let id = trim(action);
            if id.len() == 0 {
                Gathered { entries: kept, ..g }
            } else {
                match row_of(id, registry()) {
                    Some(row) => Gathered {
                        entries: kept.push(
                            EntryRow { keys: spelled(ks), action: row.id, ctx, user: true },
                        ),
                        ..g
                    },
                    None => Gathered {
                        errors: g.errors.push(unknown_action(id, keys, ctx)),
                        ..g
                    },
                }
            }
        },
    }
}

/// What the lines of one user's table add, in order.
pub open spec fn add_lines(
    g: Gathered,
    ctx: KeyCtx,
    lines: Seq<(String, String)>,
    table: Seq<KeyParse>,
) -> Gathered
    decreases lines.len(),
{
    if lines.len() == 0 {
        g
    } else {
        let before = add_lines(g, ctx, lines.drop_last(), table);
        add_line(before, ctx, lines.last().0@, lines.last().1@, table)
    }
}

/// The built-in bindings, spelled canonically.
pub open spec fn built_in(defaults: Seq<BindingRow>, table: Seq<KeyParse>) -> Seq<EntryRow> {
    defaults.map_values(
        |d: BindingRow|
            EntryRow {
                keys: spelled(read_keys(d.keys, table)->Ok_0),
                action: d.action,
                ctx: d.ctx,
                user: false,
            },
    )
}

/// What the whole config resolves to: the built-in bindings unless they are
/// replaced, then the user's tables one after the other.
pub open spec fn resolution(config: KeymapConfig, table: Seq<KeyParse>) -> Gathered {
    let start = Gathered {
        entries: if config.replace_defaults {
            Seq::empty()
        } else {
            built_in(default_bindings(), table)
        },
        errors: Seq::empty(),
    };
    let a = add_lines(start, KeyCtx::Root, config.root@, table);
    let b = add_lines(a, KeyCtx::Terminal, config.terminal@, table);
    let c = add_lines(b, KeyCtx::TerminalVi, config.terminal_vi@, table);
    let d = add_lines(c, KeyCtx::FileTree, config.file_tree@, table);
    let e = add_lines(d, KeyCtx::Workspaces, config.workspaces@, table);
    add_lines(e, KeyCtx::Overlay, config.overlay@, table)
}

/// Whether every built-in keystroke reads.
pub open spec fn built_in_readable(table: Seq<KeyParse>) -> bool {
    forall|i: int|
        0 <= i < default_bindings().len() ==> read_keys(
            (#[trigger] default_bindings()[i]).keys,
            table,
        ) is Ok
}

/// Whether every built-in keystroke reads.
pub fn defaults_readable(table: &Vec<KeyParse>) -> (r: bool)
    ensures
        r == built_in_readable(table@),
{
    let list = defaults();
    let ghost all = default_bindings();
    let mut i: usize = 0;
    while i < list.len()
        invariant
            i <= list.len(),
            all == default_bindings(),
            binding_rows(list@) == all,
            forall|k: int| 0 <= k < i ==> read_keys((#[trigger] all[k]).keys, table@) is Ok,
        decreases list.len() - i,
    {
        assert(all[i as int] == list@[i as int]@);
        match normalise_keys(list[i].keys, table) {
            Err(_) => {
                return false;
            },
            Ok(_) => {},
        }
        i += 1;
    }
    true
}

fn built_in_entries(table: &Vec<KeyParse>) -> (r: Vec<Entry>)
    requires
        built_in_readable(table@),
    ensures
        entry_rows(r@) == built_in(default_bindings(), table@),
{
    let list = defaults();
    let ghost all = default_bindings();
    let mut out: Vec<Entry> = Vec::new();
    assert(entry_rows(out@) =~= built_in(all.take(0), table@));
    let mut i: usize = 0;
    while i < list.len()
        invariant
            i <= list.len(),
            built_in_readable(table@),
            all == default_bindings(),
            binding_rows(list@) == all,
            entry_rows(out@) == built_in(all.take(i as int), table@),
        decreases list.len() - i,
    {
        assert(all[i as int] == list@[i as int]@);
        let ghost before = out@;
        match normalise_keys(list[i].keys, table) {
            Err(_) => {},
            Ok((keys, _)) => {
                let e = Entry { keys, action: list[i].action, ctx: list[i].ctx, user: false };
                out.push(e);
                assert(entry_rows(out@) =~= entry_rows(before).push(e@));
            },
        }
        assert(all.take(i + 1) =~= all.take(i as int).push(all[i as int]));
        assert(built_in(all.take(i + 1), table@) =~= built_in(all.take(i as int), table@).push(
            out@.last()@,
        ));
        i += 1;
    }
    assert(all.take(all.len() as int) =~= all);
    out
}

/// Adds one line of a user's table.
fn apply_line(k: ResolvedKeymap, ctx: KeyCtx, keys: &str, action: &str, table: &Vec<KeyParse>) -> (r:
    ResolvedKeymap)
    ensures
        r@ == add_line(k@, ctx, keys@, action@, table@),
{
    let mut errors = k.errors;
    let ghost old_errors = errors@;
    match normalise_keys(keys, table) {
        Err(e) => {
            let mut m = e;
            m.push_str(" in ");
            m.push_str(section_name(ctx).as_str());
            errors.push(m);
            assert(views(errors@) =~= views(old_errors).push(m@));
            ResolvedKeymap { entries: k.entries, errors }
        },
        Ok((text, parsed)) => {
            let ghost read = read_keys(keys@, table@)->Ok_0;
            assert(parsed@[0] == read[0].stroke);
            if ctx.shields_the_shell() && !has_modifier(&parsed[0]) {
                let mut m = "\"".to_owned();
                m.push_str(keys);
                m.push_str("\" in ");
                m.push_str(section_name(ctx).as_str());
                m.push_str(" would hide that key from your shell — ");
                m.push_str(ctx.config_name());
                m.push_str(" bindings need a modifier (ctrl/alt/cmd) or a ctrl-w prefix");
                errors.push(m);
                assert(views(errors@) =~= views(old_errors).push(m@));
                return ResolvedKeymap { entries: k.entries, errors };
            }
            let id = trimmed(action);
            if id.as_str().is_empty() {
                return ResolvedKeymap { entries: without(k.entries, ctx, text.as_str()), errors };
            }
            match by_id(id.as_str()) {
                Some(meta) => {
                    let mut entries = without(k.entries, ctx, text.as_str());
                    let ghost kept = entries@;
                    let e = Entry { keys: text, action: meta.id, ctx, user: true };
                    entries.push(e);
                    assert(entry_rows(entries@) =~= entry_rows(kept).push(e@));
                    ResolvedKeymap { entries, errors }
                },
                None => {
                    let mut m = "unknown action \"".to_owned();
                    m.push_str(id.as_str());
                    m.push_str("\" for \"");
                    m.push_str(keys);
                    m.push_str("\" in ");
                    m.push_str(section_name(ctx).as_str());
                    m.push_str(hint_for(id.as_str()).as_str());
                    errors.push(m);
                    assert(views(errors@) =~= views(old_errors).push(m@));
                    ResolvedKeymap { entries: k.entries, errors }
                },
            }
        },
    }
}

fn apply_lines(
    k: ResolvedKeymap,
    ctx: KeyCtx,
    lines: &Vec<(String, String)>,
    table: &Vec<KeyParse>,
) -> (r: ResolvedKeymap)
    ensures
        r@ == add_lines(k@, ctx, lines@, table@),
{
    let ghost start = k@;
    let mut acc = k;
    let mut i: usize = 0;
    while i < lines.len()
        invariant
            i <= lines.len(),
            acc@ == add_lines(start, ctx, lines@.take(i as int), table@),
        decreases lines.len() - i,
    {
        acc = apply_line(acc, ctx, lines[i].0.as_str(), lines[i].1.as_str(), table);
        assert(lines@.take(i + 1).drop_last() =~= lines@.take(i as int));
        i += 1;
    }
    assert(lines@.take(lines@.len() as int) =~= lines@);
    acc
}

/// Resolves the user's config over the built-in bindings.
pub fn resolve(config: &KeymapConfig, table: &Vec<KeyParse>) -> (r: ResolvedKeymap)
    requires
        config.replace_defaults || built_in_readable(table@),
    ensures
        r@ == resolution(*config, table@),
{
    let entries: Vec<Entry> = if config.replace_defaults {
        Vec::new()
    } else {
        built_in_entries(table)
    };
    let errors: Vec<String> = Vec::new();
    assert(views(errors@) =~= Seq::<Seq<char>>::empty());
    proof {
        if config.replace_defaults {
            assert(entry_rows(entries@) =~= Seq::<EntryRow>::empty());
        }
    }
    let k = ResolvedKeymap { entries, errors };
    let k = apply_lines(k, KeyCtx::Root, &config.root, table);
    let k = apply_lines(k, KeyCtx::Terminal, &config.terminal, table);
    let k = apply_lines(k, KeyCtx::TerminalVi, &config.terminal_vi, table);
    let k = apply_lines(k, KeyCtx::FileTree, &config.file_tree, table);
    let k = apply_lines(k, KeyCtx::Workspaces, &config.workspaces, table);
    apply_lines(k, KeyCtx::Overlay, &config.overlay, table)
}

/// A line that is accepted leaves no built-in binding of its keys in its
/// context, and touches no binding of other keys or contexts.
pub proof fn lemma_line_replaces(
    g: Gathered,
    ctx: KeyCtx,
    keys: Seq<char>,
    action: Seq<char>,
    table: Seq<KeyParse>,
)
    requires
        read_keys(keys, table) is Ok,
        !ctx.shields() || guarded(read_keys(keys, table)->Ok_0[0].stroke.modifiers),
        trim(action).len() == 0 || row_of(trim(action), registry()) is Some,
    ensures
        ({
            let text = spelled(read_keys(keys, table)->Ok_0);
            let after = add_line(g, ctx, keys, action, table).entries;
            &&& forall|i: int|
                0 <= i < after.len() ==> !((#[trigger] after[i]).ctx == ctx && after[i].keys == text
                    && !after[i].user)
            &&& forall|e: EntryRow| #[trigger]
                g.entries.contains(e) && (e.ctx != ctx || e.keys != text || e.user)
                    ==> after.contains(e)
        }),
{
    let text = spelled(read_keys(keys, table)->Ok_0);
    let kept = unbound(g.entries, ctx, text);
    let after = add_line(g, ctx, keys, action, table).entries;
    lemma_unbound(g.entries, ctx, text);
    assert(forall|i: int| 0 <= i < kept.len() ==> after[i] == kept[i]);
    assert forall|e: EntryRow| #[trigger]
        g.entries.contains(e) && (e.ctx != ctx || e.keys != text || e.user) implies after.contains(
        e,
    ) by {
        assert(kept.contains(e));
        let i = choose|i: int| 0 <= i < kept.len() && kept[i] == e;
        assert(after[i] == e);
    }
}

proof fn lemma_unbound(entries: Seq<EntryRow>, ctx: KeyCtx, keys: Seq<char>)
    ensures
        forall|i: int|
            0 <= i < unbound(entries, ctx, keys).len() ==> !((#[trigger] unbound(
                entries,
                ctx,
                keys,
            )[i]).ctx == ctx && unbound(entries, ctx, keys)[i].keys == keys && !unbound(
                entries,
                ctx,
                keys,
            )[i].user),
        forall|e: EntryRow| #[trigger]
            entries.contains(e) && (e.ctx != ctx || e.keys != keys || e.user) ==> unbound(
                entries,
                ctx,
                keys,
            ).contains(e),
    decreases entries.len(),
{
    if entries.len() > 0 {
        lemma_unbound(entries.drop_last(), ctx, keys);
        let rest = unbound(entries.drop_last(), ctx, keys);
        let all = unbound(entries, ctx, keys);
        assert forall|e: EntryRow| #[trigger]
            entries.contains(e) && (e.ctx != ctx || e.keys != keys || e.user) implies all.contains(
            e,
        ) by {
            let i = choose|i: int| 0 <= i < entries.len() && entries[i] == e;
            if i < entries.len() - 1 {
                assert(entries.drop_last()[i] == e);
                assert(entries.drop_last().contains(e));
                assert(rest.contains(e));
                let k = choose|k: int| 0 <= k < rest.len() && rest[k] == e;
                assert(all[k] == e);
            } else {
                assert(all.last() == e);
            }
        }
    }
}

/// A line that names no known action is reported and skipped: whatever its
/// keys are bound to stays bound.
pub proof fn lemma_unknown_action_skipped(
    g: Gathered,
    ctx: KeyCtx,
    keys: Seq<char>,
    action: Seq<char>,
    table: Seq<KeyParse>,
)
    requires
        trim(action).len() > 0,
        row_of(trim(action), registry()) is None,
    ensures
        add_line(g, ctx, keys, action, table).entries == g.entries,
        add_line(g, ctx, keys, action, table).errors.len() == g.errors.len() + 1,
        add_line(g, ctx, keys, action, table).errors.drop_last() == g.errors,
{
    let after = add_line(g, ctx, keys, action, table).errors;
    assert(after.drop_last() =~= g.errors);
}

/// A line whose first key carries no modifier never binds where it would
/// hide the key from the shell: the bindings stay as they were.
pub proof fn lemma_bare_key_refused(
    g: Gathered,
    ctx: KeyCtx,
    keys: Seq<char>,
    action: Seq<char>,
    table: Seq<KeyParse>,
)
    requires
        ctx.shields(),
        read_keys(keys, table) matches Ok(ks) ==> !guarded(ks[0].stroke.modifiers),
    ensures
        add_line(g, ctx, keys, action, table).entries == g.entries,
        add_line(g, ctx, keys, action, table).errors.len() == g.errors.len() + 1,
{
}

/// The special-key names both styles share.
pub open spec fn key_label(key: Seq<char>, modified: bool) -> Seq<char> {
    if key == "up"@ {
        "↑"@
    } else if key == "down"@ {
        "↓"@
    } else if key == "left"@ {
        "←"@
    } else if key == "right"@ {
        "→"@
    } else if key == "enter"@ {
        "⏎"@
    } else if key == "escape"@ {
        "⎋"@
    } else if key == "tab"@ {
        "⇥"@
    } else if key == "backspace"@ {
        "⌫"@
    } else if key == "delete"@ {
        "⌦"@
    } else if key == "space"@ {
        "␣"@
    } else if key == "pageup"@ {
        "PgUp"@
    } else if key == "pagedown"@ {
        "PgDn"@
    } else if key.len() == 1 && modified {
        str_upper(key)
    } else {
        key
    }
}

/// The special-key names both styles share.
fn pretty_key_name(key: &str, modified: bool) -> (r: String)
    ensures
        r@ == key_label(key@, modified),
{
    if same(key, "up") {
        "↑".to_owned()
    } else if same(key, "down") {
        "↓".to_owned()
    } else if same(key, "left") {
        "←".to_owned()
    } else if same(key, "right") {
        "→".to_owned()
    } else if same(key, "enter") {
        "⏎".to_owned()
    } else if same(key, "escape") {
        "⎋".to_owned()
    } else if same(key, "tab") {
        "⇥".to_owned()
    } else if same(key, "backspace") {
        "⌫".to_owned()
    } else if same(key, "delete") {
        "⌦".to_owned()
    } else if same(key, "space") {
        "␣".to_owned()
    } else if same(key, "pageup") {
        "PgUp".to_owned()
    } else if same(key, "pagedown") {
        "PgDn".to_owned()
    } else if chars_of(key).len() == 1 && modified {
        // A modified letter reads right in upper case; a bare one would look
        // like its shifted form.
        upper_of(key)
    } else {
        key.to_owned()
    }
}

/// A key press in macOS glyphs.
pub open spec fn mac_label(ks: Keystroke) -> Seq<char> {
    let m = ks.modifiers;
    Seq::empty() + (if m.shift {
        "⇧"@
    } else {
        Seq::empty()
    }) + (if m.control {
        "⌃"@
    } else {
        Seq::empty()
    }) + (if m.alt {
        "⌥"@
    } else {
        Seq::empty()
    }) + (if m.platform {
        "⌘"@
    } else {
        Seq::empty()
    }) + (if m.function {
        "fn"@
    } else {
        Seq::empty()
    }) + key_label(ks.key@, m.any())
}

fn push_if(out: &mut String, on: bool, text: &str)
    ensures
        final(out)@ == old(out)@ + (if on {
            text@
        } else {
            Seq::empty()
        }),
{
    if on {
        out.push_str(text);
    } else {
        assert(old(out)@ + Seq::<char>::empty() =~= old(out)@);
    }
}

fn pretty_stroke_mac(ks: &Keystroke) -> (r: String)
    ensures
        r@ == mac_label(*ks),
{
    let m = ks.modifiers;
    let mut out = String::new();
    push_if(&mut out, m.shift, "⇧");
    push_if(&mut out, m.control, "⌃");
    push_if(&mut out, m.alt, "⌥");
    push_if(&mut out, m.platform, "⌘");
    push_if(&mut out, m.function, "fn");
    out.push_str(pretty_key_name(ks.key.as_str(), m.modified()).as_str());
    out
}

/// A key press with its modifiers spelled out, `Ctrl+Shift+P`: the GTK/KDE
/// convention.
pub open spec fn linux_label(ks: Keystroke) -> Seq<char> {
    let m = ks.modifiers;
    Seq::empty() + (if m.control {
        "Ctrl+"@
    } else {
        Seq::empty()
    }) + (if m.alt {
        "Alt+"@
    } else {
        Seq::empty()
    }) + (if m.shift {
        "Shift+"@
    } else {
        Seq::empty()
    }) + (if m.platform {
        "Super+"@
    } else {
        Seq::empty()
    }) + (if m.function {
        "Fn+"@
    } else {
        Seq::empty()
    }) + key_label(ks.key@, m.any())
}

fn pretty_stroke_linux(ks: &Keystroke) -> (r: String)
    ensures
        r@ == linux_label(*ks),
{
    let m = ks.modifiers;
    let mut out = String::new();
    push_if(&mut out, m.control, "Ctrl+");
    push_if(&mut out, m.alt, "Alt+");
    push_if(&mut out, m.shift, "Shift+");
    push_if(&mut out, m.platform, "Super+");
    push_if(&mut out, m.function, "Fn+");
    out.push_str(pretty_key_name(ks.key.as_str(), m.modified()).as_str());
    out
}

/// The platform whose conventions a label follows.
#[derive(Debug, Clone, Copy, PartialEq, Eq, Structural)]
pub enum Platform {
    Mac,
    Linux,
}

/// A keystroke token as a label; a token that does not read stays as it is.
pub open spec fn token_label(token: Seq<char>, platform: Platform, table: Seq<KeyParse>) -> Seq<
    char,
> {
    match parse_of(table, token) {
        None => token,
        Some(k) => match platform {
            Platform::Mac => mac_label(k.stroke),
            Platform::Linux => linux_label(k.stroke),
        },
    }
}

/// Keystrokes as they are shown.
pub open spec fn pretty(keys: Seq<char>, platform: Platform, table: Seq<KeyParse>) -> Seq<char> {
    join(words(keys).map_values(|t: Seq<char>| token_label(t, platform, table)), " "@)
}

/// Human-readable keystrokes for UI: `"ctrl-w v"` is `"⌃W v"` on macOS and
/// `"Ctrl+W v"` elsewhere.
pub fn pretty_keys(keys: &str, platform: Platform, table: &Vec<KeyParse>) -> (r: String)
    ensures
        r@ == pretty(keys@, platform, table@),
{
    let tokens = split_words(keys);
    let ghost names = words(keys@);
    let ghost label = |t: Seq<char>| token_label(t, platform, table@);
    let mut out: Vec<String> = Vec::new();
    assert(views(out@) =~= names.take(0).map_values(label));
    let mut i: usize = 0;
    while i < tokens.len()
        invariant
            i <= tokens.len(),
            names == words(keys@),
            views(tokens@) == names,
            label == (|t: Seq<char>| token_label(t, platform, table@)),
            views(out@) == names.take(i as int).map_values(label),
        decreases tokens.len() - i,
    {
        assert(names[i as int] == tokens@[i as int]@);
        let ghost before = out@;
        let text = match find_parse(table, tokens[i].as_str()) {
            None => tokens[i].clone(),
            Some(k) => match platform {
                Platform::Mac => pretty_stroke_mac(&k.stroke),
                Platform::Linux => pretty_stroke_linux(&k.stroke),
            },
        };
        out.push(text);
        proof {
            assert(views(out@) =~= views(before).push(text@));
            assert(names.take(i + 1).map_values(label) =~= names.take(i as int).map_values(
                label,
            ).push(label(names[i as int])));
        }
        i += 1;
    }
    assert(names.take(names.len() as int) =~= names);
    joined(&out, " ")
}

// --- What the keymap does ---

/// Whether a line of a user's table can be used: its keys read, they do not
/// hide a key from the shell, and its action is registered.
pub open spec fn binds(ctx: KeyCtx, keys: Seq<char>, action: Seq<char>, table: Seq<KeyParse>) -> bool {
    &&& read_keys(keys, table) is Ok
    &&& !ctx.shields() || guarded(read_keys(keys, table)->Ok_0[0].stroke.modifiers)
    &&& trim(action).len() > 0
    &&& row_of(trim(action), registry()) is Some
}

proof fn lemma_row_found(id: Seq<char>, table: Seq<Row>)
    requires
        row_of(id, table) is Some,
    ensures
        (row_of(id, table)->0).id == id,
    decreases table.len(),
{
    if table[0].id != id {
        lemma_row_found(id, table.skip(1));
    }
}

/// A line that can be used binds its keys to its action in its context, and
/// is not complained about.
pub proof fn lemma_a_line_binds(
    g: Gathered,
    ctx: KeyCtx,
    keys: Seq<char>,
    action: Seq<char>,
    table: Seq<KeyParse>,
)
    requires
        binds(ctx, keys, action, table),
    ensures
        ({
            let after = add_line(g, ctx, keys, action, table);
            &&& after.errors == g.errors
            &&& after.entries.len() > 0
            &&& after.entries.last() == (EntryRow {
                keys: spelled(read_keys(keys, table)->Ok_0),
                action: trim(action),
                ctx,
                user: true,
            })
        }),
{
    lemma_row_found(trim(action), registry());
}

/// A line with an empty action takes the built-in binding of its keys away,
/// binds nothing and is not complained about.
pub proof fn lemma_an_empty_line_unbinds(
    g: Gathered,
    ctx: KeyCtx,
    keys: Seq<char>,
    action: Seq<char>,
    table: Seq<KeyParse>,
    e: EntryRow,
)
    requires
        read_keys(keys, table) is Ok,
        !ctx.shields() || guarded(read_keys(keys, table)->Ok_0[0].stroke.modifiers),
        trim(action).len() == 0,
        g.entries.contains(e),
        e.ctx == ctx,
        e.keys == spelled(read_keys(keys, table)->Ok_0),
        !e.user,
    ensures
        add_line(g, ctx, keys, action, table).errors == g.errors,
        !add_line(g, ctx, keys, action, table).entries.contains(e),
{
    lemma_line_replaces(g, ctx, keys, action, table);
}

/// A line of the `root` table binds there and nowhere else.
pub proof fn lemma_root_lines(config: KeymapConfig, table: Seq<KeyParse>)
    requires
        config.replace_defaults,
        config.terminal@.len() == 0,
        config.terminal_vi@.len() == 0,
        config.file_tree@.len() == 0,
        config.workspaces@.len() == 0,
        config.overlay@.len() == 0,
        config.root@.len() == 1,
        binds(KeyCtx::Root, config.root@[0].0@, config.root@[0].1@, table),
    ensures
        resolution(config, table) == (Gathered {
            entries: seq![
                EntryRow {
                    keys: spelled(read_keys(config.root@[0].0@, table)->Ok_0),
                    action: trim(config.root@[0].1@),
                    ctx: KeyCtx::Root,
                    user: true,
                },
            ],
            errors: Seq::empty(),
        }),
{
    let empty = Gathered { entries: Seq::empty(), errors: Seq::empty() };
    let line = config.root@;
    assert(line.drop_last() =~= Seq::empty());
    assert(add_lines(empty, KeyCtx::Root, line.drop_last(), table) == empty);
    lemma_row_found(trim(line[0].1@), registry());
    let after = add_lines(empty, KeyCtx::Root, line, table);
    assert(unbound(Seq::empty(), KeyCtx::Root, spelled(read_keys(line[0].0@, table)->Ok_0))
        =~= Seq::empty());
    assert(after.entries =~= seq![
        EntryRow {
            keys: spelled(read_keys(line[0].0@, table)->Ok_0),
            action: trim(line[0].1@),
            ctx: KeyCtx::Root,
            user: true,
        },
    ]);
}

/// A line of the `terminal` table binds there and nowhere else.
pub proof fn lemma_terminal_lines(config: KeymapConfig, table: Seq<KeyParse>)
    requires
        config.replace_defaults,
        config.root@.len() == 0,
        config.terminal_vi@.len() == 0,
        config.file_tree@.len() == 0,
        config.workspaces@.len() == 0,
        config.overlay@.len() == 0,
        config.terminal@.len() == 1,
        binds(KeyCtx::Terminal, config.terminal@[0].0@, config.terminal@[0].1@, table),
    ensures
        resolution(config, table) == (Gathered {
            entries: seq![
                EntryRow {
                    keys: spelled(read_keys(config.terminal@[0].0@, table)->Ok_0),
                    action: trim(config.terminal@[0].1@),
                    ctx: KeyCtx::Terminal,
                    user: true,
                },
            ],
            errors: Seq::empty(),
        }),
{
    let empty = Gathered { entries: Seq::empty(), errors: Seq::empty() };
    let line = config.terminal@;
    assert(line.drop_last() =~= Seq::empty());
    assert(add_lines(empty, KeyCtx::Terminal, line.drop_last(), table) == empty);
    lemma_row_found(trim(line[0].1@), registry());
    let after = add_lines(empty, KeyCtx::Terminal, line, table);
    assert(unbound(Seq::empty(), KeyCtx::Terminal, spelled(read_keys(line[0].0@, table)->Ok_0))
        =~= Seq::empty());
    assert(after.entries =~= seq![
        EntryRow {
            keys: spelled(read_keys(line[0].0@, table)->Ok_0),
            action: trim(line[0].1@),
            ctx: KeyCtx::Terminal,
            user: true,
        },
    ]);
}

/// A line of the `terminal_vi` table binds there and nowhere else.
pub proof fn lemma_terminal_vi_lines(config: KeymapConfig, table: Seq<KeyParse>)
    requires
        config.replace_defaults,
        config.root@.len() == 0,
        config.terminal@.len() == 0,
        config.file_tree@.len() == 0,
        config.workspaces@.len() == 0,
        config.overlay@.len() == 0,
        config.terminal_vi@.len() == 1,
        binds(KeyCtx::TerminalVi, config.terminal_vi@[0].0@, config.terminal_vi@[0].1@, table),
    ensures
        resolution(config, table) == (Gathered {
            entries: seq![
                EntryRow {
                    keys: spelled(read_keys(config.terminal_vi@[0].0@, table)->Ok_0),
                    action: trim(config.terminal_vi@[0].1@),
                    ctx: KeyCtx::TerminalVi,
                    user: true,
                },
            ],
            errors: Seq::empty(),
        }),
{
    let empty = Gathered { entries: Seq::empty(), errors: Seq::empty() };
    let line = config.terminal_vi@;
    assert(line.drop_last() =~= Seq::empty());
    assert(add_lines(empty, KeyCtx::TerminalVi, line.drop_last(), table) == empty);
    lemma_row_found(trim(line[0].1@), registry());
    let after = add_lines(empty, KeyCtx::TerminalVi, line, table);
    assert(unbound(Seq::empty(), KeyCtx::TerminalVi, spelled(read_keys(line[0].0@, table)->Ok_0))
        =~= Seq::empty());
    assert(after.entries =~= seq![
        EntryRow {
            keys: spelled(read_keys(line[0].0@, table)->Ok_0),
            action: trim(line[0].1@),
            ctx: KeyCtx::TerminalVi,
            user: true,
        },
    ]);
}

/// A line of the `file_tree` table binds there and nowhere else.
pub proof fn lemma_file_tree_lines(config: KeymapConfig, table: Seq<KeyParse>)
    requires
        config.replace_defaults,
        config.root@.len() == 0,
        config.terminal@.len() == 0,
        config.terminal_vi@.len() == 0,
        config.workspaces@.len() == 0,
        config.overlay@.len() == 0,
        config.file_tree@.len() == 1,
        binds(KeyCtx::FileTree, config.file_tree@[0].0@, config.file_tree@[0].1@, table),
    ensures
        resolution(config, table) == (Gathered {
            entries: seq![
                EntryRow {
                    keys: spelled(read_keys(config.file_tree@[0].0@, table)->Ok_0),
                    action: trim(config.file_tree@[0].1@),
                    ctx: KeyCtx::FileTree,
                    user: true,
                },
            ],
            errors: Seq::empty(),
        }),
{
    let empty = Gathered { entries: Seq::empty(), errors: Seq::empty() };
    let line = config.file_tree@;
    assert(line.drop_last() =~= Seq::empty());
    assert(add_lines(empty, KeyCtx::FileTree, line.drop_last(), table) == empty);
    lemma_row_found(trim(line[0].1@), registry());
    let after = add_lines(empty, KeyCtx::FileTree, line, table);
    assert(unbound(Seq::empty(), KeyCtx::FileTree, spelled(read_keys(line[0].0@, table)->Ok_0))
        =~= Seq::empty());
    assert(after.entries =~= seq![
        EntryRow {
            keys: spelled(read_keys(line[0].0@, table)->Ok_0),
            action: trim(line[0].1@),
            ctx: KeyCtx::FileTree,
            user: true,
        },
    ]);
}

/// A line of the `workspaces` table binds there and nowhere else.
pub proof fn lemma_workspaces_lines(config: KeymapConfig, table: Seq<KeyParse>)
    requires
        config.replace_defaults,
        config.root@.len() == 0,
        config.terminal@.len() == 0,
        config.terminal_vi@.len() == 0,
        config.file_tree@.len() == 0,
        config.overlay@.len() == 0,
        config.workspaces@.len() == 1,
        binds(KeyCtx::Workspaces, config.workspaces@[0].0@, config.workspaces@[0].1@, table),
    ensures
        resolution(config, table) == (Gathered {
            entries: seq![
                EntryRow {
                    keys: spelled(read_keys(config.workspaces@[0].0@, table)->Ok_0),
                    action: trim(config.workspaces@[0].1@),
                    ctx: KeyCtx::Workspaces,
                    user: true,
                },
            ],
            errors: Seq::empty(),
        }),
{
    let empty = Gathered { entries: Seq::empty(), errors: Seq::empty() };
    let line = config.workspaces@;
    assert(line.drop_last() =~= Seq::empty());
    assert(add_lines(empty, KeyCtx::Workspaces, line.drop_last(), table) == empty);
    lemma_row_found(trim(line[0].1@), registry());
    let after = add_lines(empty, KeyCtx::Workspaces, line, table);
    assert(unbound(Seq::empty(), KeyCtx::Workspaces, spelled(read_keys(line[0].0@, table)->Ok_0))
        =~= Seq::empty());
    assert(after.entries =~= seq![
        EntryRow {
            keys: spelled(read_keys(line[0].0@, table)->Ok_0),
            action: trim(line[0].1@),
            ctx: KeyCtx::Workspaces,
            user: true,
        },
    ]);
}

/// A line of the `overlay` table binds there and nowhere else.
pub proof fn lemma_overlay_lines(config: KeymapConfig, table: Seq<KeyParse>)
    requires
        config.replace_defaults,
        config.root@.len() == 0,
        config.terminal@.len() == 0,
        config.terminal_vi@.len() == 0,
        config.file_tree@.len() == 0,
        config.workspaces@.len() == 0,
        config.overlay@.len() == 1,
        binds(KeyCtx::Overlay, config.overlay@[0].0@, config.overlay@[0].1@, table),
    ensures
        resolution(config, table) == (Gathered {
            entries: seq![
                EntryRow {
                    keys: spelled(read_keys(config.overlay@[0].0@, table)->Ok_0),
                    action: trim(config.overlay@[0].1@),
                    ctx: KeyCtx::Overlay,
                    user: true,
                },
            ],
            errors: Seq::empty(),
        }),
{
    let empty = Gathered { entries: Seq::empty(), errors: Seq::empty() };
    let line = config.overlay@;
    assert(line.drop_last() =~= Seq::empty());
    assert(add_lines(empty, KeyCtx::Overlay, line.drop_last(), table) == empty);
    lemma_row_found(trim(line[0].1@), registry());
    let after = add_lines(empty, KeyCtx::Overlay, line, table);
    assert(unbound(Seq::empty(), KeyCtx::Overlay, spelled(read_keys(line[0].0@, table)->Ok_0))
        =~= Seq::empty());
    assert(after.entries =~= seq![
        EntryRow {
            keys: spelled(read_keys(line[0].0@, table)->Ok_0),
            action: trim(line[0].1@),
            ctx: KeyCtx::Overlay,
            user: true,
        },
    ]);
}

/// Without a user's lines the keymap is the built-in one, and none at all
/// where the user asked for none.
pub proof fn lemma_no_lines(config: KeymapConfig, table: Seq<KeyParse>)
    requires
        config.root@.len() == 0,
        config.terminal@.len() == 0,
        config.terminal_vi@.len() == 0,
        config.file_tree@.len() == 0,
        config.workspaces@.len() == 0,
        config.overlay@.len() == 0,
    ensures
        resolution(config, table).errors.len() == 0,
        resolution(config, table).entries == (if config.replace_defaults {
            Seq::<EntryRow>::empty()
        } else {
            built_in(default_bindings(), table)
        }),
{
}

proof fn lemma_first_entry(entries: Seq<EntryRow>, action: Seq<char>, user: bool) -> (i: int)
    ensures
        match first_entry(entries, action, user) {
            None => forall|k: int|
                0 <= k < entries.len() ==> !((#[trigger] entries[k]).action == action
                    && entries[k].user == user),
            Some(e) => 0 <= i < entries.len() && entries[i] == e && e.action == action && e.user
                == user && forall|k: int|
                0 <= k < i ==> !((#[trigger] entries[k]).action == action && entries[k].user
                    == user),
        },
    decreases entries.len(),
{
    if entries.len() == 0 || (entries[0].action == action && entries[0].user == user) {
        0
    } else {
        let r = entries.skip(1);
        let i = lemma_first_entry(r, action, user) + 1;
        assert forall|k: int|
            0 <= k < entries.len() && (first_entry(entries, action, user) is None || k
                < i) implies !((#[trigger] entries[k]).action == action && entries[k].user
            == user) by {
            if k > 0 {
                assert(r[k - 1] == entries[k]);
            }
        }
        i
    }
}

/// The keys shown beside an action are ones that are bound to it, the user's
/// before the built-in ones; there are none only where nothing is bound.
pub proof fn lemma_shown_keys(entries: Seq<EntryRow>, action: Seq<char>)
    ensures
        match shown_entry(entries, action) {
            None => forall|k: int| 0 <= k < entries.len() ==> (#[trigger] entries[k]).action != action,
            Some(e) => entries.contains(e) && e.action == action && (e.user || forall|k: int|
                0 <= k < entries.len() ==> !((#[trigger] entries[k]).action == action
                    && entries[k].user)),
        },
{
    let i = lemma_first_entry(entries, action, true);
    let j = lemma_first_entry(entries, action, false);
    if shown_entry(entries, action) is None {
        assert forall|k: int| 0 <= k < entries.len() implies (#[trigger] entries[k]).action
            != action by {
            assert(entries[k].user || !entries[k].user);
        }
    }
}

/// The names of the keys, spelled out: they are all different.
proof fn lemma_key_names_apart()
    ensures
        "up"@.len() == 2 && "up"@ =~= seq!['u', 'p'],
        "down"@.len() == 4 && "down"@ =~= seq!['d', 'o', 'w', 'n'],
        "left"@.len() == 4 && "left"@ =~= seq!['l', 'e', 'f', 't'],
        "right"@.len() == 5 && "right"@ =~= seq!['r', 'i', 'g', 'h', 't'],
        "enter"@.len() == 5 && "enter"@ =~= seq!['e', 'n', 't', 'e', 'r'],
        "escape"@.len() == 6 && "escape"@ =~= seq!['e', 's', 'c', 'a', 'p', 'e'],
        "tab"@.len() == 3 && "tab"@ =~= seq!['t', 'a', 'b'],
        "backspace"@.len() == 9 && "backspace"@ =~= seq!['b', 'a', 'c', 'k', 's', 'p', 'a', 'c', 'e'],
        "delete"@.len() == 6 && "delete"@ =~= seq!['d', 'e', 'l', 'e', 't', 'e'],
        "space"@.len() == 5 && "space"@ =~= seq!['s', 'p', 'a', 'c', 'e'],
        "pageup"@.len() == 6 && "pageup"@ =~= seq!['p', 'a', 'g', 'e', 'u', 'p'],
        "pagedown"@.len() == 8 && "pagedown"@ =~= seq!['p', 'a', 'g', 'e', 'd', 'o', 'w', 'n'],
{
    reveal_strlit("up");
    reveal_strlit("down");
    reveal_strlit("left");
    reveal_strlit("right");
    reveal_strlit("enter");
    reveal_strlit("escape");
    reveal_strlit("tab");
    reveal_strlit("backspace");
    reveal_strlit("delete");
    reveal_strlit("space");
    reveal_strlit("pageup");
    reveal_strlit("pagedown");
}

/// The keys without a character are shown by their signs.
pub proof fn lemma_key_signs(modified: bool)
    ensures
        key_label("up"@, modified) == "↑"@,
        key_label("down"@, modified) == "↓"@,
        key_label("left"@, modified) == "←"@,
        key_label("right"@, modified) == "→"@,
        key_label("enter"@, modified) == "⏎"@,
        key_label("escape"@, modified) == "⎋"@,
        key_label("tab"@, modified) == "⇥"@,
        key_label("backspace"@, modified) == "⌫"@,
        key_label("delete"@, modified) == "⌦"@,
        key_label("space"@, modified) == "␣"@,
        key_label("pageup"@, modified) == "PgUp"@,
        key_label("pagedown"@, modified) == "PgDn"@,
{
    lemma_key_names_apart();
    assert("up"@[0] == 'u' && "down"@[0] == 'd' && "left"@[0] == 'l' && "tab"@[0] == 't');
    assert("right"@[0] == 'r' && "enter"@[0] == 'e' && "space"@[0] == 's');
    assert("escape"@[0] == 'e' && "delete"@[0] == 'd' && "pageup"@[0] == 'p');
}

/// Modifiers are shown before the key, on macOS by their signs and elsewhere
/// by their names with plus signs; a key without any is shown alone.
pub proof fn lemma_modifier_labels(ks: Keystroke)
    ensures
        ({
            let m = ks.modifiers;
            let held = key_label(ks.key@, true);
            let only = |c: bool, a: bool, s: bool, p: bool, f: bool|
                m == (Modifiers { control: c, alt: a, shift: s, platform: p, function: f });
            &&& only(false, false, false, false, false) ==> mac_label(ks) == key_label(ks.key@, false)
                && linux_label(ks) == key_label(ks.key@, false)
            &&& only(true, false, false, false, false) ==> mac_label(ks) == "⌃"@ + held
                && linux_label(ks) == "Ctrl+"@ + held
            &&& only(false, true, false, false, false) ==> mac_label(ks) == "⌥"@ + held
                && linux_label(ks) == "Alt+"@ + held
            &&& only(false, false, true, false, false) ==> mac_label(ks) == "⇧"@ + held
                && linux_label(ks) == "Shift+"@ + held
            &&& only(false, false, false, true, false) ==> mac_label(ks) == "⌘"@ + held
                && linux_label(ks) == "Super+"@ + held
            &&& only(false, false, false, false, true) ==> mac_label(ks) == "fn"@ + held
                && linux_label(ks) == "Fn+"@ + held
            &&& only(true, true, true, true, true) ==> mac_label(ks) == "⇧"@ + "⌃"@ + "⌥"@ + "⌘"@
                + "fn"@ + held && linux_label(ks) == "Ctrl+"@ + "Alt+"@ + "Shift+"@ + "Super+"@
                + "Fn+"@ + held
        }),
{
    let m = ks.modifiers;
    let k = key_label(ks.key@, m.any());
    assert(!m.any() ==> mac_label(ks) =~= k);
    assert(!m.any() ==> linux_label(ks) =~= k);
    assert(mac_label(ks) =~= (if m.shift {
        "⇧"@
    } else {
        Seq::empty()
    }) + (if m.control {
        "⌃"@
    } else {
        Seq::empty()
    }) + (if m.alt {
        "⌥"@
    } else {
        Seq::empty()
    }) + (if m.platform {
        "⌘"@
    } else {
        Seq::empty()
    }) + (if m.function {
        "fn"@
    } else {
        Seq::empty()
    }) + k);
    if m.any() {
        lemma_single_modifiers(ks);
    }
}

/// How many modifiers are held.
pub open spec fn flags(m: Modifiers) -> int {
    (if m.control {
        1int
    } else {
        0
    }) + (if m.alt {
        1int
    } else {
        0
    }) + (if m.shift {
        1int
    } else {
        0
    }) + (if m.platform {
        1int
    } else {
        0
    }) + (if m.function {
        1int
    } else {
        0
    })
}

proof fn lemma_single_modifiers(ks: Keystroke)
    requires
        ks.modifiers.any(),
    ensures
        ({
            let m = ks.modifiers;
            let held = key_label(ks.key@, true);
            let count = flags(m);
            &&& count == 1 ==> mac_label(ks) == (if m.control {
                "⌃"@
            } else if m.alt {
                "⌥"@
            } else if m.shift {
                "⇧"@
            } else if m.platform {
                "⌘"@
            } else {
                "fn"@
            }) + held
            &&& count == 1 ==> linux_label(ks) == (if m.control {
                "Ctrl+"@
            } else if m.alt {
                "Alt+"@
            } else if m.shift {
                "Shift+"@
            } else if m.platform {
                "Super+"@
            } else {
                "Fn+"@
            }) + held
            &&& count == 5 ==> mac_label(ks) == "⇧"@ + "⌃"@ + "⌥"@ + "⌘"@ + "fn"@ + held
            &&& count == 5 ==> linux_label(ks) == "Ctrl+"@ + "Alt+"@ + "Shift+"@ + "Super+"@ + "Fn+"@
                + held
        }),
{
    let m = ks.modifiers;
    let held = key_label(ks.key@, true);
    if m.control && !m.alt && !m.shift && !m.platform && !m.function {
        assert(mac_label(ks) =~= "⌃"@ + held);
        assert(linux_label(ks) =~= "Ctrl+"@ + held);
    } else if !m.control && m.alt && !m.shift && !m.platform && !m.function {
        assert(mac_label(ks) =~= "⌥"@ + held);
        assert(linux_label(ks) =~= "Alt+"@ + held);
    } else if !m.control && !m.alt && m.shift && !m.platform && !m.function {
        assert(mac_label(ks) =~= "⇧"@ + held);
        assert(linux_label(ks) =~= "Shift+"@ + held);
    } else if !m.control && !m.alt && !m.shift && m.platform && !m.function {
        assert(mac_label(ks) =~= "⌘"@ + held);
        assert(linux_label(ks) =~= "Super+"@ + held);
    } else if !m.control && !m.alt && !m.shift && !m.platform && m.function {
        assert(mac_label(ks) =~= "fn"@ + held);
        assert(linux_label(ks) =~= "Fn+"@ + held);
    } else if m.control && m.alt && m.shift && m.platform && m.function {
        assert(mac_label(ks) =~= "⇧"@ + "⌃"@ + "⌥"@ + "⌘"@ + "fn"@ + held);
        assert(linux_label(ks) =~= "Ctrl+"@ + "Alt+"@ + "Shift+"@ + "Super+"@ + "Fn+"@ + held);
    }
}

/// A key is shown the way of its platform; one that cannot be read is shown
/// as it is written.
pub proof fn lemma_shown_tokens(token: Seq<char>, k: KeyParse, table: Seq<KeyParse>)
    ensures
        parse_of(table, token) == Some(k) ==> token_label(token, Platform::Mac, table) == mac_label(
            k.stroke,
        ) && token_label(token, Platform::Linux, table) == linux_label(k.stroke),
        parse_of(table, token) is None ==> token_label(token, Platform::Mac, table) == token
            && token_label(token, Platform::Linux, table) == token,
{
}

} // verus!
