//! The modal lists over a window: the command palette and the theme picker.
//! At most one is open at a time.
use vstd::prelude::*;

use crate::config::schema::ColorsConfig;
use crate::config::theme::{preset_list, preset_names, themed, Theme};
use crate::focus::{restore_focus, restored_focus, FocusTarget};
use crate::keymap::actions::{fits_a_line, lemma_registry_fits, registry};
use crate::keymap::keystroke::{KeyParse, Keystroke};
use crate::keymap::registry::{all, by_id, row_of, rows, ActionContext, ActionMeta, Row};
use crate::keymap::resolve::{pretty, pretty_keys, shown_entry, Platform, ResolvedKeymap};
use crate::palette::{
    binding_of, build_items, item_rows, listing, scorable, PaletteItem, MAX_CANDIDATE,
};
use crate::panes::PaneId;
use crate::text::{chars_of, decimal, maybe, push_decimal, same, str_views, string_of};
use crate::workspaces::{round, step_round};

verus! {

/// Rows visible in the palette list before it scrolls.
pub const PALETTE_ROWS: usize = 12;

/// How many commands the palette remembers.
pub const PALETTE_RECENT: usize = 20;

// --- What the palette offers ---

/// Whether the palette offers an action. Tree and workspace actions need the
/// drawer on screen to have anything to act on; overlay navigation is
/// meaningless from inside an overlay.
pub open spec fn offered(r: Row, drawer: bool) -> bool {
    r.id != "app::palette"@ && match r.context {
        ActionContext::Root => true,
        ActionContext::FileTree | ActionContext::Workspaces => drawer,
        ActionContext::Overlay => false,
    }
}

/// The actions that the palette offers, in registry order.
pub open spec fn offers(table: Seq<Row>, drawer: bool) -> Seq<Row>
    decreases table.len(),
{
    if table.len() == 0 {
        Seq::empty()
    } else if offered(table.last(), drawer) {
        offers(table.drop_last(), drawer).push(table.last())
    } else {
        offers(table.drop_last(), drawer)
    }
}

/// The actions that the palette offers right now.
pub fn palette_candidates(drawer: bool) -> (r: Vec<ActionMeta>)
    ensures
        rows(r@) == offers(registry(), drawer),
        forall|i: int| 0 <= i < r@.len() ==> scorable(#[trigger] r@[i]@),
{
    let mut table = all();
    let ghost whole = registry();
    let mut out: Vec<ActionMeta> = Vec::new();
    let count = table.len();
    let mut i: usize = 0;
    proof {
        lemma_registry_fits();
        assert(whole.take(0) =~= Seq::empty());
        assert(rows(out@) =~= Seq::empty());
    }
    let ghost kept = table@;
    while i < count
        invariant
            i <= count,
            count == kept.len(),
            rows(kept) == whole,
            whole == registry(),
            table@ == kept.skip(i as int),
            rows(out@) == offers(whole.take(i as int), drawer),
            forall|k: int| 0 <= k < whole.len() ==> fits_a_line(#[trigger] whole[k]),
            forall|k: int| 0 <= k < out@.len() ==> scorable(#[trigger] out@[k]@),
        decreases count - i,
    {
        let ghost s = whole.take(i + 1);
        let m = table.remove(0);
        assert(m == kept[i as int]);
        assert(table@ =~= kept.skip(i + 1));
        assert(s.drop_last() =~= whole.take(i as int));
        assert(s.last() == whole[i as int] && whole[i as int] == m@);
        let on = match m.context {
            ActionContext::Root => true,
            ActionContext::FileTree | ActionContext::Workspaces => drawer,
            ActionContext::Overlay => false,
        };
        if on && !same(m.id, "app::palette") {
            let ghost was = out@;
            assert(fits_a_line(whole[i as int]));
            assert(scorable(m@));
            out.push(m);
            assert(rows(out@) =~= rows(was).push(m@));
        }
        i += 1;
    }
    assert(whole.take(count as int) =~= whole);
    out
}

/// The keys to show beside an action.
pub open spec fn keys_beside(
    keymap: ResolvedKeymap,
    platform: Platform,
    table: Seq<KeyParse>,
    id: Seq<char>,
) -> Option<Seq<char>> {
    match shown_entry(keymap@.entries, id) {
        None => None,
        Some(e) => Some(pretty(e.keys, platform, table)),
    }
}

proof fn lemma_binding_push(bindings: Seq<(String, String)>, b: (String, String), id: Seq<char>)
    ensures
        binding_of(bindings.push(b), id) == if binding_of(bindings, id) is Some {
            binding_of(bindings, id)
        } else if b.0@ == id {
            Some(b.1@)
        } else {
            None
        },
    decreases bindings.len(),
{
    let next = bindings.push(b);
    if bindings.len() == 0 {
        assert(next.skip(1) =~= Seq::empty());
        assert(binding_of(next.skip(1), id) is None);
        assert(next[0] == b);
    } else {
        assert(next[0] == bindings[0]);
        assert(next.skip(1) =~= bindings.skip(1).push(b));
        lemma_binding_push(bindings.skip(1), b, id);
    }
}

/// The keys that the palette shows, by action id.
pub fn shown_bindings(keymap: &ResolvedKeymap, platform: Platform, table: &Vec<KeyParse>) -> (r: Vec<
    (String, String),
>)
    ensures
        forall|i: int|
            0 <= i < registry().len() ==> binding_of(r@, #[trigger] registry()[i].id)
                == keys_beside(*keymap, platform, table@, registry()[i].id),
{
    let metas = all();
    let ghost whole = registry();
    let mut out: Vec<(String, String)> = Vec::new();
    let mut i: usize = 0;
    while i < metas.len()
        invariant
            i <= metas.len(),
            whole == registry(),
            rows(metas@) == whole,
            forall|k: int|
                0 <= k < i ==> binding_of(out@, #[trigger] whole[k].id) == keys_beside(
                    *keymap,
                    platform,
                    table@,
                    whole[k].id,
                ),
            forall|id: Seq<char>| #[trigger]
                binding_of(out@, id) is Some ==> binding_of(out@, id) == keys_beside(
                    *keymap,
                    platform,
                    table@,
                    id,
                ),
        decreases metas.len() - i,
    {
        assert(whole[i as int] == metas@[i as int]@);
        let id = metas[i].id;
        if let Some(e) = keymap.display_for(id) {
            let keys = pretty_keys(e.keys.as_str(), platform, table);
            let ghost was = out@;
            let b = (id.to_owned(), keys);
            out.push(b);
            proof {
                assert forall|x: Seq<char>| #[trigger] binding_of(out@, x) == if binding_of(
                    was,
                    x,
                ) is Some {
                    binding_of(was, x)
                } else if b.0@ == x {
                    Some(b.1@)
                } else {
                    None
                } by {
                    lemma_binding_push(was, b, x);
                }
                assert forall|k: int| 0 <= k < i implies binding_of(
                    out@,
                    #[trigger] whole[k].id,
                ) == keys_beside(*keymap, platform, table@, whole[k].id) by {
                    assert(binding_of(was, whole[k].id) == keys_beside(
                        *keymap,
                        platform,
                        table@,
                        whole[k].id,
                    ));
                }
            }
        } else {
            assert(binding_of(out@, whole[i as int].id) is None);
        }
        i += 1;
    }
    out
}

// --- Commands run lately ---

/// A list of names without one of them.
pub open spec fn without(names: Seq<Seq<char>>, id: Seq<char>) -> Seq<Seq<char>>
    decreases names.len(),
{
    if names.len() == 0 {
        Seq::empty()
    } else if names.last() == id {
        without(names.drop_last(), id)
    } else {
        without(names.drop_last(), id).push(names.last())
    }
}

/// The commands run lately, newest first, after one more.
pub open spec fn remembered(recent: Seq<Seq<char>>, id: Seq<char>) -> Seq<Seq<char>> {
    let next = seq![id] + without(recent, id);
    if next.len() > PALETTE_RECENT {
        next.take(PALETTE_RECENT as int)
    } else {
        next
    }
}

/// Notes that a command was run: it comes to the front of the list, once.
pub fn remember(recent: &Vec<&'static str>, id: &'static str) -> (r: Vec<&'static str>)
    ensures
        str_views(r@) == remembered(str_views(recent@), id@),
{
    let ghost old_names = str_views(recent@);
    let mut out: Vec<&'static str> = Vec::new();
    out.push(id);
    let mut i: usize = 0;
    proof {
        assert(old_names.take(0) =~= Seq::empty());
        assert(str_views(out@) =~= seq![id@] + without(old_names.take(0), id@));
    }
    while i < recent.len()
        invariant
            i <= recent.len(),
            old_names == str_views(recent@),
            str_views(out@) == seq![id@] + without(old_names.take(i as int), id@),
        decreases recent.len() - i,
    {
        let ghost s = old_names.take(i + 1);
        assert(s.drop_last() =~= old_names.take(i as int));
        assert(s.last() == recent@[i as int]@);
        if !same(recent[i], id) {
            let ghost was = out@;
            out.push(recent[i]);
            assert(str_views(out@) =~= str_views(was).push(recent@[i as int]@));
            assert(str_views(out@) =~= seq![id@] + without(s, id@));
        }
        i += 1;
    }
    assert(old_names.take(i as int) =~= old_names);
    if out.len() > PALETTE_RECENT {
        let ghost was = out@;
        out.truncate(PALETTE_RECENT);
        assert(str_views(out@) =~= str_views(was).take(PALETTE_RECENT as int));
    }
    out
}

proof fn lemma_without(names: Seq<Seq<char>>, id: Seq<char>)
    ensures
        !without(names, id).contains(id),
        without(names, id).len() <= names.len(),
        forall|x: Seq<char>| #[trigger] without(names, id).contains(x) ==> names.contains(x),
        names.no_duplicates() ==> without(names, id).no_duplicates(),
    decreases names.len(),
{
    if names.len() > 0 {
        let rest = names.drop_last();
        lemma_without(rest, id);
        let r = without(names, id);
        if names.last() != id {
            assert(r == without(rest, id).push(names.last()));
            if r.contains(id) {
                let k = r.index_of(id);
                assert(r[k] == id);
                if k < without(rest, id).len() {
                    assert(without(rest, id)[k] == id);
                }
            }
        }
        assert forall|x: Seq<char>| #[trigger] r.contains(x) implies names.contains(x) by {
            let k = r.index_of(x);
            assert(r[k] == x);
            if names.last() != id && k == r.len() - 1 {
                assert(names[names.len() - 1] == x);
            } else {
                assert(without(rest, id)[k] == x);
                assert(without(rest, id).contains(x));
                assert(rest.contains(x));
                let j = rest.index_of(x);
                assert(names[j] == x);
            }
        }
        if names.no_duplicates() {
            assert(rest.no_duplicates()) by {
                assert forall|i: int, j: int|
                    0 <= i < rest.len() && 0 <= j < rest.len() && i != j implies rest[i]
                        != rest[j] by {
                    assert(names[i] != names[j]);
                }
            }
            if names.last() != id {
                assert forall|i: int, j: int|
                    0 <= i < r.len() && 0 <= j < r.len() && i != j implies r[i] != r[j] by {
                    let n = without(rest, id).len();
                    if i == n || j == n {
                        let k = if i == n {
                            j
                        } else {
                            i
                        };
                        assert(without(rest, id).contains(without(rest, id)[k]));
                        assert(rest.contains(r[k]));
                        let h = rest.index_of(r[k]);
                        assert(rest[h] == r[k]);
                        assert(names[h] != names[names.len() - 1]);
                    }
                }
            }
        }
    }
}

/// The list of commands run lately starts with the last one, holds none
/// twice, and never grows past its limit.
pub proof fn lemma_remembered(recent: Seq<Seq<char>>, id: Seq<char>)
    requires
        recent.no_duplicates(),
    ensures
        remembered(recent, id).len() > 0,
        remembered(recent, id)[0] == id,
        remembered(recent, id).len() <= PALETTE_RECENT,
        remembered(recent, id).no_duplicates(),
{
    lemma_without(recent, id);
    let next = seq![id] + without(recent, id);
    assert forall|i: int, j: int| 0 <= i < next.len() && 0 <= j < next.len() && i != j implies next[i]
        != next[j] by {
        let rest = without(recent, id);
        if i == 0 {
            assert(rest.contains(rest[j - 1]));
        } else if j == 0 {
            assert(rest.contains(rest[i - 1]));
        } else {
            assert(rest[i - 1] != rest[j - 1]);
        }
    }
}

// --- The palette ---

/// The open palette.
#[derive(Debug)]
pub struct PaletteState {
    pub query: String,
    /// The filtered, ranked list; recomputed on every keystroke.
    pub matches: Vec<PaletteItem>,
    pub selected: usize,
    /// Index of the first visible row.
    pub scroll: usize,
    pub return_focus: FocusTarget,
}

/// Where the cursor of the palette is and what is visible.
pub open spec fn in_view(n: int, selected: int, scroll: int) -> bool {
    if n == 0 {
        selected == 0 && scroll == 0
    } else {
        0 <= scroll <= selected < n && selected < scroll + PALETTE_ROWS
    }
}

/// The first visible row after the cursor moved: scrolled no further than
/// needed to show it.
pub open spec fn scrolled(scroll: int, selected: int) -> int {
    if selected < scroll {
        selected
    } else if selected >= scroll + PALETTE_ROWS {
        selected + 1 - PALETTE_ROWS
    } else {
        scroll
    }
}

/// The query after a key, or `None` where the key is not for the palette.
pub open spec fn requeried(query: Seq<char>, ks: Keystroke) -> Option<Seq<char>> {
    if ks.key@ == "backspace"@ {
        Some(
            if query.len() == 0 {
                query
            } else {
                query.drop_last()
            },
        )
    } else if ks.modifiers.platform || ks.modifiers.control || ks.modifiers.function {
        None
    } else {
        match ks.key_char {
            None => None,
            Some(c) => Some(query + c@),
        }
    }
}

impl PaletteState {
    /// The cursor is on a row, and that row is visible.
    pub open spec fn wf(&self) -> bool {
        in_view(self.matches@.len() as int, self.selected as int, self.scroll as int)
    }

    /// Open the palette with everything it offers.
    pub fn open(
        return_focus: FocusTarget,
        drawer: bool,
        recent: &Vec<&'static str>,
        bindings: &Vec<(String, String)>,
    ) -> (r: Self)
        ensures
            r.wf(),
            r.query@ == ""@,
            r.selected == 0,
            r.scroll == 0,
            r.return_focus == return_focus,
            item_rows(r.matches@) == listing(
                ""@,
                offers(registry(), drawer),
                str_views(recent@),
                bindings@,
            ),
    {
        let matches = build_items(
            "",
            &palette_candidates(drawer),
            recent.as_slice(),
            bindings,
        );
        PaletteState { query: "".to_owned(), matches, selected: 0, scroll: 0, return_focus }
    }

    /// A key in the palette: typed text goes into the query, and the list is
    /// made anew. Returns whether the key was one for the palette.
    pub fn on_key(
        &mut self,
        ks: &Keystroke,
        drawer: bool,
        recent: &Vec<&'static str>,
        bindings: &Vec<(String, String)>,
    ) -> (r: bool)
        requires
            old(self).wf(),
        ensures
            final(self).wf(),
            final(self).return_focus == old(self).return_focus,
            match requeried(old(self).query@, *ks) {
                None => !r && *final(self) == *old(self),
                Some(q) => {
                    &&& r
                    &&& final(self).query@ == q
                    &&& final(self).selected == 0
                    &&& final(self).scroll == 0
                    &&& item_rows(final(self).matches@) == listing(
                        q,
                        offers(registry(), drawer),
                        str_views(recent@),
                        bindings@,
                    )
                },
            },
    {
        if same(ks.key.as_str(), "backspace") {
            let mut v = chars_of(self.query.as_str());
            let _ = v.pop();
            self.query = string_of(v.as_slice());
        } else if ks.modifiers.platform || ks.modifiers.control || ks.modifiers.function {
            return false;
        } else {
            match &ks.key_char {
                None => {
                    return false;
                },
                Some(c) => {
                    self.query.push_str(c.as_str());
                },
            }
        }
        self.matches = build_items(
            self.query.as_str(),
            &palette_candidates(drawer),
            recent.as_slice(),
            bindings,
        );
        self.selected = 0;
        self.scroll = 0;
        true
    }

    /// Move the cursor, round the ends, and scroll it into view. Returns
    /// whether there is anything to move over.
    pub fn move_by(&mut self, delta: i64) -> (r: bool)
        requires
            old(self).wf(),
            -1 <= delta <= 1,
        ensures
            final(self).wf(),
            final(self).query == old(self).query,
            final(self).matches == old(self).matches,
            final(self).return_focus == old(self).return_focus,
            r == (old(self).matches@.len() > 0),
            !r ==> *final(self) == *old(self),
            r ==> final(self).selected == round(
                old(self).selected as int,
                delta as int,
                old(self).matches@.len() as int,
            ),
            r ==> final(self).scroll == scrolled(
                old(self).scroll as int,
                final(self).selected as int,
            ),
    {
        let n = self.matches.len();
        if n == 0 {
            return false;
        }
        self.selected = step_round(self.selected, delta, n);
        if self.selected < self.scroll {
            self.scroll = self.selected;
        } else if self.selected - self.scroll >= PALETTE_ROWS {
            self.scroll = self.selected - (PALETTE_ROWS - 1);
        }
        true
    }

    /// The pointer is over a visible row. Returns whether the cursor moved.
    pub fn hover(&mut self, ix: usize) -> (r: bool)
        requires
            old(self).wf(),
            old(self).scroll <= ix < old(self).matches@.len(),
            ix < old(self).scroll + PALETTE_ROWS,
        ensures
            final(self).wf(),
            final(self).selected == ix,
            final(self).scroll == old(self).scroll,
            final(self).query == old(self).query,
            final(self).matches == old(self).matches,
            final(self).return_focus == old(self).return_focus,
            r == (old(self).selected != ix),
    {
        if self.selected == ix {
            return false;
        }
        self.selected = ix;
        true
    }

    /// The selected command, where there is one.
    pub fn chosen(&self) -> (r: Option<ActionMeta>)
        requires
            self.wf(),
        ensures
            self.matches@.len() == 0 ==> r is None,
            self.matches@.len() > 0 ==> match r {
                None => row_of(self.matches@[self.selected as int].action_id@, registry()) is None,
                Some(m) => row_of(self.matches@[self.selected as int].action_id@, registry())
                    == Some(m@),
            },
    {
        if self.matches.len() == 0 {
            return None;
        }
        by_id(self.matches[self.selected].action_id)
    }

    /// The visible rows: from the first up to, not with, the second number.
    pub fn visible(&self) -> (r: (usize, usize))
        requires
            self.wf(),
        ensures
            r.0 == self.scroll,
            r.1 == if self.scroll + PALETTE_ROWS < self.matches@.len() {
                self.scroll + PALETTE_ROWS
            } else {
                self.matches@.len() as int
            },
    {
        let n = self.matches.len();
        if n - self.scroll > PALETTE_ROWS {
            (self.scroll, self.scroll + PALETTE_ROWS)
        } else {
            (self.scroll, n)
        }
    }

    /// The position line under a list that scrolls.
    pub fn position(&self) -> (r: Option<String>)
        requires
            self.wf(),
        ensures
            match r {
                None => self.matches@.len() <= PALETTE_ROWS,
                Some(t) => self.matches@.len() > PALETTE_ROWS && t@ == decimal(
                    (self.selected + 1) as nat,
                ) + " of "@ + decimal(self.matches@.len()),
            },
    {
        if self.matches.len() <= PALETTE_ROWS {
            return None;
        }
        let mut out = "".to_owned();
        push_decimal(&mut out, (self.selected + 1) as u64);
        out.push_str(" of ");
        push_decimal(&mut out, self.matches.len() as u64);
        proof {
            reveal_strlit("");
            assert(out@ =~= decimal((self.selected + 1) as nat) + " of "@ + decimal(
                self.matches@.len(),
            ));
        }
        Some(out)
    }

    /// What the input line shows.
    pub fn input_text(&self) -> (r: String)
        ensures
            r@ == if self.query@.len() == 0 {
                "▏type a command…"@
            } else {
                self.query@ + "▏"@
            },
    {
        if chars_of(self.query.as_str()).len() == 0 {
            return "▏type a command…".to_owned();
        }
        let mut out = self.query.clone();
        out.push_str("▏");
        out
    }
}

/// Where the focus goes before a chosen command runs: to the context the
/// action belongs to, or to wherever it was, so that the action lands on a
/// live element.
pub fn focus_for(
    context: ActionContext,
    return_focus: FocusTarget,
    drawer_visible: bool,
    live: &Vec<PaneId>,
    active: PaneId,
) -> (r: FocusTarget)
    ensures
        r == match context {
            ActionContext::FileTree => FocusTarget::Tree,
            ActionContext::Workspaces => FocusTarget::Workspaces,
            _ => restored_focus(return_focus, drawer_visible, live@, active),
        },
{
    match context {
        ActionContext::FileTree => FocusTarget::Tree,
        ActionContext::Workspaces => FocusTarget::Workspaces,
        _ => restore_focus(return_focus, drawer_visible, live, active),
    }
}

/// Whatever the palette offers can be run: it names a registered action, not
/// the palette itself nor anything of an overlay, and nothing of the drawer
/// while that is hidden.
pub proof fn lemma_offers(table: Seq<Row>, drawer: bool, i: int)
    requires
        0 <= i < offers(table, drawer).len(),
    ensures
        table.contains(offers(table, drawer)[i]),
        offered(offers(table, drawer)[i], drawer),
    decreases table.len(),
{
    let rest = table.drop_last();
    if offered(table.last(), drawer) && i == offers(rest, drawer).len() {
        assert(table[table.len() - 1] == table.last());
    } else {
        lemma_offers(rest, drawer, i);
        let x = offers(rest, drawer)[i];
        let k = rest.index_of(x);
        assert(rest.contains(x));
        assert(table[k] == x);
    }
}

// --- Matched characters ---

/// The number of bytes that a character takes in UTF-8.
pub open spec fn char_bytes(c: char) -> int {
    if (c as u32) < 0x80 {
        1
    } else if (c as u32) < 0x800 {
        2
    } else if (c as u32) < 0x10000 {
        3
    } else {
        4
    }
}

/// Where the `k`-th character of a text starts, in bytes.
pub open spec fn byte_at(text: Seq<char>, k: int) -> int
    decreases k,
{
    if k <= 0 {
        0
    } else {
        byte_at(text, k - 1) + char_bytes(text[k - 1])
    }
}

/// The byte ranges of some characters of a text; those that follow on one
/// another make one range.
pub open spec fn spans(text: Seq<char>, positions: Seq<usize>) -> Seq<(usize, usize)>
    decreases positions.len(),
{
    if positions.len() == 0 {
        Seq::empty()
    } else {
        let rest = spans(text, positions.drop_last());
        let p = positions.last() as int;
        let start = byte_at(text, p) as usize;
        let end = byte_at(text, p + 1) as usize;
        if p >= text.len() {
            rest
        } else if rest.len() > 0 && rest.last().1 == start {
            rest.drop_last().push((rest.last().0, end))
        } else {
            rest.push((start, end))
        }
    }
}

proof fn lemma_byte_at(text: Seq<char>, k: int)
    requires
        0 <= k <= text.len(),
    ensures
        0 <= byte_at(text, k) <= 4 * k,
    decreases k,
{
    if k > 0 {
        lemma_byte_at(text, k - 1);
    }
}

/// Where each character of a text starts and where the text ends, in bytes.
fn byte_marks(text: &Vec<char>) -> (r: Vec<usize>)
    requires
        text@.len() <= MAX_CANDIDATE,
    ensures
        r@.len() == text@.len() + 1,
        forall|k: int| 0 <= k <= text@.len() ==> #[trigger] r@[k] == byte_at(text@, k),
{
    let mut out: Vec<usize> = Vec::new();
    out.push(0);
    let mut i: usize = 0;
    while i < text.len()
        invariant
            i <= text.len(),
            text@.len() <= MAX_CANDIDATE,
            out@.len() == i + 1,
            forall|k: int| 0 <= k <= i ==> #[trigger] out@[k] == byte_at(text@, k),
        decreases text.len() - i,
    {
        proof {
            lemma_byte_at(text@, i as int);
        }
        let c = text[i] as u32;
        let n: usize = if c < 0x80 {
            1
        } else if c < 0x800 {
            2
        } else if c < 0x10000 {
            3
        } else {
            4
        };
        let at = out[i];
        out.push(at + n);
        i += 1;
    }
    out
}

/// The byte ranges of a palette row's matched characters, to be picked out.
/// Adjacent ones are merged, so a run is one span.
pub fn highlighted_ranges(title: &str, positions: &Vec<usize>) -> (r: Vec<(usize, usize)>)
    requires
        title@.len() <= MAX_CANDIDATE,
    ensures
        r@ == spans(title@, positions@),
{
    let text = chars_of(title);
    let marks = byte_marks(&text);
    let mut out: Vec<(usize, usize)> = Vec::new();
    let mut i: usize = 0;
    assert(positions@.take(0) =~= Seq::empty());
    assert(out@ =~= spans(title@, positions@.take(0)));
    while i < positions.len()
        invariant
            i <= positions.len(),
            text@ == title@,
            title@.len() <= MAX_CANDIDATE,
            marks@.len() == text@.len() + 1,
            forall|k: int| 0 <= k <= text@.len() ==> #[trigger] marks@[k] == byte_at(text@, k),
            out@ == spans(title@, positions@.take(i as int)),
        decreases positions.len() - i,
    {
        assert(positions@.take(i + 1).drop_last() =~= positions@.take(i as int));
        let p = positions[i];
        if p < text.len() {
            let start = marks[p];
            let end = marks[p + 1];
            assert(start == byte_at(text@, p as int) && end == byte_at(text@, p as int + 1));
            let n = out.len();
            if n > 0 && out[n - 1].1 == start {
                let first = out[n - 1].0;
                let _ = out.pop();
                out.push((first, end));
            } else {
                out.push((start, end));
            }
        }
        i += 1;
    }
    assert(positions@.take(i as int) =~= positions@);
    out
}

/// Whether a byte lies in one of some ranges.
pub open spec fn covered(ranges: Seq<(usize, usize)>, b: int) -> bool {
    exists|i: int| 0 <= i < ranges.len() && (#[trigger] ranges[i]).0 <= b < ranges[i].1
}

/// Whether a byte belongs to one of some characters of a text.
pub open spec fn picked(text: Seq<char>, positions: Seq<usize>, b: int) -> bool {
    exists|i: int|
        0 <= i < positions.len() && (#[trigger] positions[i]) < text.len() && byte_at(
            text,
            positions[i] as int,
        ) <= b < byte_at(text, positions[i] as int + 1)
}

/// What is picked out is exactly the matched characters.
pub proof fn lemma_spans_cover(text: Seq<char>, positions: Seq<usize>, b: int)
    requires
        text.len() <= MAX_CANDIDATE,
    ensures
        covered(spans(text, positions), b) <==> picked(text, positions, b),
        forall|i: int|
            0 <= i < spans(text, positions).len() ==> (#[trigger] spans(text, positions)[i]).0
                <= spans(text, positions)[i].1,
    decreases positions.len(),
{
    if positions.len() > 0 {
        let head = positions.drop_last();
        lemma_spans_cover(text, head, b);
        let rest = spans(text, head);
        let all = spans(text, positions);
        let p = positions.last() as int;
        if picked(text, head, b) {
            let i = choose|i: int|
                0 <= i < head.len() && (#[trigger] head[i]) < text.len() && byte_at(
                    text,
                    head[i] as int,
                ) <= b < byte_at(text, head[i] as int + 1);
            assert(positions[i] == head[i]);
        }
        if picked(text, positions, b) {
            let i = choose|i: int|
                0 <= i < positions.len() && (#[trigger] positions[i]) < text.len() && byte_at(
                    text,
                    positions[i] as int,
                ) <= b < byte_at(text, positions[i] as int + 1);
            if i < head.len() {
                assert(head[i] == positions[i]);
                assert(picked(text, head, b));
            }
        }
        if p < text.len() {
            lemma_byte_at(text, p);
            lemma_byte_at(text, p + 1);
            let start = byte_at(text, p);
            let end = byte_at(text, p + 1);
            assert(positions[positions.len() - 1] == p);
            if start <= b < end {
                assert(picked(text, positions, b));
            }
            assert(picked(text, positions, b) <==> picked(text, head, b) || start <= b < end);
            let merged = rest.len() > 0 && rest.last().1 == start as usize;
            let m = rest.len() as int;
            if covered(rest, b) {
                let i = choose|i: int|
                    0 <= i < rest.len() && (#[trigger] rest[i]).0 <= b < rest[i].1;
                if merged && i == m - 1 {
                    assert(all[m - 1].0 <= b < all[m - 1].1);
                } else {
                    assert(all[i] == rest[i]);
                }
            }
            if start <= b < end {
                if merged {
                    assert(rest[m - 1].0 <= rest[m - 1].1);
                    assert(all[m - 1].0 <= b < all[m - 1].1);
                } else {
                    assert(all[m].0 <= b < all[m].1);
                }
            }
            if covered(all, b) {
                let i = choose|i: int| 0 <= i < all.len() && (#[trigger] all[i]).0 <= b < all[i].1;
                if merged && i == m - 1 {
                    if b < start {
                        assert(rest[m - 1].0 <= b < rest[m - 1].1);
                    }
                } else if i < m {
                    assert(rest[i] == all[i]);
                }
            }
            assert forall|i: int| 0 <= i < all.len() implies (#[trigger] all[i]).0 <= all[i].1 by {
                if i < m {
                    assert(rest[i].0 <= rest[i].1);
                }
            }
        } else {
            assert(picked(text, positions, b) <==> picked(text, head, b));
        }
    }
}

// --- The theme picker ---

/// The open theme picker. `original` is the theme to restore on cancel.
#[derive(Debug)]
pub struct ThemePicker {
    pub selected: usize,
    pub original: Theme,
    pub return_focus: FocusTarget,
}

/// Settings that name a preset and set nothing else.
pub open spec fn only_preset(c: ColorsConfig, name: Seq<char>) -> bool {
    &&& maybe(c.preset) == Some(name)
    &&& c.preset_dark is None
    &&& c.preset_light is None
    &&& !c.follow_system
    &&& c.background is None
    &&& c.foreground is None
    &&& c.cursor is None
    &&& c.selection_bg is None
    &&& c.selection_fg is None
    &&& c.black is None
    &&& c.red is None
    &&& c.green is None
    &&& c.yellow is None
    &&& c.blue is None
    &&& c.magenta is None
    &&& c.cyan is None
    &&& c.white is None
    &&& c.bright_black is None
    &&& c.bright_red is None
    &&& c.bright_green is None
    &&& c.bright_yellow is None
    &&& c.bright_blue is None
    &&& c.bright_magenta is None
    &&& c.bright_cyan is None
    &&& c.bright_white is None
}

/// Settings that name a preset and nothing else. Picking a theme means "I
/// want this theme", so explicit colours do not apply.
pub fn preset_only(name: &str) -> (r: ColorsConfig)
    ensures
        only_preset(r, name@),
{
    ColorsConfig {
        preset: Some(name.to_owned()),
        preset_dark: None,
        preset_light: None,
        follow_system: false,
        background: None,
        foreground: None,
        cursor: None,
        selection_bg: None,
        selection_fg: None,
        black: None,
        red: None,
        green: None,
        yellow: None,
        blue: None,
        magenta: None,
        cyan: None,
        white: None,
        bright_black: None,
        bright_red: None,
        bright_green: None,
        bright_yellow: None,
        bright_blue: None,
        bright_magenta: None,
        bright_cyan: None,
        bright_white: None,
    }
}

impl ThemePicker {
    /// The cursor is on a preset.
    pub open spec fn wf(&self) -> bool {
        self.selected < preset_list().len()
    }

    /// Open the picker on the preset in use.
    pub fn open(preset: Option<&str>, original: Theme, return_focus: FocusTarget) -> (r: Self)
        ensures
            r.wf(),
            r.original == original,
            r.return_focus == return_focus,
            ({
                let name = match preset {
                    Some(p) => p@,
                    None => "catppuccin-mocha"@,
                };
                if preset_list().contains(name) {
                    preset_list()[r.selected as int] == name && !preset_list().take(
                        r.selected as int,
                    ).contains(name)
                } else {
                    r.selected == 0
                }
            }),
    {
        let name = match preset {
            Some(p) => p,
            None => "catppuccin-mocha",
        };
        let names = preset_names();
        let ghost list = preset_list();
        assert(list.len() == 25);
        let mut i: usize = 0;
        while i < names.len()
            invariant
                i <= names.len(),
                list == preset_list(),
                list.len() == 25,
                str_views(names@) == list,
                !list.take(i as int).contains(name@),
                name@ == match preset {
                    Some(p) => p@,
                    None => "catppuccin-mocha"@,
                },
            decreases names.len() - i,
        {
            assert(list[i as int] == names@[i as int]@);
            if same(names[i], name) {
                assert(list.contains(name@));
                return ThemePicker { selected: i, original, return_focus };
            }
            assert(!list.take(i + 1).contains(name@)) by {
                if list.take(i + 1).contains(name@) {
                    let k = list.take(i + 1).index_of(name@);
                    assert(list.take(i + 1)[k] == name@);
                    if k < i {
                        assert(list.take(i as int)[k] == name@);
                    }
                }
            }
            i += 1;
        }
        assert(list.take(i as int) =~= list);
        ThemePicker { selected: 0, original, return_focus }
    }

    /// Move the cursor, round the ends.
    pub fn move_by(&mut self, delta: i64)
        requires
            old(self).wf(),
            -1 <= delta <= 1,
        ensures
            final(self).wf(),
            final(self).selected == round(
                old(self).selected as int,
                delta as int,
                preset_list().len() as int,
            ),
            final(self).original == old(self).original,
            final(self).return_focus == old(self).return_focus,
    {
        let names = preset_names();
        assert(str_views(names@).len() == names@.len());
        self.selected = step_round(self.selected, delta, names.len());
    }

    /// The selected preset.
    pub fn name(&self) -> (r: &'static str)
        requires
            self.wf(),
        ensures
            r@ == preset_list()[self.selected as int],
    {
        let names = preset_names();
        assert(str_views(names@).len() == names@.len());
        assert(str_views(names@)[self.selected as int] == names@[self.selected as int]@);
        names[self.selected]
    }

    /// The selected preset as a theme, to be seen at once.
    pub fn preview(&self) -> (r: (ColorsConfig, Theme))
        requires
            self.wf(),
        ensures
            only_preset(r.0, preset_list()[self.selected as int]),
            themed(r.1, r.0, Some(preset_list()[self.selected as int])),
    {
        let colors = preset_only(self.name());
        let theme = Theme::from_config(&colors);
        (colors, theme)
    }
}

// --- Which list is open ---

/// A modal over the window.
#[derive(Debug)]
pub enum Overlay {
    Palette(PaletteState),
    ThemePicker(ThemePicker),
}

/// What has to be done as a list opens or closes.
#[derive(Debug)]
pub struct OverlayStep {
    /// A theme to put back.
    pub theme: Option<Theme>,
    /// Where the focus goes back to.
    pub focus: Option<FocusTarget>,
    /// Whether the palette opens now.
    pub open_palette: bool,
}

/// Cancel whichever list is open: a previewed theme reverts, and the focus
/// goes back to where it was.
pub fn cancel(overlay: Option<Overlay>) -> (r: OverlayStep)
    ensures
        !r.open_palette,
        match overlay {
            None => r.theme is None && r.focus is None,
            Some(Overlay::Palette(p)) => r.theme is None && r.focus == Some(p.return_focus),
            Some(Overlay::ThemePicker(t)) => r.theme == Some(t.original) && r.focus == Some(
                t.return_focus,
            ),
        },
{
    match overlay {
        None => OverlayStep { theme: None, focus: None, open_palette: false },
        Some(Overlay::Palette(p)) => OverlayStep {
            theme: None,
            focus: Some(p.return_focus),
            open_palette: false,
        },
        Some(Overlay::ThemePicker(t)) => OverlayStep {
            theme: Some(t.original),
            focus: Some(t.return_focus),
            open_palette: false,
        },
    }
}

/// The palette's own key: it closes an open palette, and takes the place of
/// an open theme picker.
pub fn toggle_palette(overlay: Option<Overlay>) -> (r: OverlayStep)
    ensures
        r.open_palette == !(overlay matches Some(Overlay::Palette(_))),
        match overlay {
            None => r.theme is None && r.focus is None,
            Some(Overlay::Palette(p)) => r.theme is None && r.focus == Some(p.return_focus),
            Some(Overlay::ThemePicker(t)) => r.theme == Some(t.original) && r.focus == Some(
                t.return_focus,
            ),
        },
{
    let opens = match &overlay {
        Some(Overlay::Palette(_)) => false,
        _ => true,
    };
    let step = cancel(overlay);
    OverlayStep { open_palette: opens, ..step }
}

/// Which actions the palette offers: those that work anywhere, but for the
/// palette itself; those of the drawer's panels while the drawer is out; and
/// none of those that move in a list.
pub proof fn lemma_what_is_offered(r: Row, drawer: bool)
    ensures
        r.id == "app::palette"@ ==> !offered(r, drawer),
        r.id != "app::palette"@ && r.context is Root ==> offered(r, drawer),
        r.id != "app::palette"@ && (r.context is FileTree || r.context is Workspaces) ==> (offered(
            r,
            drawer,
        ) <==> drawer),
        r.context is Overlay ==> !offered(r, drawer),
{
}

/// Every action that is offered is among the offers.
pub proof fn lemma_none_is_left_out(table: Seq<Row>, drawer: bool, k: int)
    requires
        0 <= k < table.len(),
        offered(table[k], drawer),
    ensures
        offers(table, drawer).contains(table[k]),
    decreases table.len(),
{
    let r = table.drop_last();
    let a = offers(r, drawer);
    let b = offers(table, drawer);
    if k < r.len() {
        lemma_none_is_left_out(r, drawer, k);
        assert(r[k] == table[k]);
        let i = choose|i: int| 0 <= i < a.len() && a[i] == table[k];
        assert(b[i] == table[k]);
    } else {
        assert(b[b.len() - 1] == table[k]);
    }
}

proof fn lemma_without_keeps(names: Seq<Seq<char>>, id: Seq<char>)
    ensures
        without(names, id).len() <= names.len(),
        !without(names, id).contains(id),
        forall|x: Seq<char>| x != id && names.contains(x) ==> #[trigger] without(
            names,
            id,
        ).contains(x),
    decreases names.len(),
{
    if names.len() > 0 {
        let r = names.drop_last();
        lemma_without_keeps(r, id);
        let a = without(r, id);
        let b = without(names, id);
        assert forall|x: Seq<char>| x != id && names.contains(x) implies #[trigger] b.contains(x) by {
            let i = choose|i: int| 0 <= i < names.len() && names[i] == x;
            if i < r.len() {
                assert(r[i] == x);
                assert(a.contains(x));
                let k = choose|k: int| 0 <= k < a.len() && a[k] == x;
                assert(b[k] == x);
            } else {
                assert(b[b.len() - 1] == x);
            }
        }
        assert(!b.contains(id)) by {
            if b.contains(id) {
                let k = choose|k: int| 0 <= k < b.len() && b[k] == id;
                if k < a.len() {
                    assert(a[k] == id);
                }
            }
        }
    }
}

/// Using an action puts it first and forgets none of the others, as long as
/// there are no more than twenty.
pub proof fn lemma_others_are_remembered(recent: Seq<Seq<char>>, id: Seq<char>, x: Seq<char>)
    requires
        recent.len() < 20,
        recent.contains(x),
    ensures
        remembered(recent, id)[0] == id,
        remembered(recent, id).contains(x),
{
    lemma_without_keeps(recent, id);
    let w = without(recent, id);
    let next = seq![id] + w;
    if x == id {
        assert(next[0] == x);
    } else {
        assert(w.contains(x));
        let k = choose|k: int| 0 <= k < w.len() && w[k] == x;
        assert(next[k + 1] == x);
    }
}

/// The list scrolls as little as it must to keep the selected row among the
/// twelve in view.
pub proof fn lemma_scrolling(scroll: int, selected: int)
    ensures
        scrolled(scroll, selected) <= selected < scrolled(scroll, selected) + 12,
        scroll <= selected < scroll + 12 ==> scrolled(scroll, selected) == scroll,
        selected < scroll ==> scrolled(scroll, selected) == selected,
        selected >= scroll + 12 ==> selected == scrolled(scroll, selected) + 11,
{
}

/// Typing adds to the query and backspace takes the last character away; a
/// key with control, the platform key or the function key is not for it.
pub proof fn lemma_querying(query: Seq<char>, c: char, text: String, ks: Keystroke)
    ensures
        ks.key@ == "backspace"@ ==> requeried(query.push(c), ks) == Some(query),
        ks.key@ == "backspace"@ ==> requeried(Seq::empty(), ks) == Some(Seq::<char>::empty()),
        ks.key@ != "backspace"@ && ks.key_char == Some(text) && !ks.modifiers.platform
            && !ks.modifiers.control && !ks.modifiers.function ==> requeried(query, ks) == Some(
            query + text@,
        ),
        ks.key@ != "backspace"@ && (ks.modifiers.platform || ks.modifiers.control
            || ks.modifiers.function) ==> requeried(query, ks) is None,
{
    assert(query.push(c).drop_last() =~= query);
}

/// Leaving a list gives the focus back; leaving the theme picker also puts the
/// theme back that was there before.
pub proof fn lemma_leaving(p: PaletteState, t: ThemePicker, r: OverlayStep)
    ensures
        call_ensures(cancel, (Some(Overlay::Palette(p)),), r) ==> r.focus == Some(p.return_focus)
            && r.theme is None && !r.open_palette,
        call_ensures(cancel, (Some(Overlay::ThemePicker(t)),), r) ==> r.focus == Some(
            t.return_focus,
        ) && r.theme == Some(t.original) && !r.open_palette,
        call_ensures(cancel, (None,), r) ==> r.focus is None && r.theme is None && !r.open_palette,
        call_ensures(toggle_palette, (Some(Overlay::Palette(p)),), r) ==> !r.open_palette && r.focus
            == Some(p.return_focus),
        call_ensures(toggle_palette, (None,), r) ==> r.open_palette,
        call_ensures(toggle_palette, (Some(Overlay::ThemePicker(t)),), r) ==> r.open_palette
            && r.theme == Some(t.original),
{
}

/// An action of a panel is done with the focus in that panel; any other with
/// the focus back where it was.
pub proof fn lemma_focus_for_actions(
    back: FocusTarget,
    visible: bool,
    live: Vec<PaneId>,
    active: PaneId,
    r: FocusTarget,
)
    ensures
        call_ensures(focus_for, (ActionContext::FileTree, back, visible, &live, active), r) ==> r
            is Tree,
        call_ensures(focus_for, (ActionContext::Workspaces, back, visible, &live, active), r) ==> r
            is Workspaces,
        call_ensures(focus_for, (ActionContext::Root, back, visible, &live, active), r) ==> r
            == restored_focus(back, visible, live@, active),
{
}

} // verus!
