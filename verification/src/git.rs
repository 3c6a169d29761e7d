//! What `git` says of a repository: its branch for the status bar, and the
//! state of each changed file. The application runs `git`, on the background
//! pool; this module reads what it prints.
//!
//! Paths are byte strings, so a name in any encoding stays what it is.
use vstd::prelude::*;

use crate::bytes::{bytes_of, zero_at};
use crate::text::{
    after_char, all_digits, before_char, chars_of, cut_at, decimal, digits_value, is_digit,
    lemma_cut_at_first, lemma_decimal_reads_back, lossy_text, maybe, read_digits, slice_of,
    string_of, trim, trim_chars, utf8_lossy,
};

verus! {

/// Branch and dirtiness for the status bar.
#[derive(Clone, PartialEq, Debug)]
pub struct GitStatus {
    pub branch: Option<String>,
    pub dirty: bool,
    pub ahead: u32,
    pub behind: u32,
}

/// A repository's state, as texts and numbers.
pub ghost struct BranchState {
    pub branch: Option<Seq<char>>,
    pub dirty: bool,
    pub ahead: int,
    pub behind: int,
}

impl View for GitStatus {
    type V = BranchState;

    open spec fn view(&self) -> BranchState {
        BranchState {
            branch: maybe(self.branch),
            dirty: self.dirty,
            ahead: self.ahead as int,
            behind: self.behind as int,
        }
    }
}

/// No repository.
pub open spec fn no_branch() -> BranchState {
    BranchState { branch: None, dirty: false, ahead: 0, behind: 0 }
}

impl Default for GitStatus {
    fn default() -> (r: Self)
        ensures
            r@ == no_branch(),
    {
        GitStatus { branch: None, dirty: false, ahead: 0, behind: 0 }
    }
}

/// Whether invoking `git` is safe. On a Mac without the Command Line Tools,
/// /usr/bin/git is a shim that pops Apple's "Install Developer Tools?" GUI,
/// which a status poll must never trigger.
///
/// `found` is what `command -v git` printed, where it succeeded; `tools` is
/// whether `xcode-select -p` succeeds.
pub fn git_usable(found: Option<&str>, macos: bool, tools: bool) -> (r: bool)
    ensures
        r == (found is Some && (macos && trim((found->0)@) == "/usr/bin/git"@ ==> tools)),
{
    match found {
        None => false,
        Some(path) => {
            let path = string_of(&trim_chars(&chars_of(path)));
            if macos && crate::text::same(path.as_str(), "/usr/bin/git") {
                tools
            } else {
                true
            }
        },
    }
}

/// What a run of `git` says: its output, trimmed, where it succeeded.
pub fn git_text(success: bool, stdout: &[u8]) -> (r: Option<String>)
    ensures
        maybe(r) == (if success {
            Some(trim(lossy_text(stdout@)))
        } else {
            None
        }),
{
    if success {
        let text = utf8_lossy(stdout);
        Some(string_of(&trim_chars(&chars_of(text.as_str()))))
    } else {
        None
    }
}

/// The value of an unsigned 32-bit number, with an optional plus sign.
pub open spec fn count_value(s: Seq<char>) -> Option<int> {
    let digits = if s.len() > 0 && s[0] == '+' {
        s.skip(1)
    } else {
        s
    };
    if all_digits(digits) && digits_value(digits) <= u32::MAX {
        Some(digits_value(digits))
    } else {
        None
    }
}

fn read_count(s: &[char]) -> (r: Option<u32>)
    ensures
        match r {
            None => count_value(s@) is None,
            Some(n) => count_value(s@) == Some(n as int),
        },
{
    let from: usize = if s.len() > 0 && s[0] == '+' {
        1
    } else {
        0
    };
    let digits = slice_of(s, from, s.len());
    assert(digits@ =~= if from == 1 {
        s@.skip(1)
    } else {
        s@
    });
    match read_digits(&digits, 0xffff_ffff) {
        None => None,
        Some(n) => Some(n as u32),
    }
}

/// The commits that `git rev-list --left-right --count` prints: ahead, a
/// tab, behind.
pub open spec fn ahead_behind(text: Option<Seq<char>>) -> (int, int) {
    match text {
        None => (0, 0),
        Some(s) => match after_char(s, '\t') {
            None => (0, 0),
            Some(b) => match (count_value(before_char(s, '\t')), count_value(b)) {
                (Some(x), Some(y)) => (x, y),
                _ => (0, 0),
            },
        },
    }
}

/// The branch: the symbolic name of HEAD, else its commit.
pub open spec fn branch_of(name: Option<Seq<char>>, commit: Option<Seq<char>>) -> Option<Seq<char>> {
    let b = if name is Some {
        name
    } else {
        commit
    };
    if b is Some && (b->0).len() > 0 {
        b
    } else {
        None
    }
}

/// The state that the outputs of `git` describe.
pub open spec fn branch_state(
    name: Option<Seq<char>>,
    commit: Option<Seq<char>>,
    changes: Option<Seq<char>>,
    counts: Option<Seq<char>>,
) -> BranchState {
    match branch_of(name, commit) {
        None => no_branch(),
        Some(b) => BranchState {
            branch: Some(b),
            dirty: changes is Some && (changes->0).len() > 0,
            ahead: ahead_behind(counts).0,
            behind: ahead_behind(counts).1,
        },
    }
}

/// The state of a repository, from what these print, where they succeed:
/// `symbolic-ref --short HEAD`, `rev-parse --short HEAD`,
/// `status --porcelain --untracked-files=no`, and
/// `rev-list --left-right --count HEAD...@{upstream}`.
pub fn read_git_status(
    name: Option<String>,
    commit: Option<String>,
    changes: Option<String>,
    counts: Option<String>,
) -> (r: GitStatus)
    ensures
        r@ == branch_state(maybe(name), maybe(commit), maybe(changes), maybe(counts)),
{
    let branch = match name {
        Some(b) => b,
        None => match commit {
            Some(b) => b,
            None => {
                return GitStatus::default();
            },
        },
    };
    if chars_of(branch.as_str()).len() == 0 {
        return GitStatus::default();
    }
    let dirty = match changes {
        None => false,
        Some(c) => chars_of(c.as_str()).len() > 0,
    };
    let mut ahead: u32 = 0;
    let mut behind: u32 = 0;
    if let Some(text) = counts {
        let (left, right) = cut_at(&chars_of(text.as_str()), '\t');
        if let Some(right) = right {
            if let Some(a) = read_count(&left) {
                if let Some(b) = read_count(&right) {
                    ahead = a;
                    behind = b;
                }
            }
        }
    }
    GitStatus { branch: Some(branch), dirty, ahead, behind }
}

/// The repository root, from what `rev-parse --show-toplevel` prints, or
/// `None` outside a repo.
pub fn toplevel(text: Option<String>) -> (r: Option<String>)
    ensures
        maybe(r) == branch_of(maybe(text), None),
{
    match text {
        None => None,
        Some(root) => if chars_of(root.as_str()).len() > 0 {
            Some(root)
        } else {
            None
        },
    }
}

/// Per-file state for tree decorations, in rollup priority order: a
/// directory takes the most urgent state found beneath it.
#[derive(Debug, Clone, Copy, PartialEq, Eq, PartialOrd, Ord, Hash, Structural)]
pub enum GitFileStatus {
    Untracked,
    Added,
    Renamed,
    Modified,
    Deleted,
    Conflicted,
}

/// How urgent a state is.
pub open spec fn urgency(s: GitFileStatus) -> int {
    match s {
        GitFileStatus::Untracked => 0,
        GitFileStatus::Added => 1,
        GitFileStatus::Renamed => 2,
        GitFileStatus::Modified => 3,
        GitFileStatus::Deleted => 4,
        GitFileStatus::Conflicted => 5,
    }
}

fn rank(s: GitFileStatus) -> (r: u8)
    ensures
        r == urgency(s),
{
    match s {
        GitFileStatus::Untracked => 0,
        GitFileStatus::Added => 1,
        GitFileStatus::Renamed => 2,
        GitFileStatus::Modified => 3,
        GitFileStatus::Deleted => 4,
        GitFileStatus::Conflicted => 5,
    }
}

/// More changed files than the decorations can usefully show. A monorepo
/// with tens of thousands of dirty paths gets no colours, not a hang.
pub const MAX_STATUS_ENTRIES: usize = 20_000;

/// Why there are no states.
#[derive(Debug, Clone, Copy, PartialEq, Eq, Structural)]
pub enum StatusError {
    NotARepo,
    TooLarge,
}

/// The names in a path and whether it is absolute: empty names and dots
/// after the start say nothing.
pub open spec fn slash_at(p: Seq<u8>) -> nat
    decreases p.len(),
{
    if p.len() == 0 || p[0] == 0x2f {
        0
    } else {
        1 + slash_at(p.skip(1))
    }
}

proof fn lemma_slash_at(p: Seq<u8>)
    ensures
        slash_at(p) <= p.len(),
    decreases p.len(),
{
    if p.len() > 0 && p[0] != 0x2f {
        lemma_slash_at(p.skip(1));
    }
}

/// Whether a name says something where it stands.
pub open spec fn counts_as_name(name: Seq<u8>, first: bool) -> bool {
    name.len() > 0 && (first || name != seq![0x2eu8])
}

/// `out` with the names of `p` put after it. `first` is whether `p` is the
/// start of a path.
pub open spec fn with_names(out: Seq<u8>, p: Seq<u8>, first: bool) -> Seq<u8>
    decreases p.len(),
{
    let n = slash_at(p) as int;
    if n > p.len() {
        out
    } else {
        let name = p.take(n);
        let next = if counts_as_name(name, first) {
            (if out.len() == 0 || out.last() == 0x2f {
                out
            } else {
                out.push(0x2f)
            }) + name
        } else {
            out
        };
        if n >= p.len() {
            next
        } else {
            with_names(next, p.skip(n + 1), false)
        }
    }
}

/// The plain spelling of a path: one slash between names, none at the end,
/// no dots that mean the directory itself. Two paths are the same path where
/// their plain spellings are the same.
pub open spec fn plain(p: Seq<u8>) -> Seq<u8> {
    if p.len() > 0 && p[0] == 0x2f {
        with_names(seq![0x2fu8], p, false)
    } else {
        with_names(Seq::empty(), p, true)
    }
}

/// Where `rest` lies as seen from `base`.
pub open spec fn joined(base: Seq<u8>, rest: Seq<u8>) -> Seq<u8> {
    if rest.len() > 0 && rest[0] == 0x2f {
        rest
    } else if base.len() > 0 && base.last() != 0x2f {
        base.push(0x2f) + rest
    } else {
        base + rest
    }
}

/// A path in its plain spelling.
pub fn plain_path(p: &[u8]) -> (r: Vec<u8>)
    ensures
        r@ == plain(p@),
{
    let mut out: Vec<u8> = Vec::new();
    let mut first = true;
    if p.len() > 0 && p[0] == 0x2f {
        out.push(0x2f);
        first = false;
    }
    assert(p.len() > 0 && p@[0] == 0x2f ==> out@ =~= seq![0x2fu8]);
    assert(!(p.len() > 0 && p@[0] == 0x2f) ==> out@ =~= Seq::empty());
    let mut i: usize = 0;
    assert(p@.skip(0) =~= p@);
    loop
        invariant
            i <= p.len(),
            plain(p@) == with_names(out@, p@.skip(i as int), first),
        decreases p.len() - i,
    {
        let ghost rest = p@.skip(i as int);
        let ghost before = out@;
        let mut end: usize = i;
        while end < p.len() && p[end] != 0x2f
            invariant
                i <= end <= p.len(),
                i + slash_at(p@.skip(i as int)) == end + slash_at(p@.skip(end as int)),
            decreases p.len() - end,
        {
            assert(p@.skip(end as int)[0] == p@[end as int]);
            assert(p@.skip(end as int).skip(1) =~= p@.skip(end + 1));
            end += 1;
        }
        proof {
            if end < p.len() {
                assert(p@.skip(end as int)[0] == p@[end as int]);
            }
            assert(slash_at(rest) == end - i);
        }
        let name = bytes_of(p, i, end);
        assert(name@ =~= rest.take(end - i));
        let dot = name.len() == 1 && name[0] == 0x2e;
        assert(dot == (name@ =~= seq![0x2eu8]));
        if name.len() > 0 && (first || !dot) {
            if out.len() > 0 && out[out.len() - 1] != 0x2f {
                out.push(0x2f);
            }
            let ghost lead = out@;
            let mut name = name;
            out.append(&mut name);
        }
        if end >= p.len() {
            return out;
        }
        assert(rest.skip(end - i + 1) =~= p@.skip(end + 1));
        i = end + 1;
        first = false;
    }
}

fn join(base: &[u8], rest: &[u8]) -> (r: Vec<u8>)
    ensures
        r@ == joined(base@, rest@),
{
    if rest.len() > 0 && rest[0] == 0x2f {
        let r = bytes_of(rest, 0, rest.len());
        assert(r@ =~= rest@);
        return r;
    }
    let mut r = bytes_of(base, 0, base.len());
    if base.len() > 0 && base[base.len() - 1] != 0x2f {
        r.push(0x2f);
    }
    let mut tail = bytes_of(rest, 0, rest.len());
    r.append(&mut tail);
    assert(r@ =~= joined(base@, rest@));
    r
}

/// Whether `a` comes before `b` in the order of their bytes.
pub open spec fn comes_before(a: Seq<u8>, b: Seq<u8>) -> bool
    decreases a.len(),
{
    if b.len() == 0 {
        false
    } else if a.len() == 0 {
        true
    } else if a[0] == b[0] {
        comes_before(a.skip(1), b.skip(1))
    } else {
        a[0] < b[0]
    }
}

proof fn lemma_order_total(a: Seq<u8>, b: Seq<u8>)
    ensures
        a == b ==> !comes_before(a, b),
        a != b ==> (comes_before(a, b) <==> !comes_before(b, a)),
    decreases a.len(),
{
    if a.len() > 0 && b.len() > 0 && a[0] == b[0] {
        lemma_order_total(a.skip(1), b.skip(1));
        assert(a =~= seq![a[0]] + a.skip(1));
        assert(b =~= seq![b[0]] + b.skip(1));
    } else if a.len() == 0 && b.len() == 0 {
        assert(a =~= b);
    }
}

proof fn lemma_order_chain(a: Seq<u8>, b: Seq<u8>, c: Seq<u8>)
    requires
        comes_before(a, b),
        comes_before(b, c),
    ensures
        comes_before(a, c),
    decreases a.len(),
{
    if a.len() > 0 && a[0] == b[0] && b[0] == c[0] {
        lemma_order_chain(a.skip(1), b.skip(1), c.skip(1));
    }
}

fn is_before(a: &[u8], b: &[u8]) -> (r: bool)
    ensures
        r == comes_before(a@, b@),
{
    let mut i: usize = 0;
    assert(a@.skip(0) =~= a@);
    assert(b@.skip(0) =~= b@);
    while i < a.len() && i < b.len()
        invariant
            i <= a.len(),
            i <= b.len(),
            comes_before(a@, b@) == comes_before(a@.skip(i as int), b@.skip(i as int)),
        decreases a.len() - i,
    {
        assert(a@.skip(i as int)[0] == a@[i as int]);
        assert(b@.skip(i as int)[0] == b@[i as int]);
        assert(a@.skip(i as int).skip(1) =~= a@.skip(i + 1));
        assert(b@.skip(i as int).skip(1) =~= b@.skip(i + 1));
        if a[i] != b[i] {
            return a[i] < b[i];
        }
        i += 1;
    }
    i < b.len()
}

fn same_bytes(a: &[u8], b: &[u8]) -> (r: bool)
    ensures
        r == (a@ == b@),
{
    if a.len() != b.len() {
        return false;
    }
    let mut i: usize = 0;
    while i < a.len()
        invariant
            i <= a.len(),
            a.len() == b.len(),
            forall|k: int| 0 <= k < i ==> a@[k] == b@[k],
        decreases a.len() - i,
    {
        if a[i] != b[i] {
            return false;
        }
        i += 1;
    }
    assert(a@ =~= b@);
    true
}

/// A path in its plain spelling, and its state.
#[derive(Debug, Clone)]
pub struct FileState {
    pub path: Vec<u8>,
    pub status: GitFileStatus,
}

/// The states of paths, in the order of the paths. No path occurs twice.
#[derive(Debug, Clone)]
pub struct StatusMap {
    pub entries: Vec<FileState>,
}

impl View for StatusMap {
    type V = Map<Seq<u8>, GitFileStatus>;

    open spec fn view(&self) -> Map<Seq<u8>, GitFileStatus> {
        contents(self.entries@)
    }
}

/// Whether `entries` hold a path at `i`.
pub open spec fn holds(entries: Seq<FileState>, path: Seq<u8>, i: int) -> bool {
    0 <= i < entries.len() && entries[i].path@ == path
}

/// The states that some entries hold.
pub open spec fn contents(entries: Seq<FileState>) -> Map<Seq<u8>, GitFileStatus> {
    Map::new(
        |p: Seq<u8>| exists|i: int| holds(entries, p, i),
        |p: Seq<u8>| entries[choose|i: int| holds(entries, p, i)].status,
    )
}

/// Whether paths come in order.
pub open spec fn ordered(entries: Seq<FileState>) -> bool {
    forall|i: int, j: int|
        0 <= i < j < entries.len() ==> comes_before(
            #[trigger] entries[i].path@,
            #[trigger] entries[j].path@,
        )
}

proof fn lemma_entry(entries: Seq<FileState>, i: int)
    requires
        ordered(entries),
        0 <= i < entries.len(),
    ensures
        contents(entries).dom().contains(entries[i].path@),
        contents(entries)[entries[i].path@] == entries[i].status,
{
    let p = entries[i].path@;
    assert(holds(entries, p, i));
    let j = choose|j: int| holds(entries, p, j);
    lemma_order_total(p, p);
    if i < j {
        assert(comes_before(entries[i].path@, entries[j].path@));
    } else if j < i {
        assert(comes_before(entries[j].path@, entries[i].path@));
    }
}

proof fn lemma_count(entries: Seq<FileState>)
    requires
        ordered(entries),
    ensures
        contents(entries).dom().finite(),
        contents(entries).dom().len() == entries.len(),
{
    let keys = entries.map_values(|e: FileState| e.path@);
    assert(keys.no_duplicates()) by {
        assert forall|i: int, j: int| 0 <= i < keys.len() && 0 <= j < keys.len() && i != j implies
            keys[i] != keys[j] by {
            lemma_order_total(keys[i], keys[j]);
            assert(keys[i] == entries[i].path@ && keys[j] == entries[j].path@);
        }
    }
    keys.unique_seq_to_set();
    assert forall|p: Seq<u8>| contents(entries).dom().contains(p) == keys.to_set().contains(p) by {
        if contents(entries).dom().contains(p) {
            let i = choose|i: int| holds(entries, p, i);
            assert(keys[i] == p);
        }
        if keys.to_set().contains(p) {
            let i = choose|i: int| 0 <= i < keys.len() && keys[i] == p;
            assert(holds(entries, p, i));
        }
    }
    assert(contents(entries).dom() =~= keys.to_set());
}

/// Entries with one changed in place.
proof fn lemma_replace(entries: Seq<FileState>, i: int, e: FileState)
    requires
        ordered(entries),
        0 <= i < entries.len(),
        e.path@ == entries[i].path@,
    ensures
        ordered(entries.update(i, e)),
        contents(entries.update(i, e)) == contents(entries).insert(e.path@, e.status),
{
    let after = entries.update(i, e);
    assert forall|a: int, b: int| 0 <= a < b < after.len() implies comes_before(
        #[trigger] after[a].path@,
        #[trigger] after[b].path@,
    ) by {
        assert(comes_before(entries[a].path@, entries[b].path@));
    }
    lemma_same_contents(entries, after, e, i);
}

/// Entries with one more put in its place.
proof fn lemma_insert(entries: Seq<FileState>, i: int, e: FileState)
    requires
        ordered(entries),
        0 <= i <= entries.len(),
        i > 0 ==> comes_before(entries[i - 1].path@, e.path@),
        i < entries.len() ==> comes_before(e.path@, entries[i].path@),
    ensures
        ordered(entries.insert(i, e)),
        contents(entries.insert(i, e)) == contents(entries).insert(e.path@, e.status),
{
    let after = entries.insert(i, e);
    assert forall|a: int, b: int| 0 <= a < b < after.len() implies comes_before(
        #[trigger] after[a].path@,
        #[trigger] after[b].path@,
    ) by {
        if b < i {
            assert(comes_before(entries[a].path@, entries[b].path@));
        } else if b == i {
            if a < i - 1 {
                assert(comes_before(entries[a].path@, entries[i - 1].path@));
                lemma_order_chain(entries[a].path@, entries[i - 1].path@, e.path@);
            }
        } else if a < i {
            assert(comes_before(entries[a].path@, entries[b - 1].path@));
        } else if a == i {
            if b - 1 > i {
                assert(comes_before(entries[i].path@, entries[b - 1].path@));
                lemma_order_chain(e.path@, entries[i].path@, entries[b - 1].path@);
            }
        } else {
            assert(comes_before(entries[a - 1].path@, entries[b - 1].path@));
        }
    }
    lemma_same_contents(entries, after, e, i);
}

proof fn lemma_same_contents(
    entries: Seq<FileState>,
    after: Seq<FileState>,
    e: FileState,
    i: int,
)
    requires
        ordered(entries),
        ordered(after),
        0 <= i <= entries.len(),
        after == entries.insert(i, e) || (i < entries.len() && after == entries.update(i, e)
            && entries[i].path@ == e.path@),
    ensures
        contents(after) == contents(entries).insert(e.path@, e.status),
{
    let want = contents(entries).insert(e.path@, e.status);
    let shift = if after == entries.insert(i, e) {
        1int
    } else {
        0int
    };
    assert(after[i] == e);
    lemma_entry(after, i);
    assert forall|p: Seq<u8>| contents(after).dom().contains(p) == want.dom().contains(p) by {
        if contents(after).dom().contains(p) {
            let k = choose|k: int| holds(after, p, k);
            if k != i {
                let o = if k < i {
                    k
                } else {
                    k - shift
                };
                assert(holds(entries, p, o));
            }
        }
        if contents(entries).dom().contains(p) && p != e.path@ {
            let o = choose|o: int| holds(entries, p, o);
            let k = if o < i {
                o
            } else {
                o + shift
            };
            assert(holds(after, p, k));
        }
    }
    assert forall|p: Seq<u8>| #[trigger] want.dom().contains(p) implies contents(after)[p]
        == want[p] by {
        if p != e.path@ {
            let o = choose|o: int| holds(entries, p, o);
            let k = if o < i {
                o
            } else {
                o + shift
            };
            lemma_entry(entries, o);
            assert(after[k] == entries[o]);
            lemma_entry(after, k);
        }
    }
    assert(contents(after).dom() =~= want.dom());
    assert(contents(after) =~= want);
}

impl StatusMap {
    /// The entries are in the order of their paths, none of which occurs
    /// twice.
    pub open spec fn wf(&self) -> bool {
        ordered(self.entries@)
    }

    /// No states.
    pub fn new() -> (r: Self)
        ensures
            r.wf(),
            r.entries@.len() == 0,
            r@ == Map::<Seq<u8>, GitFileStatus>::empty(),
    {
        let r = StatusMap { entries: Vec::new() };
        assert forall|p: Seq<u8>| !r@.dom().contains(p) by {
            if r@.dom().contains(p) {
                let i = choose|i: int| holds(r.entries@, p, i);
            }
        }
        assert(r@ =~= Map::<Seq<u8>, GitFileStatus>::empty());
        r
    }

    /// How many paths have a state.
    pub fn len(&self) -> (n: usize)
        requires
            self.wf(),
        ensures
            self@.dom().finite(),
            n == self@.dom().len(),
    {
        proof {
            lemma_count(self.entries@);
        }
        self.entries.len()
    }

    /// The first entry that does not come before `path`.
    fn place(&self, path: &[u8]) -> (at: usize)
        requires
            self.wf(),
        ensures
            at <= self.entries@.len(),
            forall|i: int| 0 <= i < at ==> comes_before(#[trigger] self.entries@[i].path@, path@),
            forall|i: int|
                at <= i < self.entries@.len() ==> !comes_before(
                    #[trigger] self.entries@[i].path@,
                    path@,
                ),
    {
        let mut low: usize = 0;
        let mut high: usize = self.entries.len();
        while low < high
            invariant
                self.wf(),
                low <= high <= self.entries@.len(),
                forall|i: int|
                    0 <= i < low ==> comes_before(#[trigger] self.entries@[i].path@, path@),
                forall|i: int|
                    high <= i < self.entries@.len() ==> !comes_before(
                        #[trigger] self.entries@[i].path@,
                        path@,
                    ),
            decreases high - low,
        {
            let mid: usize = low + (high - low) / 2;
            if is_before(self.entries[mid].path.as_slice(), path) {
                proof {
                    assert forall|i: int| 0 <= i <= mid implies comes_before(
                        #[trigger] self.entries@[i].path@,
                        path@,
                    ) by {
                        if i < mid {
                            lemma_order_chain(
                                self.entries@[i].path@,
                                self.entries@[mid as int].path@,
                                path@,
                            );
                        }
                    }
                }
                low = mid + 1;
            } else {
                proof {
                    assert forall|i: int| mid <= i < self.entries@.len() implies !comes_before(
                        #[trigger] self.entries@[i].path@,
                        path@,
                    ) by {
                        if i > mid && comes_before(self.entries@[i].path@, path@) {
                            lemma_order_chain(
                                self.entries@[mid as int].path@,
                                self.entries@[i].path@,
                                path@,
                            );
                        }
                    }
                }
                high = mid;
            }
        }
        low
    }

    /// The state of a path in its plain spelling.
    fn find(&self, path: &[u8]) -> (r: Option<GitFileStatus>)
        requires
            self.wf(),
        ensures
            r is Some <==> self@.dom().contains(path@),
            r matches Some(s) ==> s == self@[path@],
    {
        let at = self.place(path);
        if at < self.entries.len() && same_bytes(self.entries[at].path.as_slice(), path) {
            proof {
                lemma_entry(self.entries@, at as int);
            }
            return Some(self.entries[at].status);
        }
        proof {
            if self@.dom().contains(path@) {
                let i = choose|i: int| holds(self.entries@, path@, i);
                lemma_order_total(path@, path@);
                assert(self.entries@[i].path@ == path@);
                if i > at {
                    assert(comes_before(self.entries@[at as int].path@, self.entries@[i].path@));
                }
            }
        }
        None
    }

    /// The state of a path, however it is spelt.
    pub fn get(&self, path: &[u8]) -> (r: Option<GitFileStatus>)
        requires
            self.wf(),
        ensures
            r is Some <==> self@.dom().contains(plain(path@)),
            r matches Some(s) ==> s == self@[plain(path@)],
    {
        self.find(plain_path(path).as_slice())
    }

    /// Sets the state of a path in its plain spelling.
    fn put(&mut self, path: Vec<u8>, status: GitFileStatus)
        requires
            old(self).wf(),
        ensures
            final(self).wf(),
            final(self)@ == old(self)@.insert(path@, status),
    {
        let at = self.place(path.as_slice());
        let e = FileState { path, status };
        let ghost before = self.entries@;
        if at < self.entries.len() && same_bytes(
            self.entries[at].path.as_slice(),
            e.path.as_slice(),
        ) {
            proof {
                lemma_replace(before, at as int, e);
            }
            self.entries.set(at, e);
        } else {
            proof {
                if at < before.len() {
                    lemma_order_total(before[at as int].path@, e.path@);
                }
                lemma_insert(before, at as int, e);
            }
            self.entries.insert(at, e);
        }
    }
}

/// Whether one of the letters of a status line says that the path was renamed
/// or copied, in the index or in the work tree.
pub open spec fn moved(x: u8, y: u8) -> bool {
    x == 0x52 || x == 0x43 || y == 0x52 || y == 0x43
}

/// The state that the two letters of a status line stand for. The letter of
/// the index comes first; a rename, copy or addition that only the work tree
/// shows counts where nothing else does.
pub open spec fn classified(x: u8, y: u8) -> Option<GitFileStatus> {
    if x == 0x3f && y == 0x3f {
        Some(GitFileStatus::Untracked)
    } else if x == 0x21 && y == 0x21 {
        None
    } else if x == 0x55 || y == 0x55 || (x == 0x41 && y == 0x41) || (x == 0x44 && y == 0x44) {
        Some(GitFileStatus::Conflicted)
    } else if x == 0x44 || y == 0x44 {
        Some(GitFileStatus::Deleted)
    } else if x == 0x52 || x == 0x43 {
        Some(GitFileStatus::Renamed)
    } else if x == 0x41 {
        Some(GitFileStatus::Added)
    } else if x == 0x4d || y == 0x4d || x == 0x54 || y == 0x54 {
        Some(GitFileStatus::Modified)
    } else if y == 0x52 || y == 0x43 {
        Some(GitFileStatus::Renamed)
    } else if y == 0x41 {
        Some(GitFileStatus::Added)
    } else {
        None
    }
}

/// Whether a letter is one of those by which git marks a change: modified,
/// type changed, added, deleted, renamed, copied, unmerged.
pub open spec fn change_letter(c: u8) -> bool {
    c == 0x4d || c == 0x54 || c == 0x41 || c == 0x44 || c == 0x52 || c == 0x43 || c == 0x55
}

/// Every changed or untracked path has a state, and an ignored one has none.
pub proof fn lemma_changed_has_state(x: u8, y: u8)
    ensures
        change_letter(x) || change_letter(y) ==> classified(x, y) is Some,
        x == 0x3f && y == 0x3f ==> classified(x, y) == Some(GitFileStatus::Untracked),
        x == 0x21 && y == 0x21 ==> classified(x, y) is None,
{
}

fn classify(x: u8, y: u8) -> (r: Option<GitFileStatus>)
    ensures
        r == classified(x, y),
{
    match (x as char, y as char) {
        ('?', '?') => Some(GitFileStatus::Untracked),
        ('!', '!') => None,
        ('U', _) | (_, 'U') | ('A', 'A') | ('D', 'D') => Some(GitFileStatus::Conflicted),
        ('D', _) | (_, 'D') => Some(GitFileStatus::Deleted),
        ('R', _) | ('C', _) => Some(GitFileStatus::Renamed),
        ('A', _) => Some(GitFileStatus::Added),
        ('M', _) | (_, 'M') | ('T', _) | (_, 'T') => Some(GitFileStatus::Modified),
        (_, 'R') | (_, 'C') => Some(GitFileStatus::Renamed),
        (_, 'A') => Some(GitFileStatus::Added),
        _ => None,
    }
}

/// The pieces between zero bytes that are not empty.
pub open spec fn records(bytes: Seq<u8>) -> Seq<Seq<u8>>
    decreases bytes.len(),
{
    let n = zero_at(bytes) as int;
    if bytes.len() == 0 || n > bytes.len() {
        Seq::empty()
    } else {
        let rest = if n < bytes.len() {
            records(bytes.skip(n + 1))
        } else {
            Seq::empty()
        };
        if n == 0 {
            rest
        } else {
            seq![bytes.take(n)] + rest
        }
    }
}

/// The bytes of each piece.
pub open spec fn pieces(v: Seq<Vec<u8>>) -> Seq<Seq<u8>> {
    v.map_values(|r: Vec<u8>| r@)
}

fn split_records(bytes: &[u8]) -> (r: Vec<Vec<u8>>)
    ensures
        pieces(r@) == records(bytes@),
{
    let mut out: Vec<Vec<u8>> = Vec::new();
    let mut i: usize = 0;
    assert(bytes@.skip(0) =~= bytes@);
    assert(pieces(out@) + records(bytes@) =~= records(bytes@));
    while i < bytes.len()
        invariant
            i <= bytes.len(),
            records(bytes@) == pieces(out@) + records(bytes@.skip(i as int)),
        decreases bytes.len() - i,
    {
        let ghost rest = bytes@.skip(i as int);
        let ghost before = out@;
        let mut end: usize = i;
        while end < bytes.len() && bytes[end] != 0
            invariant
                i <= end <= bytes.len(),
                i + zero_at(bytes@.skip(i as int)) == end + zero_at(bytes@.skip(end as int)),
            decreases bytes.len() - end,
        {
            assert(bytes@.skip(end as int)[0] == bytes@[end as int]);
            assert(bytes@.skip(end as int).skip(1) =~= bytes@.skip(end + 1));
            end += 1;
        }
        proof {
            if end < bytes.len() {
                assert(bytes@.skip(end as int)[0] == bytes@[end as int]);
            }
            assert(zero_at(rest) == end - i);
        }
        let ghost next = if end < bytes.len() {
            records(bytes@.skip(end + 1))
        } else {
            Seq::empty()
        };
        proof {
            if end < bytes.len() {
                assert(rest.skip(end - i + 1) =~= bytes@.skip(end + 1));
            }
        }
        if end > i {
            let piece = bytes_of(bytes, i, end);
            assert(piece@ =~= rest.take(end - i));
            out.push(piece);
            assert(pieces(out@) =~= pieces(before).push(piece@));
            assert(pieces(before) + (seq![piece@] + next) =~= pieces(out@) + next);
        }
        assert(records(bytes@) == pieces(out@) + next);
        if end == bytes.len() {
            i = end;
            assert(bytes@.skip(i as int) =~= Seq::empty());
        } else {
            i = end + 1;
        }
    }
    assert(bytes@.skip(i as int) =~= Seq::empty());
    assert(pieces(out@) + Seq::<Seq<u8>>::empty() =~= pieces(out@));
    out
}

/// What the records say, added to the states read so far.
pub open spec fn states(
    list: Seq<Seq<u8>>,
    root: Seq<u8>,
    so_far: Map<Seq<u8>, GitFileStatus>,
) -> Result<Map<Seq<u8>, GitFileStatus>, StatusError>
    decreases list.len(),
{
    if list.len() == 0 {
        Ok(so_far)
    } else {
        let r = list[0];
        if r.len() < 4 {
            states(list.skip(1), root, so_far)
        } else {
            // The original path of a rename or copy follows as its own
            // record; it no longer exists at that name.
            let rest = if moved(r[0], r[1]) && list.len() > 1 {
                list.skip(2)
            } else {
                list.skip(1)
            };
            match classified(r[0], r[1]) {
                None => states(rest, root, so_far),
                Some(s) => {
                    let next = so_far.insert(plain(joined(root, r.skip(3))), s);
                    if next.dom().len() > MAX_STATUS_ENTRIES {
                        Err(StatusError::TooLarge)
                    } else {
                        states(rest, root, next)
                    }
                },
            }
        }
    }
}

/// Parse `git status --porcelain=v1 -z`. Records are `XY path\0`, with a
/// second `orig\0` record following renames and copies. NUL separation is
/// what makes filenames with spaces and newlines safe.
pub fn parse_porcelain_z(bytes: &[u8], root: &[u8]) -> (r: Result<StatusMap, StatusError>)
    ensures
        match (r, states(records(bytes@), root@, Map::empty())) {
            (Ok(m), Ok(s)) => m.wf() && m@ == s,
            (Err(a), Err(b)) => a == b,
            _ => false,
        },
{
    let list = split_records(bytes);
    let ghost all = pieces(list@);
    let mut map = StatusMap::new();
    let mut i: usize = 0;
    assert(all.skip(0) =~= all);
    while i < list.len()
        invariant
            i <= list.len(),
            all == pieces(list@),
            all == records(bytes@),
            map.wf(),
            states(all, root@, Map::empty()) == states(all.skip(i as int), root@, map@),
        decreases list.len() - i,
    {
        let ghost rest = all.skip(i as int);
        proof {
            assert(rest[0] == list@[i as int]@);
            assert(rest.skip(1) =~= all.skip(i + 1));
            if i + 1 < list.len() {
                assert(rest.skip(2) =~= all.skip(i + 2));
            }
        }
        let record = &list[i];
        if record.len() < 4 {
            i += 1;
        } else {
            let x = record[0];
            let y = record[1];
            let status = classify(x, y);
            let renamed = x == 0x52 || x == 0x43 || y == 0x52 || y == 0x43;
            let step: usize = if renamed && list.len() - i > 1 {
                2
            } else {
                1
            };
            if let Some(status) = status {
                let rel = bytes_of(record.as_slice(), 3, record.len());
                assert(rel@ =~= record@.skip(3));
                let path = plain_path(join(root, rel.as_slice()).as_slice());
                map.put(path, status);
                if map.len() > MAX_STATUS_ENTRIES {
                    return Err(StatusError::TooLarge);
                }
            }
            i += step;
        }
    }
    Ok(map)
}

/// The directory that a path in its plain spelling lies in.
pub open spec fn parent(p: Seq<u8>) -> Option<Seq<u8>> {
    if p.len() == 0 || p == seq![0x2fu8] {
        None
    } else {
        let n = head_len(p) as int;
        if n == 0 {
            Some(Seq::empty())
        } else if n == 1 {
            Some(seq![0x2fu8])
        } else {
            Some(p.take(n - 1))
        }
    }
}

/// How much of a path stands before its last name, the slash included.
pub open spec fn head_len(p: Seq<u8>) -> nat
    decreases p.len(),
{
    if p.len() == 0 || p.last() == 0x2f {
        p.len()
    } else {
        head_len(p.drop_last())
    }
}

/// Whether a path in its plain spelling lies at or below `root`.
pub open spec fn within(p: Seq<u8>, root: Seq<u8>) -> bool {
    &&& root.len() <= p.len()
    &&& p.take(root.len() as int) == root
    &&& p.len() == root.len() || root.len() == 0 || root.last() == 0x2f || p[root.len() as int]
        == 0x2f
}

/// The directories from `p` up to `root`, `root` itself left out.
pub open spec fn upward(p: Option<Seq<u8>>, root: Seq<u8>, fuel: nat) -> Seq<Seq<u8>>
    decreases fuel,
{
    match p {
        None => Seq::empty(),
        Some(d) => if fuel == 0 || !within(d, root) || d == root {
            Seq::empty()
        } else {
            seq![d] + upward(parent(d), root, (fuel - 1) as nat)
        },
    }
}

/// The directories above a file, up to `root`, `root` itself left out.
pub open spec fn dirs_above(p: Seq<u8>, root: Seq<u8>) -> Seq<Seq<u8>> {
    upward(parent(p), root, p.len())
}

proof fn lemma_head_len(p: Seq<u8>)
    ensures
        head_len(p) <= p.len(),
    decreases p.len(),
{
    if p.len() > 0 && p.last() != 0x2f {
        lemma_head_len(p.drop_last());
    }
}

fn parent_of(p: &[u8]) -> (r: Option<Vec<u8>>)
    ensures
        match r {
            None => parent(p@) is None,
            Some(d) => parent(p@) == Some(d@) && d@.len() < p@.len(),
        },
{
    if p.len() == 0 || (p.len() == 1 && p[0] == 0x2f) {
        proof {
            if p@.len() == 1 {
                assert(p@ =~= seq![0x2fu8]);
            }
        }
        return None;
    }
    assert(p@ != seq![0x2fu8]) by {
        if p@ == seq![0x2fu8] {
            assert(p@[0] == 0x2f);
        }
    }
    let mut n: usize = p.len();
    assert(p@.take(n as int) =~= p@);
    while n > 0 && p[n - 1] != 0x2f
        invariant
            n <= p.len(),
            head_len(p@) == head_len(p@.take(n as int)),
        decreases n,
    {
        assert(p@.take(n as int).last() == p@[n - 1]);
        assert(p@.take(n as int).drop_last() =~= p@.take(n - 1));
        n -= 1;
    }
    proof {
        if n > 0 {
            assert(p@.take(n as int).last() == p@[n - 1]);
        }
        assert(head_len(p@) == n);
    }
    if n == 0 {
        let r: Vec<u8> = Vec::new();
        assert(r@ =~= Seq::empty());
        Some(r)
    } else if n == 1 {
        let mut r: Vec<u8> = Vec::new();
        r.push(0x2f);
        assert(r@ =~= seq![0x2fu8]);
        Some(r)
    } else {
        let r = bytes_of(p, 0, n - 1);
        assert(r@ =~= p@.take(n - 1));
        Some(r)
    }
}

fn lies_within(p: &[u8], root: &[u8]) -> (r: bool)
    ensures
        r == within(p@, root@),
{
    if root.len() > p.len() {
        return false;
    }
    let head = bytes_of(p, 0, root.len());
    assert(head@ =~= p@.take(root@.len() as int));
    if !same_bytes(head.as_slice(), root) {
        return false;
    }
    let n = root.len();
    p.len() == n || n == 0 || root[n - 1] == 0x2f || p[n] == 0x2f
}

/// Whether `p` is one of the directories above some file of `files`.
pub open spec fn above_some(
    files: Map<Seq<u8>, GitFileStatus>,
    root: Seq<u8>,
    dir: Seq<u8>,
    file: Seq<u8>,
) -> bool {
    files.dom().contains(file) && dirs_above(file, root).contains(dir)
}

/// Whether `all` marks every directory above a file with the most urgent
/// state beneath it, and leaves the rest as in `files`.
pub open spec fn rolled_up(
    files: Map<Seq<u8>, GitFileStatus>,
    root: Seq<u8>,
    all: Map<Seq<u8>, GitFileStatus>,
) -> bool {
    &&& forall|p: Seq<u8>| #[trigger]
        files.dom().contains(p) ==> all.dom().contains(p) && urgency(files[p]) <= urgency(all[p])
    &&& forall|p: Seq<u8>, f: Seq<u8>| #[trigger]
        above_some(files, root, p, f) ==> all.dom().contains(p) && urgency(files[f]) <= urgency(
            all[p],
        )
    &&& forall|p: Seq<u8>| #[trigger]
        all.dom().contains(p) ==> (files.dom().contains(p) && all[p] == files[p]) || exists|
            f: Seq<u8>,
        |
            #[trigger] above_some(files, root, p, f) && all[p] == files[f]
}

/// Rolling up has one result.
pub proof fn lemma_rollup_unique(
    files: Map<Seq<u8>, GitFileStatus>,
    root: Seq<u8>,
    a: Map<Seq<u8>, GitFileStatus>,
    b: Map<Seq<u8>, GitFileStatus>,
)
    requires
        rolled_up(files, root, a),
        rolled_up(files, root, b),
    ensures
        a == b,
{
    assert forall|p: Seq<u8>| a.dom().contains(p) implies b.dom().contains(p) && urgency(a[p])
        <= urgency(b[p]) by {
        if !(files.dom().contains(p) && a[p] == files[p]) {
            let f = choose|f: Seq<u8>| #[trigger]
                above_some(files, root, p, f) && a[p] == files[f];
            assert(above_some(files, root, p, f));
        }
    }
    assert forall|p: Seq<u8>| b.dom().contains(p) implies a.dom().contains(p) && urgency(b[p])
        <= urgency(a[p]) by {
        if !(files.dom().contains(p) && b[p] == files[p]) {
            let f = choose|f: Seq<u8>| #[trigger]
                above_some(files, root, p, f) && b[p] == files[f];
            assert(above_some(files, root, p, f));
        }
    }
    assert(a.dom() =~= b.dom());
    assert forall|p: Seq<u8>| a.dom().contains(p) implies a[p] == b[p] by {
        assert(urgency(a[p]) == urgency(b[p]));
    }
    assert(a =~= b);
}

/// The root itself is never marked.
pub proof fn lemma_root_unmarked(p: Option<Seq<u8>>, root: Seq<u8>, fuel: nat)
    ensures
        !upward(p, root, fuel).contains(root),
    decreases fuel,
{
    let up = upward(p, root, fuel);
    if let Some(d) = p {
        if fuel > 0 && within(d, root) && d != root {
            lemma_root_unmarked(parent(d), root, (fuel - 1) as nat);
            let rest = upward(parent(d), root, (fuel - 1) as nat);
            if up.contains(root) {
                let i = choose|i: int| 0 <= i < up.len() && up[i] == root;
                assert(i > 0 && rest[i - 1] == root);
            }
        }
    }
}

/// Whether `all` is `files` with the states of the first `n` entries handed
/// up, and of entry `n` as far as its `done` first directories.
spec fn part_rolled(
    list: Seq<FileState>,
    root: Seq<u8>,
    all: Map<Seq<u8>, GitFileStatus>,
    n: int,
    done: int,
) -> bool {
    let files = contents(list);
    &&& forall|i: int|
        0 <= i < list.len() ==> all.dom().contains(#[trigger] list[i].path@) && urgency(
            list[i].status,
        ) <= urgency(all[list[i].path@])
    &&& forall|i: int, k: int|
        0 <= i < list.len() && 0 <= k < dirs_above(list[i].path@, root).len() && (i < n || (i == n
            && k < done)) ==> all.dom().contains(#[trigger] dirs_above(list[i].path@, root)[k])
            && urgency(list[i].status) <= urgency(all[dirs_above(list[i].path@, root)[k]])
    &&& forall|p: Seq<u8>| #[trigger]
        all.dom().contains(p) ==> (files.dom().contains(p) && all[p] == files[p]) || exists|
            f: Seq<u8>,
        |
            #[trigger] above_some(files, root, p, f) && all[p] == files[f]
}

proof fn lemma_hand_up(
    list: Seq<FileState>,
    root: Seq<u8>,
    all: Map<Seq<u8>, GitFileStatus>,
    next: Map<Seq<u8>, GitFileStatus>,
    n: int,
    done: int,
)
    requires
        ordered(list),
        0 <= n < list.len(),
        0 <= done < dirs_above(list[n].path@, root).len(),
        part_rolled(list, root, all, n, done),
        ({
            let d = dirs_above(list[n].path@, root)[done];
            let s = list[n].status;
            if all.dom().contains(d) && urgency(all[d]) >= urgency(s) {
                next == all
            } else {
                next == all.insert(d, s)
            }
        }),
    ensures
        part_rolled(list, root, next, n, done + 1),
{
    let files = contents(list);
    let d = dirs_above(list[n].path@, root)[done];
    let s = list[n].status;
    lemma_entry(list, n);
    assert(above_some(files, root, d, list[n].path@));
    assert forall|i: int, k: int|
        0 <= i < list.len() && 0 <= k < dirs_above(list[i].path@, root).len() && (i < n || (i == n
            && k < done + 1)) implies next.dom().contains(
        #[trigger] dirs_above(list[i].path@, root)[k],
    ) && urgency(list[i].status) <= urgency(next[dirs_above(list[i].path@, root)[k]]) by {
        if !(i == n && k == done) {
            assert(all.dom().contains(dirs_above(list[i].path@, root)[k]));
        }
    }
    assert forall|p: Seq<u8>| #[trigger] next.dom().contains(p) implies (files.dom().contains(p)
        && next[p] == files[p]) || exists|f: Seq<u8>| #[trigger]
        above_some(files, root, p, f) && next[p] == files[f] by {
        if p == d && next != all {
            assert(next[p] == files[list[n].path@]);
        } else {
            assert(all.dom().contains(p));
        }
    }
}

/// Mark every ancestor of a changed path (up to `root`) with the most urgent
/// state beneath it, so a collapsed directory still shows something changed.
pub fn rollup(map: StatusMap, root: &[u8]) -> (r: StatusMap)
    requires
        map.wf(),
    ensures
        r.wf(),
        rolled_up(map@, plain(root@), r@),
{
    let root = plain_path(root);
    let ghost top = root@;
    let ghost list = map.entries@;
    let mut all = StatusMap::new();
    let mut i: usize = 0;
    while i < map.entries.len()
        invariant
            i <= map.entries.len(),
            list == map.entries@,
            ordered(list),
            all.wf(),
            all.entries.len() == i,
            forall|k: int|
                0 <= k < i ==> (#[trigger] all.entries@[k]).path@ == list[k].path@
                    && all.entries@[k].status == list[k].status,
        decreases map.entries.len() - i,
    {
        let e = &map.entries[i];
        let path = bytes_of(e.path.as_slice(), 0, e.path.len());
        assert(path@ =~= e.path@);
        all.entries.push(FileState { path, status: e.status });
        assert forall|a: int, b: int| 0 <= a < b < all.entries@.len() implies comes_before(
            #[trigger] all.entries@[a].path@,
            #[trigger] all.entries@[b].path@,
        ) by {
            assert(comes_before(list[a].path@, list[b].path@));
        }
        i += 1;
    }
    proof {
        let files = contents(list);
        assert forall|k: int| 0 <= k < list.len() implies all@.dom().contains(
            #[trigger] list[k].path@,
        ) && urgency(list[k].status) <= urgency(all@[list[k].path@]) by {
            lemma_entry(all.entries@, k);
            assert(all.entries@[k].path@ == list[k].path@);
        }
        assert forall|p: Seq<u8>| #[trigger] all@.dom().contains(p) implies files.dom().contains(p)
            && all@[p] == files[p] by {
            let k = choose|k: int| holds(all.entries@, p, k);
            lemma_entry(all.entries@, k);
            lemma_entry(list, k);
        }
        assert(part_rolled(list, top, all@, 0, 0));
    }
    let mut n: usize = 0;
    while n < map.entries.len()
        invariant
            n <= map.entries.len(),
            list == map.entries@,
            ordered(list),
            all.wf(),
            top == root@,
            part_rolled(list, top, all@, n as int, 0),
        decreases map.entries.len() - n,
    {
        let status = map.entries[n].status;
        let ghost path = list[n as int].path@;
        let ghost dirs = dirs_above(path, top);
        let mut dir = parent_of(map.entries[n].path.as_slice());
        let ghost mut done: int = 0;
        let ghost mut fuel: nat = path.len();
        proof {
            assert(dirs.skip(0) =~= dirs);
        }
        loop
            invariant
                n < map.entries.len(),
                list == map.entries@,
                ordered(list),
                all.wf(),
                top == root@,
                path == list[n as int].path@,
                status == list[n as int].status,
                dirs == dirs_above(path, top),
                0 <= done <= dirs.len(),
                dir matches Some(d) ==> d@.len() < fuel,
                dirs.skip(done) == upward(
                    match dir {
                        None => None,
                        Some(d) => Some(d@),
                    },
                    top,
                    fuel,
                ),
                part_rolled(list, top, all@, n as int, done),
            ensures
                done == dirs.len(),
                all.wf(),
                part_rolled(list, top, all@, n as int, done),
            decreases fuel,
        {
            match dir {
                None => {
                    assert(dirs.skip(done).len() == 0);
                    break;
                },
                Some(d) => {
                    if !lies_within(d.as_slice(), root.as_slice()) || same_bytes(
                        d.as_slice(),
                        root.as_slice(),
                    ) {
                        assert(dirs.skip(done).len() == 0);
                        break;
                    }
                    if d.len() == 0 {
                        proof {
                            assert(within(d@, top));
                            assert(top =~= d@);
                        }
                        break;
                    }
                    let up = parent_of(d.as_slice());
                    let ghost before = all@;
                    proof {
                        let rest = upward(parent(d@), top, (fuel - 1) as nat);
                        assert(dirs.skip(done) == seq![d@] + rest);
                        assert(dirs.skip(done)[0] == dirs[done]);
                        assert(dirs.skip(done).skip(1) =~= dirs.skip(done + 1));
                        assert((seq![d@] + rest).skip(1) =~= rest);
                    }
                    let worse = match all.find(d.as_slice()) {
                        None => true,
                        Some(s) => rank(s) < rank(status),
                    };
                    if worse {
                        all.put(d, status);
                    }
                    proof {
                        lemma_hand_up(list, top, before, all@, n as int, done);
                        done = done + 1;
                        fuel = (fuel - 1) as nat;
                    }
                    dir = up;
                },
            }
        }
        proof {
            assert(part_rolled(list, top, all@, n + 1, 0)) by {
                assert forall|i: int, k: int|
                    0 <= i < list.len() && 0 <= k < dirs_above(list[i].path@, top).len() && (i < n
                        + 1 || (i == n + 1 && k < 0)) implies all@.dom().contains(
                    #[trigger] dirs_above(list[i].path@, top)[k],
                ) && urgency(list[i].status) <= urgency(
                    all@[dirs_above(list[i].path@, top)[k]],
                ) by {}
            }
        }
        n += 1;
    }
    proof {
        let files = map@;
        assert forall|p: Seq<u8>| #[trigger] files.dom().contains(p) implies all@.dom().contains(p)
            && urgency(files[p]) <= urgency(all@[p]) by {
            let k = choose|k: int| holds(list, p, k);
            lemma_entry(list, k);
        }
        assert forall|p: Seq<u8>, f: Seq<u8>| #[trigger] above_some(files, top, p, f) implies
            all@.dom().contains(p) && urgency(files[f]) <= urgency(all@[p]) by {
            let k = choose|k: int| holds(list, f, k);
            lemma_entry(list, k);
            let dirs = dirs_above(f, top);
            let j = choose|j: int| 0 <= j < dirs.len() && dirs[j] == p;
            assert(all@.dom().contains(dirs_above(list[k].path@, top)[j]));
        }
    }
    all
}

/// Every changed or untracked path under `root`, keyed by absolute path,
/// with directories rolled up from their contents. `output` is what
/// `git status --porcelain=v1 -z --untracked-files=all --ignored=no` printed
/// there, where it succeeded.
pub fn file_statuses(output: Option<&[u8]>, root: &[u8]) -> (r: Result<StatusMap, StatusError>)
    ensures
        match output {
            None => r == Err::<StatusMap, StatusError>(StatusError::NotARepo),
            Some(bytes) => match (r, states(records(bytes@), root@, Map::empty())) {
                (Ok(m), Ok(s)) => m.wf() && rolled_up(s, plain(root@), m@),
                (Err(a), Err(b)) => a == b,
                _ => false,
            },
        },
{
    match output {
        None => Err(StatusError::NotARepo),
        Some(bytes) => match parse_porcelain_z(bytes, root) {
            Err(e) => Err(e),
            Ok(files) => Ok(rollup(files, root)),
        },
    }
}

// --- What the states and counts mean ---

/// Git's two letters, the index's and the work tree's: `U` on either side, or
/// both sides adding or both deleting, is a conflict; otherwise a deletion
/// on either side counts first, then what the index says, then what the
/// work tree says.
pub proof fn lemma_letters(x: u8, y: u8)
    ensures
        x == 0x55 || y == 0x55 ==> classified(x, y) == Some(GitFileStatus::Conflicted),
        classified(0x41, 0x41) == Some(GitFileStatus::Conflicted),
        classified(0x44, 0x44) == Some(GitFileStatus::Conflicted),
        y != 0x55 && y != 0x44 ==> classified(0x44, y) == Some(GitFileStatus::Deleted),
        x != 0x55 && x != 0x44 ==> classified(x, 0x44) == Some(GitFileStatus::Deleted),
        y != 0x55 && y != 0x44 ==> classified(0x52, y) == Some(GitFileStatus::Renamed),
        y != 0x55 && y != 0x44 ==> classified(0x43, y) == Some(GitFileStatus::Renamed),
        y != 0x55 && y != 0x44 && y != 0x41 ==> classified(0x41, y) == Some(GitFileStatus::Added),
        y != 0x55 && y != 0x44 ==> classified(0x4d, y) == Some(GitFileStatus::Modified),
        y != 0x55 && y != 0x44 ==> classified(0x54, y) == Some(GitFileStatus::Modified),
        classified(0x20, 0x4d) == Some(GitFileStatus::Modified),
        classified(0x20, 0x54) == Some(GitFileStatus::Modified),
        classified(0x20, 0x52) == Some(GitFileStatus::Renamed),
        classified(0x20, 0x43) == Some(GitFileStatus::Renamed),
        classified(0x20, 0x41) == Some(GitFileStatus::Added),
        classified(0x20, 0x20) is None,
{
}

/// A directory shows the worst of what is below it: a conflict always shows,
/// a deletion where there is no conflict, then a modification, a rename and
/// an addition, and untracked files only where there is nothing else.
pub proof fn lemma_the_worst_shows(
    files: Map<Seq<u8>, GitFileStatus>,
    root: Seq<u8>,
    all: Map<Seq<u8>, GitFileStatus>,
    dir: Seq<u8>,
    file: Seq<u8>,
)
    requires
        rolled_up(files, root, all),
        above_some(files, root, dir, file),
    ensures
        all.dom().contains(dir),
        files[file] is Conflicted ==> all[dir] is Conflicted,
        files[file] is Deleted ==> all[dir] is Conflicted || all[dir] is Deleted,
        files[file] is Modified ==> all[dir] is Conflicted || all[dir] is Deleted
            || all[dir] is Modified,
        files[file] is Renamed ==> !(all[dir] is Added) && !(all[dir] is Untracked),
        files[file] is Added ==> !(all[dir] is Untracked),
        (forall|f: Seq<u8>| #[trigger]
            above_some(files, root, dir, f) ==> files[f] is Untracked)
            && !files.dom().contains(dir) ==> all[dir] is Untracked,
{
}

proof fn lemma_zero_ends(r: Seq<u8>, rest: Seq<u8>)
    requires
        forall|i: int| 0 <= i < r.len() ==> #[trigger] r[i] != 0,
    ensures
        zero_at(r + seq![0u8] + rest) == r.len(),
    decreases r.len(),
{
    let s = r + seq![0u8] + rest;
    if r.len() > 0 {
        assert(s[0] == r[0]);
        assert(s.skip(1) =~= r.skip(1) + seq![0u8] + rest);
        lemma_zero_ends(r.skip(1), rest);
    } else {
        assert(s[0] == 0);
    }
}

/// Records end at zero bytes, and empty ones are passed over.
pub proof fn lemma_records_end_at_zeros(r: Seq<u8>, rest: Seq<u8>)
    requires
        forall|i: int| 0 <= i < r.len() ==> #[trigger] r[i] != 0,
    ensures
        records(r + seq![0u8] + rest) == (if r.len() == 0 {
            records(rest)
        } else {
            seq![r] + records(rest)
        }),
{
    lemma_zero_ends(r, rest);
    let s = r + seq![0u8] + rest;
    assert(s.skip(r.len() as int + 1) =~= rest);
    assert(s.take(r.len() as int) =~= r);
    assert(rest.len() == 0 ==> records(rest) =~= Seq::empty());
}

/// A record is two letters, a space and a path below the work tree's root:
/// the file at that path gets the letters' state. Nothing else changes, and
/// reading goes on behind it.
pub proof fn lemma_a_record_sets_a_state(
    x: u8,
    y: u8,
    path: Seq<u8>,
    rest: Seq<Seq<u8>>,
    root: Seq<u8>,
    so_far: Map<Seq<u8>, GitFileStatus>,
)
    requires
        path.len() > 0,
        !moved(x, y),
        classified(x, y) is Some,
        so_far.insert(plain(joined(root, path)), classified(x, y)->0).dom().len()
            <= MAX_STATUS_ENTRIES,
    ensures
        states(seq![seq![x, y, 0x20u8] + path] + rest, root, so_far) == states(
            rest,
            root,
            so_far.insert(plain(joined(root, path)), classified(x, y)->0),
        ),
{
    let r = seq![x, y, 0x20u8] + path;
    let list = seq![r] + rest;
    assert(list[0] == r && r[0] == x && r[1] == y);
    assert(r.skip(3) =~= path);
    assert(list.skip(1) =~= rest);
}

/// A renamed or copied file is followed by its old path, which gets no state
/// of its own.
pub proof fn lemma_a_rename_drops_the_old_path(
    x: u8,
    y: u8,
    path: Seq<u8>,
    from: Seq<u8>,
    rest: Seq<Seq<u8>>,
    root: Seq<u8>,
    so_far: Map<Seq<u8>, GitFileStatus>,
)
    requires
        path.len() > 0,
        x == 0x52 || x == 0x43 || y == 0x52 || y == 0x43,
        classified(x, y) is Some,
        so_far.insert(plain(joined(root, path)), classified(x, y)->0).dom().len()
            <= MAX_STATUS_ENTRIES,
    ensures
        states(seq![seq![x, y, 0x20u8] + path, from] + rest, root, so_far) == states(
            rest,
            root,
            so_far.insert(plain(joined(root, path)), classified(x, y)->0),
        ),
{
    let r = seq![x, y, 0x20u8] + path;
    let list = seq![r, from] + rest;
    assert(list[0] == r && r[0] == x && r[1] == y);
    assert(r.skip(3) =~= path);
    assert(list.skip(2) =~= rest);
}

/// Reading stops with an error as soon as there are more files than are kept.
pub proof fn lemma_too_many_files(
    x: u8,
    y: u8,
    path: Seq<u8>,
    rest: Seq<Seq<u8>>,
    root: Seq<u8>,
    so_far: Map<Seq<u8>, GitFileStatus>,
)
    requires
        path.len() > 0,
        classified(x, y) is Some,
        so_far.insert(plain(joined(root, path)), classified(x, y)->0).dom().len() > 20_000,
    ensures
        states(seq![seq![x, y, 0x20u8] + path] + rest, root, so_far) == Err::<
            Map<Seq<u8>, GitFileStatus>,
            StatusError,
        >(StatusError::TooLarge),
{
    let r = seq![x, y, 0x20u8] + path;
    let list = seq![r] + rest;
    assert(list[0] == r && r[0] == x && r[1] == y);
    assert(r.skip(3) =~= path);
}

/// A relative path is put below the root with one slash between; an absolute
/// one stays.
pub proof fn lemma_joins(root: Seq<u8>, path: Seq<u8>)
    ensures
        path.len() > 0 && path[0] == 0x2f ==> joined(root, path) == path,
        (path.len() == 0 || path[0] != 0x2f) && root.len() > 0 && root.last() != 0x2f ==> joined(
            root,
            path,
        ) == root + seq![0x2fu8] + path,
        (path.len() == 0 || path[0] != 0x2f) && root.len() > 0 && root.last() == 0x2f ==> joined(
            root,
            path,
        ) == root + path,
{
    assert(root.push(0x2f) =~= root + seq![0x2fu8]);
}

/// Whether some bytes are a name between slashes.
pub open spec fn a_name(n: Seq<u8>) -> bool {
    n.len() > 0 && n != seq![0x2eu8] && !n.contains(0x2f)
}

proof fn lemma_slash_ends(n: Seq<u8>, rest: Seq<u8>)
    requires
        !n.contains(0x2f),
    ensures
        slash_at(n + seq![0x2fu8] + rest) == n.len(),
        slash_at(n) == n.len(),
    decreases n.len(),
{
    let s = n + seq![0x2fu8] + rest;
    if n.len() > 0 {
        assert(s[0] == n[0]);
        assert(n.contains(n[0]));
        assert(s.skip(1) =~= n.skip(1) + seq![0x2fu8] + rest);
        assert(!n.skip(1).contains(0x2f)) by {
            if n.skip(1).contains(0x2f) {
                let i = choose|i: int| 0 <= i < n.skip(1).len() && n.skip(1)[i] == 0x2f;
                assert(n[i + 1] == 0x2f);
            }
        }
        lemma_slash_ends(n.skip(1), rest);
    } else {
        assert(s[0] == 0x2f);
    }
}

/// Names are put one behind the other, with one slash before each.
proof fn lemma_a_name_is_added(out: Seq<u8>, n: Seq<u8>, rest: Seq<u8>, first: bool)
    requires
        !n.contains(0x2f),
    ensures
        with_names(out, n + seq![0x2fu8] + rest, first) == with_names(
            with_names(out, n, first),
            rest,
            false,
        ),
{
    lemma_slash_ends(n, rest);
    let s = n + seq![0x2fu8] + rest;
    assert(s.take(n.len() as int) =~= n);
    assert(n.take(n.len() as int) =~= n);
    assert(s.skip(n.len() as int + 1) =~= rest);
}

/// Slashes in a row count as one, and so does `/./`.
pub proof fn lemma_slashes_in_a_row(out: Seq<u8>, a: Seq<u8>, b: Seq<u8>, first: bool)
    ensures
        with_names(out, a + seq![0x2fu8, 0x2fu8] + b, first) == with_names(
            out,
            a + seq![0x2fu8] + b,
            first,
        ),
        with_names(out, a + seq![0x2fu8, 0x2eu8, 0x2fu8] + b, first) == with_names(
            out,
            a + seq![0x2fu8] + b,
            first,
        ),
    decreases a.len(),
{
    lemma_slash_at(a);
    let n = slash_at(a) as int;
    let name = a.take(n);
    lemma_before_slash(a);
    let two = a + seq![0x2fu8, 0x2fu8] + b;
    let dot = a + seq![0x2fu8, 0x2eu8, 0x2fu8] + b;
    let one = a + seq![0x2fu8] + b;
    if n < a.len() {
        let t = a.skip(n + 1);
        lemma_slashes_in_a_row(with_names(out, name, first), t, b, false);
        assert(two =~= name + seq![0x2fu8] + (t + seq![0x2fu8, 0x2fu8] + b));
        assert(dot =~= name + seq![0x2fu8] + (t + seq![0x2fu8, 0x2eu8, 0x2fu8] + b));
        assert(one =~= name + seq![0x2fu8] + (t + seq![0x2fu8] + b));
        lemma_a_name_is_added(out, name, t + seq![0x2fu8, 0x2fu8] + b, first);
        lemma_a_name_is_added(out, name, t + seq![0x2fu8, 0x2eu8, 0x2fu8] + b, first);
        lemma_a_name_is_added(out, name, t + seq![0x2fu8] + b, first);
    } else {
        assert(name =~= a);
        let next = with_names(out, a, first);
        let none = Seq::<u8>::empty();
        let here = seq![0x2eu8];
        assert(two =~= a + seq![0x2fu8] + (none + seq![0x2fu8] + b));
        assert(dot =~= a + seq![0x2fu8] + (here + seq![0x2fu8] + b));
        lemma_a_name_is_added(out, a, none + seq![0x2fu8] + b, first);
        lemma_a_name_is_added(out, a, here + seq![0x2fu8] + b, first);
        lemma_a_name_is_added(out, a, b, first);
        lemma_a_name_is_added(next, none, b, false);
        lemma_a_name_is_added(next, here, b, false);
        assert(with_names(next, none, false) == next);
        lemma_slash_ends(here, none);
        assert(here.take(1) =~= here);
        assert(with_names(next, here, false) == next);
    }
}

proof fn lemma_before_slash(a: Seq<u8>)
    ensures
        !a.take(slash_at(a) as int).contains(0x2f),
        slash_at(a) < a.len() ==> a[slash_at(a) as int] == 0x2f && a =~= a.take(slash_at(a) as int)
            + seq![0x2fu8] + a.skip(slash_at(a) as int + 1),
    decreases a.len(),
{
    lemma_slash_at(a);
    if a.len() > 0 && a[0] != 0x2f {
        let r = a.skip(1);
        lemma_before_slash(r);
        let n = slash_at(a) as int;
        let t = a.take(n);
        if t.contains(0x2f) {
            let i = choose|i: int| 0 <= i < t.len() && t[i] == 0x2f;
            assert(r.take(n - 1)[i - 1] == 0x2f);
        }
    }
}

/// Names with a slash before each.
pub open spec fn slashed(names: Seq<Seq<u8>>) -> Seq<u8>
    decreases names.len(),
{
    if names.len() == 0 {
        Seq::empty()
    } else {
        seq![0x2fu8] + names[0] + slashed(names.skip(1))
    }
}

proof fn lemma_names_in_order(out: Seq<u8>, names: Seq<Seq<u8>>, first: bool)
    requires
        names.len() > 0,
        forall|i: int| 0 <= i < names.len() ==> a_name(#[trigger] names[i]),
        out.len() == 0 || out.last() == 0x2f,
    ensures
        with_names(out, slashed(names).skip(1), first) == out + slashed(names).skip(1),
    decreases names.len(),
{
    let s = slashed(names).skip(1);
    let n = names[0];
    let r = names.skip(1);
    lemma_slash_ends(n, Seq::empty());
    assert(n.take(n.len() as int) =~= n);
    assert(with_names(out, n, first) == out + n);
    if r.len() == 0 {
        assert(slashed(r) =~= Seq::empty());
        assert(s =~= n);
    } else {
        let t = slashed(r).skip(1);
        assert(slashed(r)[0] == 0x2f);
        assert(s =~= n + seq![0x2fu8] + t);
        lemma_a_name_is_added(out, n, t, first);
        assert forall|i: int| 0 <= i < r.len() implies a_name(#[trigger] r[i]) by {
            assert(r[i] == names[i + 1]);
        }
        lemma_names_behind(out + n, r);
        assert((out + n).last() != 0x2f) by {
            assert(n.contains(n.last()));
        }
        assert(out + n + slashed(r) =~= out + s);
    }
}

proof fn lemma_names_behind(out: Seq<u8>, names: Seq<Seq<u8>>)
    requires
        names.len() > 0,
        forall|i: int| 0 <= i < names.len() ==> a_name(#[trigger] names[i]),
    ensures
        out.len() > 0 && out.last() != 0x2f ==> with_names(out, slashed(names).skip(1), false)
            == out + slashed(names),
    decreases names.len(),
{
    let s = slashed(names).skip(1);
    let n = names[0];
    let r = names.skip(1);
    lemma_slash_ends(n, Seq::empty());
    assert(n.take(n.len() as int) =~= n);
    if out.len() > 0 && out.last() != 0x2f {
        let next = out + seq![0x2fu8] + n;
        assert(with_names(out, n, false) == out.push(0x2f) + n);
        assert(out.push(0x2f) + n =~= next);
        if r.len() == 0 {
            assert(slashed(r) =~= Seq::empty());
            assert(s =~= n);
            assert(slashed(names) =~= seq![0x2fu8] + n);
            assert(next =~= out + slashed(names));
        } else {
            let t = slashed(r).skip(1);
            assert(slashed(r)[0] == 0x2f);
            assert(s =~= n + seq![0x2fu8] + t);
            lemma_a_name_is_added(out, n, t, false);
            assert forall|i: int| 0 <= i < r.len() implies a_name(#[trigger] r[i]) by {
                assert(r[i] == names[i + 1]);
            }
            assert(next.last() != 0x2f) by {
                assert(n.contains(n.last()));
            }
            lemma_names_behind(next, r);
            assert(next + slashed(r) =~= out + slashed(names));
        }
    }
}

/// A path of names with one slash between each stays as it is, absolute or
/// not: no name is lost, added or moved.
pub proof fn lemma_plain_paths_stay(names: Seq<Seq<u8>>)
    requires
        names.len() > 0,
        forall|i: int| 0 <= i < names.len() ==> a_name(#[trigger] names[i]),
    ensures
        plain(slashed(names)) == slashed(names),
        plain(slashed(names).skip(1)) == slashed(names).skip(1),
{
    let s = slashed(names);
    let t = s.skip(1);
    assert(s[0] == 0x2f);
    assert(t[0] == names[0][0]);
    assert(names[0].contains(names[0][0]));
    lemma_names_in_order(Seq::empty(), names, true);
    assert(Seq::<u8>::empty() + t =~= t);
    let none = Seq::<u8>::empty();
    let lead = seq![0x2fu8];
    assert(s =~= none + lead + t);
    lemma_a_name_is_added(lead, none, t, false);
    assert(with_names(lead, none, false) == lead);
    lemma_names_in_order(lead, names, false);
    assert(lead + t =~= s);
}

proof fn lemma_head_of(d: Seq<u8>, name: Seq<u8>)
    requires
        !name.contains(0x2f),
    ensures
        head_len(d + seq![0x2fu8] + name) == d.len() + 1,
    decreases name.len(),
{
    let p = d + seq![0x2fu8] + name;
    if name.len() == 0 {
        assert(p.last() == 0x2f);
    } else {
        assert(name.contains(name.last()));
        assert(p.last() == name.last());
        assert(p.drop_last() =~= d + seq![0x2fu8] + name.drop_last());
        assert(!name.drop_last().contains(0x2f)) by {
            if name.drop_last().contains(0x2f) {
                let i = choose|i: int|
                    0 <= i < name.drop_last().len() && name.drop_last()[i] == 0x2f;
                assert(name[i] == 0x2f);
            }
        }
        lemma_head_of(d, name.drop_last());
    }
}

/// What stands before the last slash is the directory that a path is in; a
/// directory that holds a changed file below the root is one of those that
/// show it.
pub proof fn lemma_directories(
    files: Map<Seq<u8>, GitFileStatus>,
    root: Seq<u8>,
    d: Seq<u8>,
    name: Seq<u8>,
)
    requires
        !name.contains(0x2f),
        d.len() > 0,
    ensures
        parent(d + seq![0x2fu8] + name) == Some(d),
        files.dom().contains(d + seq![0x2fu8] + name) && within(d, root) && d != root ==> above_some(
            files,
            root,
            d,
            d + seq![0x2fu8] + name,
        ),
{
    let p = d + seq![0x2fu8] + name;
    lemma_head_of(d, name);
    assert(p.take(d.len() as int) =~= d);
    assert(p.len() > 1);
    if within(d, root) && d != root {
        assert(dirs_above(p, root)[0] == d);
        assert(dirs_above(p, root).contains(d));
    }
}

/// Two counts with a tab between are how far ahead and how far behind.
pub proof fn lemma_counts_read_back(a: u32, b: u32)
    ensures
        ahead_behind(Some(decimal(a as nat) + seq!['\t'] + decimal(b as nat))) == (
            a as int,
            b as int,
        ),
{
    lemma_decimal_reads_back(a as nat);
    lemma_decimal_reads_back(b as nat);
    let x = decimal(a as nat);
    let y = decimal(b as nat);
    assert(!x.contains('\t')) by {
        if x.contains('\t') {
            let i = choose|i: int| 0 <= i < x.len() && x[i] == '\t';
            assert(is_digit(x[i]));
        }
    }
    lemma_cut_at_first(x, '\t', y);
    assert(is_digit(x[0]) && is_digit(y[0]));
}

/// The branch is the one that has a name, or else the commit's short name.
/// There are changes where git lists any.
pub proof fn lemma_branches(
    name: Seq<char>,
    commit: Option<Seq<char>>,
    changes: Option<Seq<char>>,
    counts: Option<Seq<char>>,
)
    requires
        name.len() > 0,
    ensures
        branch_state(Some(name), commit, changes, counts).branch == Some(name),
        branch_state(None, Some(name), changes, counts).branch == Some(name),
        branch_state(Some(name), commit, changes, counts).dirty <==> (changes is Some
            && changes != Some(Seq::<char>::empty())),
        branch_state(Some(name), commit, changes, counts).ahead == ahead_behind(counts).0,
        branch_state(Some(name), commit, changes, counts).behind == ahead_behind(counts).1,
        branch_state(None, None, changes, counts).branch is None,
{
    assert(changes matches Some(c) ==> (c.len() == 0 ==> c =~= Seq::<char>::empty()));
}

/// Git is used where it was found, except that the one that macOS ships only
/// counts with the developer tools.
pub proof fn lemma_usable_git(found: &str, macos: bool, tools: bool, r: bool)
    ensures
        call_ensures(git_usable, (None, macos, tools), r) ==> !r,
        call_ensures(git_usable, (Some(found), false, tools), r) ==> r,
        call_ensures(git_usable, (Some(found), true, true), r) ==> r,
        trim(found@) == "/usr/bin/git"@ && call_ensures(git_usable, (Some(found), true, false), r)
            ==> !r,
        trim(found@) != "/usr/bin/git"@ && call_ensures(git_usable, (Some(found), true, false), r)
            ==> r,
{
}

} // verus!
