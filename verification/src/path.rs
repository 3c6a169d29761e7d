//! Paths as text: names separated by slashes.
use vstd::prelude::*;

use crate::text::{
    add_chars, add_text, chars_of, chars_views, find_char, join, lemma_cut_at_first,
    lemma_find_char_first, lemma_join_front, lemma_rfind, lemma_rfind_last, rfind, rfind_char,
    same_chars, slice_of, split_chars, split_on, string_of,
};

verus! {

/// Whether a path starts at the root.
pub open spec fn absolute(p: Seq<char>) -> bool {
    p.len() > 0 && p[0] == '/'
}

/// Where `rest` lies as seen from `base`: an absolute path stands for itself.
pub open spec fn joined_path(base: Seq<char>, rest: Seq<char>) -> Seq<char> {
    if absolute(rest) {
        rest
    } else if base.len() > 0 && base.last() != '/' {
        base + "/"@ + rest
    } else {
        base + rest
    }
}

/// Where `rest` lies as seen from `base`.
pub fn join_path(base: &str, rest: &str) -> (r: String)
    ensures
        r@ == joined_path(base@, rest@),
{
    let b = chars_of(base);
    let t = chars_of(rest);
    if t.len() > 0 && t[0] == '/' {
        return rest.to_owned();
    }
    let mut out = base.to_owned();
    if b.len() > 0 && b[b.len() - 1] != '/' {
        out.push_str("/");
    }
    out.push_str(rest);
    out
}

/// The last name of a path that is not empty and not a dot.
pub open spec fn last_name(p: Seq<char>) -> Option<Seq<char>>
    decreases p.len(),
{
    match rfind(p, '/') {
        None => if p.len() == 0 || p == "."@ {
            None
        } else {
            Some(p)
        },
        Some(i) => {
            let name = p.skip(i as int + 1);
            if name.len() == 0 || name == "."@ {
                if i < p.len() {
                    last_name(p.take(i as int))
                } else {
                    None
                }
            } else {
                Some(name)
            }
        },
    }
}

/// The name of the file or directory that a path leads to.
pub open spec fn named(p: Seq<char>) -> Option<Seq<char>> {
    match last_name(p) {
        None => None,
        Some(n) => if n == ".."@ {
            None
        } else {
            Some(n)
        },
    }
}

/// The last name of a path that is not empty and not a dot.
fn find_last_name(path: &str) -> (r: Option<Vec<char>>)
    ensures
        match r {
            None => last_name(path@) is None,
            Some(n) => last_name(path@) == Some(n@),
        },
{
    let dot = chars_of(".");
    let mut p = chars_of(path);
    loop
        invariant
            dot@ == "."@,
            last_name(p@) == last_name(path@),
        decreases p.len(),
    {
        proof {
            lemma_rfind(p@, '/');
        }
        match rfind_char(&p, '/') {
            None => {
                if p.len() == 0 || same_chars(&p, &dot) {
                    return None;
                }
                return Some(p);
            },
            Some(i) => {
                let name = slice_of(&p, i + 1, p.len());
                assert(name@ =~= p@.skip(i as int + 1));
                if name.len() > 0 && !same_chars(&name, &dot) {
                    return Some(name);
                }
                let head = slice_of(&p, 0, i);
                assert(head@ =~= p@.take(i as int));
                p = head;
            },
        }
    }
}

/// Whether a path has a name: the root and the empty path have none.
pub fn has_name(path: &str) -> (r: bool)
    ensures
        r == (last_name(path@) is Some),
{
    find_last_name(path).is_some()
}

/// The name of the file or directory that a path leads to.
pub fn file_name(path: &str) -> (r: Option<String>)
    ensures
        match r {
            None => named(path@) is None,
            Some(n) => named(path@) == Some(n@),
        },
{
    match find_last_name(path) {
        None => None,
        Some(name) => if same_chars(&name, &chars_of("..")) {
            None
        } else {
            Some(string_of(&name))
        },
    }
}

/// The name of a program, given its path, empty where it has none.
pub open spec fn program_name(program: Seq<char>) -> Seq<char> {
    match named(program) {
        None => ""@,
        Some(n) => n,
    }
}

/// The names among the pieces of a path: empty pieces count for nothing, nor
/// does a dot but at the very start.
pub open spec fn names_among(pieces: Seq<Seq<char>>) -> Seq<Seq<char>>
    decreases pieces.len(),
{
    if pieces.len() == 0 {
        Seq::empty()
    } else {
        let rest = names_among(pieces.drop_last());
        let last = pieces.last();
        if last.len() == 0 || (last == "."@ && pieces.len() > 1) {
            rest
        } else {
            rest.push(last)
        }
    }
}

/// The names that a path is made of.
pub open spec fn names(p: Seq<char>) -> Seq<Seq<char>> {
    names_among(split_on(p, '/'))
}

/// Whether a path lies at or below `root`, name by name.
pub open spec fn within(p: Seq<char>, root: Seq<char>) -> bool {
    ||| !absolute(root) && names(root).len() == 0
    ||| absolute(p) == absolute(root) && names(root).is_prefix_of(names(p))
}

/// Whether a piece of a path leads nowhere.
pub open spec fn idle(piece: Seq<char>) -> bool {
    piece.len() == 0 || piece == "."@
}

/// How many pieces it takes to hold the first `n` names.
pub open spec fn past_names(pieces: Seq<Seq<char>>, n: nat) -> nat
    decreases pieces.len(),
{
    if pieces.len() == 0 {
        0
    } else if names_among(pieces.drop_last()).len() >= n {
        past_names(pieces.drop_last(), n)
    } else {
        pieces.len()
    }
}

/// Pieces without those at the front that lead nowhere.
pub open spec fn from_name(pieces: Seq<Seq<char>>) -> Seq<Seq<char>>
    decreases pieces.len(),
{
    if pieces.len() > 0 && idle(pieces[0]) {
        from_name(pieces.skip(1))
    } else {
        pieces
    }
}

/// Pieces without those at the end that lead nowhere.
pub open spec fn to_name(pieces: Seq<Seq<char>>) -> Seq<Seq<char>>
    decreases pieces.len(),
{
    if pieces.len() > 0 && idle(pieces.last()) {
        to_name(pieces.drop_last())
    } else {
        pieces
    }
}

/// A path without the pieces at its end that lead nowhere.
pub open spec fn ended(p: Seq<char>) -> Seq<char>
    decreases p.len(),
{
    match rfind(p, '/') {
        Some(i) => if i < p.len() && idle(p.skip(i as int + 1)) {
            if i == 0 {
                p.take(1)
            } else {
                ended(p.take(i as int))
            }
        } else {
            p
        },
        None => p,
    }
}

/// What is left of a path below `root`: its text from the first name after
/// those of `root` to its last name.
pub open spec fn below(p: Seq<char>, root: Seq<char>) -> Seq<char> {
    if !absolute(root) && names(root).len() == 0 {
        ended(p)
    } else {
        let pieces = split_on(p, '/');
        let rest = pieces.skip(past_names(pieces, names(root).len()) as int);
        join(to_name(from_name(rest)), "/"@)
    }
}

fn is_idle(piece: &[char]) -> (r: bool)
    ensures
        r == idle(piece@),
{
    proof {
        reveal_strlit(".");
        if piece@.len() == 1 && piece@[0] == '.' {
            assert(piece@ =~= "."@);
        }
    }
    piece.len() == 0 || piece.len() == 1 && piece[0] == '.'
}

fn end_path(path: Vec<char>) -> (r: Vec<char>)
    ensures
        r@ == ended(path@),
{
    let mut p = path;
    loop
        invariant
            ended(p@) == ended(path@),
        decreases p.len(),
    {
        proof {
            lemma_rfind(p@, '/');
        }
        let n: usize = p.len();
        match rfind_char(&p, '/') {
            None => {
                return p;
            },
            Some(i) => {
                let last = slice_of(&p, i + 1, n);
                assert(last@ =~= p@.skip(i as int + 1));
                if !is_idle(&last) {
                    return p;
                }
                if i == 0 {
                    let root = slice_of(&p, 0, 1);
                    assert(root@ =~= p@.take(1));
                    return root;
                }
                let head = slice_of(&p, 0, i);
                assert(head@ =~= p@.take(i as int));
                p = head;
            },
        }
    }
}

proof fn lemma_names_grow(pieces: Seq<Seq<char>>, i: int, j: int)
    requires
        0 <= i <= j <= pieces.len(),
    ensures
        names_among(pieces.take(i)).is_prefix_of(names_among(pieces.take(j))),
    decreases j - i,
{
    if i < j {
        lemma_names_grow(pieces, i, j - 1);
        assert(pieces.take(j).drop_last() =~= pieces.take(j - 1));
    }
}

proof fn lemma_past_names(pieces: Seq<Seq<char>>, n: nat, k: int)
    requires
        0 <= k <= pieces.len(),
        names_among(pieces.take(k)).len() >= n,
        k > 0 ==> names_among(pieces.take(k - 1)).len() < n,
    ensures
        past_names(pieces, n) == k,
    decreases pieces.len(),
{
    if pieces.len() > 0 {
        let d = pieces.drop_last();
        if k == pieces.len() {
            assert(pieces.take(k - 1) =~= d);
        } else {
            lemma_names_grow(pieces, k, pieces.len() - 1);
            assert(pieces.take(pieces.len() - 1) =~= d);
            assert(d.take(k) =~= pieces.take(k));
            if k > 0 {
                assert(d.take(k - 1) =~= pieces.take(k - 1));
            }
            lemma_past_names(d, n, k);
        }
    }
}

/// How many pieces hold the names of a root, where they are those of the
/// root.
fn match_names(pieces: &Vec<Vec<char>>, root: &Vec<Vec<char>>) -> (r: Option<usize>)
    ensures
        ({
            let all = chars_views(pieces@);
            let top = chars_views(root@);
            match r {
                None => !top.is_prefix_of(names_among(all)),
                Some(k) => top.is_prefix_of(names_among(all)) && k == past_names(all, top.len())
                    && k <= all.len(),
            }
        }),
{
    let ghost all = chars_views(pieces@);
    let ghost top = chars_views(root@);
    let mut i: usize = 0;
    let mut j: usize = 0;
    assert(all.take(0) =~= Seq::empty());
    assert(names_among(all.take(0)) =~= top.take(0));
    while j < root.len()
        invariant
            i <= pieces.len(),
            j <= root.len(),
            all == chars_views(pieces@),
            top == chars_views(root@),
            names_among(all.take(i as int)) == top.take(j as int),
            i > 0 && j == root.len() ==> names_among(all.take(i - 1)).len() < j,
            i == 0 ==> j == 0,
        decreases pieces.len() - i,
    {
        if i == pieces.len() {
            assert(all.take(i as int) =~= all);
            return None;
        }
        let ghost s = all.take(i + 1);
        assert(s.drop_last() =~= all.take(i as int));
        assert(s.last() == pieces@[i as int]@);
        let skipped = pieces[i].len() == 0 || i > 0 && is_idle(&pieces[i]);
        if !skipped {
            assert(!(s.last() == "."@ && s.len() > 1));
            assert(names_among(s) == top.take(j as int).push(s.last()));
            assert(top[j as int] == root@[j as int]@);
            if !same_chars(&pieces[i], &root[j]) {
                proof {
                    lemma_names_grow(all, i + 1, all.len() as int);
                    assert(all.take(all.len() as int) =~= all);
                    assert(names_among(s)[j as int] == s.last());
                    assert(names_among(all)[j as int] == s.last());
                }
                return None;
            }
            assert(names_among(s) =~= top.take(j + 1));
            j += 1;
        }
        i += 1;
    }
    proof {
        assert(top.take(j as int) =~= top);
        lemma_names_grow(all, i as int, all.len() as int);
        assert(all.take(all.len() as int) =~= all);
        lemma_past_names(all, top.len(), i as int);
    }
    Some(i)
}

/// The pieces from `from` on as a path, less those at both ends that lead
/// nowhere.
fn rest_path(pieces: &Vec<Vec<char>>, from: usize) -> (r: Vec<char>)
    requires
        from <= pieces@.len(),
    ensures
        r@ == join(to_name(from_name(chars_views(pieces@).skip(from as int))), "/"@),
{
    let ghost all = chars_views(pieces@);
    let n = pieces.len();
    let mut lo: usize = from;
    while lo < n && is_idle(&pieces[lo])
        invariant
            from <= lo <= n,
            n == pieces@.len(),
            all == chars_views(pieces@),
            from_name(all.skip(from as int)) == from_name(all.skip(lo as int)),
        decreases n - lo,
    {
        assert(all.skip(lo as int)[0] == pieces@[lo as int]@);
        assert(all.skip(lo as int).skip(1) =~= all.skip(lo + 1));
        lo += 1;
    }
    let ghost mid = all.skip(lo as int);
    proof {
        if lo < n {
            assert(mid[0] == pieces@[lo as int]@);
        }
        assert(all.subrange(lo as int, n as int) =~= mid);
    }
    let mut hi: usize = n;
    while hi > lo && is_idle(&pieces[hi - 1])
        invariant
            lo <= hi <= n,
            n == pieces@.len(),
            all == chars_views(pieces@),
            to_name(mid) == to_name(all.subrange(lo as int, hi as int)),
        decreases hi - lo,
    {
        let ghost s = all.subrange(lo as int, hi as int);
        assert(s.last() == pieces@[hi - 1]@);
        assert(s.drop_last() =~= all.subrange(lo as int, hi - 1));
        hi -= 1;
    }
    let ghost rest = all.subrange(lo as int, hi as int);
    proof {
        if hi > lo {
            assert(rest.last() == pieces@[hi - 1]@);
        }
    }
    let mut out: Vec<char> = Vec::new();
    let mut k: usize = lo;
    assert(rest.take(0) =~= Seq::empty());
    assert(out@ =~= join(rest.take(0), "/"@));
    while k < hi
        invariant
            lo <= k <= hi <= n,
            n == pieces@.len(),
            all == chars_views(pieces@),
            rest == all.subrange(lo as int, hi as int),
            out@ == join(rest.take(k - lo), "/"@),
        decreases hi - k,
    {
        let ghost s = rest.take(k + 1 - lo);
        assert(s.drop_last() =~= rest.take(k - lo));
        assert(s.last() == pieces@[k as int]@);
        if k > lo {
            add_text(&mut out, "/");
        }
        add_chars(&mut out, &pieces[k]);
        assert(out@ =~= join(s, "/"@));
        k += 1;
    }
    assert(rest.take(k - lo) =~= rest);
    out
}

/// What is left of a path below `root`, where it lies there. Doubled and
/// trailing slashes make no difference to where a path leads.
pub fn strip_root(path: &str, root: &str) -> (r: Option<String>)
    ensures
        match r {
            None => !within(path@, root@),
            Some(s) => within(path@, root@) && s@ == below(path@, root@),
        },
{
    let p = chars_of(path);
    let q = chars_of(root);
    let rooted = q.len() > 0 && q[0] == '/';
    let top = names_of(&q);
    assert(chars_views(top@).len() == top@.len());
    if !rooted && top.len() == 0 {
        return Some(string_of(&end_path(p)));
    }
    if (p.len() > 0 && p[0] == '/') != rooted {
        return None;
    }
    let pieces = split_chars(&p, '/');
    match match_names(&pieces, &top) {
        None => None,
        Some(k) => Some(string_of(&rest_path(&pieces, k))),
    }
}

/// Whether two paths are made of the same names: doubled and trailing
/// slashes make no difference.
pub open spec fn same_place(a: Seq<char>, b: Seq<char>) -> bool {
    absolute(a) == absolute(b) && names(a) == names(b)
}

fn names_of(path: &[char]) -> (r: Vec<Vec<char>>)
    ensures
        chars_views(r@) == names_among(split_on(path@, '/')),
{
    let dot = chars_of(".");
    let pieces = split_chars(path, '/');
    let ghost all = chars_views(pieces@);
    let mut out: Vec<Vec<char>> = Vec::new();
    let mut i: usize = 0;
    assert(all.take(0) =~= Seq::empty());
    assert(chars_views(out@) =~= Seq::empty());
    while i < pieces.len()
        invariant
            i <= pieces.len(),
            dot@ == "."@,
            all == chars_views(pieces@),
            chars_views(out@) == names_among(all.take(i as int)),
        decreases pieces.len() - i,
    {
        let ghost s = all.take(i + 1);
        assert(s.drop_last() =~= all.take(i as int));
        assert(s.last() == pieces@[i as int]@);
        let piece = slice_of(pieces[i].as_slice(), 0, pieces[i].len());
        assert(piece@ =~= pieces@[i as int]@);
        if piece.len() != 0 && !(i > 0 && same_chars(piece.as_slice(), dot.as_slice())) {
            let ghost was = out@;
            out.push(piece);
            assert(chars_views(out@) =~= chars_views(was).push(piece@));
        }
        i += 1;
    }
    assert(all.take(i as int) =~= all);
    out
}

/// Whether two paths are made of the same names.
pub fn same_path(a: &str, b: &str) -> (r: bool)
    ensures
        r == same_place(a@, b@),
{
    let v = chars_of(a);
    let w = chars_of(b);
    if (v.len() > 0 && v[0] == '/') != (w.len() > 0 && w[0] == '/') {
        return false;
    }
    let x = names_of(v.as_slice());
    let y = names_of(w.as_slice());
    let ghost p = chars_views(x@);
    let ghost q = chars_views(y@);
    if x.len() != y.len() {
        assert(p.len() != q.len());
        return false;
    }
    let mut i: usize = 0;
    while i < x.len()
        invariant
            i <= x.len(),
            x.len() == y.len(),
            p == chars_views(x@),
            q == chars_views(y@),
            p == names_among(split_on(a@, '/')),
            q == names_among(split_on(b@, '/')),
            forall|k: int| 0 <= k < i ==> p[k] == q[k],
        decreases x.len() - i,
    {
        assert(p[i as int] == x@[i as int]@ && q[i as int] == y@[i as int]@);
        if !same_chars(x[i].as_slice(), y[i].as_slice()) {
            return false;
        }
        i += 1;
    }
    assert(p =~= q);
    true
}

// --- What paths mean ---

/// A relative path is put below its base with one slash between; an absolute
/// one stays as it is.
pub proof fn lemma_joining(base: Seq<char>, rest: Seq<char>)
    ensures
        rest.len() > 0 && rest[0] == '/' ==> joined_path(base, rest) == rest,
        (rest.len() == 0 || rest[0] != '/') && base.len() > 0 && base.last() != '/' ==> joined_path(
            base,
            rest,
        ) == base + seq!['/'] + rest,
        (rest.len() == 0 || rest[0] != '/') && base.len() > 0 && base.last() == '/' ==> joined_path(
            base,
            rest,
        ) == base + rest,
{
    reveal_strlit("/");
    assert("/"@ =~= seq!['/']);
}

/// Whether a text is a name between slashes.
pub open spec fn a_name(n: Seq<char>) -> bool {
    n.len() > 0 && n != seq!['.'] && !n.contains('/')
}

proof fn lemma_last_slash(d: Seq<char>, n: Seq<char>)
    requires
        !n.contains('/'),
    ensures
        rfind(d + seq!['/'] + n, '/') == Some(d.len()),
        rfind(n, '/') is None,
{
    let p = d + seq!['/'] + n;
    lemma_rfind_last(p, '/');
    lemma_rfind_last(n, '/');
    assert(p[d.len() as int] == '/');
    if rfind(p, '/') is Some {
        let k = rfind(p, '/')->0 as int;
        if k > d.len() {
            assert(n[k - d.len() - 1] == '/');
            assert(n.contains('/'));
        }
    }
    if rfind(n, '/') is Some {
        assert(n.contains(n[rfind(n, '/')->0 as int]));
    }
}

/// A path's name is what stands behind its last slash. A slash at the end, or
/// a dot behind one, does not count.
pub proof fn lemma_names_are_last(d: Seq<char>, n: Seq<char>)
    requires
        a_name(n),
    ensures
        last_name(n) == Some(n),
        last_name(d + seq!['/'] + n) == Some(n),
        last_name(n + seq!['/']) == Some(n),
        last_name(n + seq!['/', '.']) == Some(n),
        last_name(d + seq!['/'] + n + seq!['/']) == Some(n),
        n != seq!['.', '.'] ==> named(d + seq!['/'] + n) == Some(n),
        n == seq!['.', '.'] ==> named(d + seq!['/'] + n) is None,
{
    reveal_strlit(".");
    reveal_strlit("..");
    assert("."@ =~= seq!['.']);
    assert(".."@ =~= seq!['.', '.']);
    let none = Seq::<char>::empty();
    let p = d + seq!['/'] + n;
    lemma_last_slash(d, n);
    assert(p.skip(d.len() as int + 1) =~= n);
    lemma_last_slash(n, none);
    assert(n + seq!['/'] + none =~= n + seq!['/']);
    assert((n + seq!['/']).skip(n.len() as int + 1) =~= none);
    assert((n + seq!['/']).take(n.len() as int) =~= n);
    lemma_last_slash(n, seq!['.']);
    assert(n + seq!['/'] + seq!['.'] =~= n + seq!['/', '.']);
    assert((n + seq!['/', '.']).skip(n.len() as int + 1) =~= seq!['.']);
    assert((n + seq!['/', '.']).take(n.len() as int) =~= n);
    lemma_last_slash(p, none);
    assert(p + seq!['/'] + none =~= p + seq!['/']);
    assert((p + seq!['/']).skip(p.len() as int + 1) =~= none);
    assert((p + seq!['/']).take(p.len() as int) =~= p);
}

proof fn lemma_split_of_join(v: Seq<Seq<char>>)
    requires
        v.len() > 0,
        forall|i: int| 0 <= i < v.len() ==> !(#[trigger] v[i]).contains('/'),
    ensures
        split_on(join(v, seq!['/']), '/') == v,
    decreases v.len(),
{
    let n = v[0];
    if v.len() == 1 {
        assert(v =~= seq![n]);
        lemma_cut_at_first(n, '/', Seq::empty());
        lemma_find_char_first(n, '/');
        if find_char(n, '/') < n.len() {
            assert(n.contains(n[find_char(n, '/') as int]));
        }
    } else {
        let r = v.skip(1);
        assert(v =~= seq![n] + r);
        lemma_join_front(n, r, seq!['/']);
        let t = join(r, seq!['/']);
        let s = n + seq!['/'] + t;
        lemma_cut_at_first(n, '/', t);
        assert(s.take(n.len() as int) =~= n);
        assert(s.skip(n.len() as int + 1) =~= t);
        assert forall|i: int| 0 <= i < r.len() implies !(#[trigger] r[i]).contains('/') by {
            assert(r[i] == v[i + 1]);
        }
        lemma_split_of_join(r);
    }
}

proof fn lemma_pieces(v: Seq<Seq<char>>, n: nat)
    requires
        forall|i: int| 0 <= i < v.len() ==> a_name(#[trigger] v[i]),
        n <= v.len(),
    ensures
        names_among(seq![Seq::<char>::empty()] + v) == v,
        n > 0 ==> past_names(seq![Seq::<char>::empty()] + v, n) == n + 1,
    decreases v.len(),
{
    reveal_strlit(".");
    assert("."@ =~= seq!['.']);
    let none = Seq::<char>::empty();
    let w = seq![none] + v;
    if v.len() == 0 {
        assert(w.drop_last() =~= Seq::empty());
        assert(names_among(w.drop_last()) =~= Seq::empty());
        assert(names_among(w) =~= v);
    } else {
        let r = v.drop_last();
        assert(w.drop_last() =~= seq![none] + r);
        assert forall|i: int| 0 <= i < r.len() implies a_name(#[trigger] r[i]) by {
            assert(r[i] == v[i]);
        }
        lemma_pieces(r, if n <= r.len() {
            n
        } else {
            0
        });
        assert(a_name(v.last()));
        assert(names_among(w) =~= v);
    }
}

/// The names of an absolute path are what stands between its slashes. A path
/// made of a root's names and more lies within the root, and what is left of
/// it below the root is the other names with slashes between.
pub proof fn lemma_below_a_root(ns: Seq<Seq<char>>, ms: Seq<Seq<char>>)
    requires
        ns.len() > 0,
        ms.len() > 0,
        forall|i: int| 0 <= i < ns.len() ==> a_name(#[trigger] ns[i]),
        forall|i: int| 0 <= i < ms.len() ==> a_name(#[trigger] ms[i]),
    ensures
        ({
            let root = seq!['/'] + join(ns, seq!['/']);
            let p = seq!['/'] + join(ns + ms, seq!['/']);
            &&& names(root) == ns
            &&& names(p) == ns + ms
            &&& within(p, root)
            &&& below(p, root) == join(ms, seq!['/'])
        }),
{
    reveal_strlit("/");
    reveal_strlit(".");
    assert("/"@ =~= seq!['/']);
    assert("."@ =~= seq!['.']);
    let none = Seq::<char>::empty();
    let root = seq!['/'] + join(ns, seq!['/']);
    let all = ns + ms;
    let p = seq!['/'] + join(all, seq!['/']);
    lemma_join_front(none, ns, seq!['/']);
    lemma_join_front(none, all, seq!['/']);
    assert(none + seq!['/'] + join(ns, seq!['/']) =~= root);
    assert(none + seq!['/'] + join(all, seq!['/']) =~= p);
    let a = seq![none] + ns;
    let b = seq![none] + all;
    assert forall|i: int| 0 <= i < all.len() implies a_name(#[trigger] all[i]) by {
        if i < ns.len() {
            assert(all[i] == ns[i]);
        } else {
            assert(all[i] == ms[i - ns.len()]);
        }
    }
    assert forall|i: int| 0 <= i < a.len() implies !(#[trigger] a[i]).contains('/') by {
        if i > 0 {
            assert(a_name(ns[i - 1]));
        }
    }
    assert forall|i: int| 0 <= i < b.len() implies !(#[trigger] b[i]).contains('/') by {
        if i > 0 {
            assert(a_name(all[i - 1]));
        }
    }
    lemma_split_of_join(a);
    lemma_split_of_join(b);
    lemma_pieces(ns, 0);
    lemma_pieces(all, ns.len());
    assert(b.skip(ns.len() as int + 1) =~= ms);
    assert(a_name(ms[0]) && a_name(ms.last()));
    assert(ns.is_prefix_of(all)) by {
        assert(all.subrange(0, ns.len() as int) =~= ns);
    }
}

} // verus!
