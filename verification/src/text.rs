use vstd::prelude::*;

verus! {

/// `String::push` appends one character.
pub assume_specification[ String::push ](s: &mut String, c: char)
    ensures
        final(s)@ == old(s)@.push(c),
;

/// `String::push_str` appends a string.
pub assume_specification[ String::push_str ](s: &mut String, t: &str)
    ensures
        final(s)@ == old(s)@ + t@,
;

/// The characters of `s`, in order.
pub fn chars_of(s: &str) -> (v: Vec<char>)
    ensures
        v@ == s@,
{
    let mut v: Vec<char> = Vec::new();
    for c in it: s.chars()
        invariant
            v@ == it.seq().take(it.index() as int),
            it.seq() == s@,
    {
        v.push(c);
    }
    v
}

/// The string made of the characters `v`.
pub fn string_of(v: &[char]) -> (s: String)
    ensures
        s@ == v@,
{
    let mut s = String::new();
    let mut i: usize = 0;
    while i < v.len()
        invariant
            i <= v.len(),
            s@ == v@.take(i as int),
        decreases v.len() - i,
    {
        s.push(v[i]);
        i += 1;
        assert(v@.take(i as int) == v@.take(i - 1).push(v@[i - 1]));
    }
    assert(v@.take(v@.len() as int) == v@);
    s
}

/// Whether two strings hold the same characters.
pub fn same(a: &str, b: &str) -> (r: bool)
    ensures
        r == (a@ == b@),
{
    let x = chars_of(a);
    let y = chars_of(b);
    if x.len() != y.len() {
        return false;
    }
    let mut i: usize = 0;
    while i < x.len()
        invariant
            x.len() == y.len(),
            i <= x.len(),
            x@ == a@,
            y@ == b@,
            forall|k: int| 0 <= k < i ==> x@[k] == y@[k],
        decreases x.len() - i,
    {
        if x[i] != y[i] {
            return false;
        }
        i += 1;
    }
    assert(a@ =~= b@);
    true
}

/// Whether `c` lies in the ASCII range.
pub open spec fn is_ascii_char(c: char) -> bool {
    (c as u32) < 128
}

/// The ASCII lowercase of `c`; characters outside `A`..`Z` are kept.
pub open spec fn ascii_lower(c: char) -> char {
    if 'A' <= c <= 'Z' {
        ((c as u8) + 32) as char
    } else {
        c
    }
}

/// The ASCII lowercase of `c`.
pub fn to_ascii_lower(c: char) -> (r: char)
    ensures
        r == ascii_lower(c),
{
    if c >= 'A' && c <= 'Z' {
        (c as u8 + 32) as char
    } else {
        c
    }
}

/// What `char::to_lowercase` yields for a character, in order.
pub uninterp spec fn char_lower(c: char) -> Seq<char>;

/// `char::to_lowercase`: the characters of its lowercase mapping, in order.
/// What that mapping is comes from the Unicode tables and stays a name here.
#[verifier::external_body]
pub(crate) fn lower_chars(c: char) -> (r: Vec<char>)
    ensures
        r@ == char_lower(c),
{
    c.to_lowercase().collect()
}

/// Whether `char::is_alphanumeric` accepts a character.
pub uninterp spec fn char_alphanumeric(c: char) -> bool;

/// `char::is_alphanumeric`: whether the Unicode tables call the character a
/// letter or a number. The tables stay behind the name.
#[verifier::external_body]
pub(crate) fn is_alphanumeric(c: char) -> (r: bool)
    ensures
        r == char_alphanumeric(c),
{
    c.is_alphanumeric()
}

/// What `str::to_uppercase` gives for a string.
pub uninterp spec fn str_upper(s: Seq<char>) -> Seq<char>;

/// `str::to_uppercase`: the string with every character replaced by its
/// Unicode uppercase mapping. The mapping stays behind the name.
#[verifier::external_body]
pub(crate) fn upper_of(s: &str) -> (r: String)
    ensures
        r@ == str_upper(s@),
{
    s.to_uppercase()
}

/// The characters with Unicode's `White_Space` property.
pub open spec fn whitespace(c: char) -> bool {
    let u = c as u32;
    ||| 0x09 <= u <= 0x0d
    ||| u == 0x20
    ||| u == 0x85
    ||| u == 0xa0
    ||| u == 0x1680
    ||| 0x2000 <= u <= 0x200a
    ||| u == 0x2028
    ||| u == 0x2029
    ||| u == 0x202f
    ||| u == 0x205f
    ||| u == 0x3000
}

/// Whether `c` is white space.
pub fn is_whitespace(c: char) -> (r: bool)
    ensures
        r == whitespace(c),
{
    let u: u32 = c as u32;
    (u >= 0x09 && u <= 0x0d) || u == 0x20 || u == 0x85 || u == 0xa0 || u == 0x1680 || (u >= 0x2000
        && u <= 0x200a) || u == 0x2028 || u == 0x2029 || u == 0x202f || u == 0x205f || u == 0x3000
}

/// The characters held by each string of a list.
pub open spec fn views(v: Seq<String>) -> Seq<Seq<char>> {
    v.map_values(|s: String| s@)
}

/// The characters held by each string slice of a list.
pub open spec fn str_views(v: Seq<&str>) -> Seq<Seq<char>> {
    v.map_values(|s: &str| s@)
}

/// `s` without its leading white space.
pub open spec fn trim_start(s: Seq<char>) -> Seq<char>
    decreases s.len(),
{
    if s.len() > 0 && whitespace(s[0]) {
        trim_start(s.skip(1))
    } else {
        s
    }
}

/// `s` without its trailing white space.
pub open spec fn trim_end(s: Seq<char>) -> Seq<char>
    decreases s.len(),
{
    if s.len() > 0 && whitespace(s.last()) {
        trim_end(s.drop_last())
    } else {
        s
    }
}

/// `s` without white space at either end.
pub open spec fn trim(s: Seq<char>) -> Seq<char> {
    trim_end(trim_start(s))
}

/// The characters of `v` from `from` up to `to`.
pub fn slice_of(v: &[char], from: usize, to: usize) -> (r: Vec<char>)
    requires
        from <= to <= v.len(),
    ensures
        r@ == v@.subrange(from as int, to as int),
{
    let mut r: Vec<char> = Vec::new();
    let mut i: usize = from;
    while i < to
        invariant
            from <= i <= to <= v.len(),
            r@ == v@.subrange(from as int, i as int),
        decreases to - i,
    {
        r.push(v[i]);
        i += 1;
        assert(v@.subrange(from as int, i as int) =~= v@.subrange(from as int, i - 1).push(
            v@[i - 1],
        ));
    }
    r
}

/// How many leading characters of `v` are white space.
fn leading_space(v: &[char]) -> (n: usize)
    ensures
        n <= v.len(),
        trim_start(v@) == v@.skip(n as int),
{
    let mut n: usize = 0;
    assert(v@.skip(0) == v@);
    while n < v.len() && is_whitespace(v[n])
        invariant
            n <= v.len(),
            trim_start(v@) == trim_start(v@.skip(n as int)),
        decreases v.len() - n,
    {
        assert(v@.skip(n as int)[0] == v@[n as int]);
        assert(v@.skip(n as int).skip(1) =~= v@.skip(n + 1));
        n += 1;
    }
    n
}

/// `v` without its leading white space.
pub fn trim_start_chars(v: &[char]) -> (r: Vec<char>)
    ensures
        r@ == trim_start(v@),
{
    let n = leading_space(v);
    let r = slice_of(v, n, v.len());
    assert(v@.subrange(n as int, v@.len() as int) =~= v@.skip(n as int));
    r
}

/// `v` without its trailing white space.
pub fn trim_end_chars(v: &[char]) -> (r: Vec<char>)
    ensures
        r@ == trim_end(v@),
{
    let mut n: usize = v.len();
    assert(v@.take(n as int) == v@);
    while n > 0 && is_whitespace(v[n - 1])
        invariant
            n <= v.len(),
            trim_end(v@) == trim_end(v@.take(n as int)),
        decreases n,
    {
        assert(v@.take(n as int).last() == v@[n - 1]);
        assert(v@.take(n as int).drop_last() =~= v@.take(n - 1));
        n -= 1;
    }
    let r = slice_of(v, 0, n);
    assert(v@.subrange(0, n as int) =~= v@.take(n as int));
    r
}

/// `v` without white space at either end.
pub fn trim_chars(v: &[char]) -> (r: Vec<char>)
    ensures
        r@ == trim(v@),
{
    let start = trim_start_chars(v);
    trim_end_chars(&start)
}

/// `s` without white space at either end.
pub fn trimmed(s: &str) -> (r: String)
    ensures
        r@ == trim(s@),
{
    string_of(&trim_chars(&chars_of(s)))
}

/// How many leading characters of `s` are not white space.
pub open spec fn word_len(s: Seq<char>) -> nat
    decreases s.len(),
{
    if s.len() > 0 && !whitespace(s[0]) {
        1 + word_len(s.skip(1))
    } else {
        0
    }
}

/// A word is no longer than the text it starts.
pub proof fn lemma_word_len(s: Seq<char>)
    ensures
        word_len(s) <= s.len(),
    decreases s.len(),
{
    if s.len() > 0 && !whitespace(s[0]) {
        lemma_word_len(s.skip(1));
    }
}

/// Trimming makes a text no longer.
pub proof fn lemma_trim_start_len(s: Seq<char>)
    ensures
        trim_start(s).len() <= s.len(),
        trim_start(s).len() > 0 ==> !whitespace(trim_start(s)[0]),
    decreases s.len(),
{
    if s.len() > 0 && whitespace(s[0]) {
        lemma_trim_start_len(s.skip(1));
    }
}

/// The runs of `s` that hold no white space, in order.
pub open spec fn words(s: Seq<char>) -> Seq<Seq<char>>
    decreases s.len(),
{
    let t = trim_start(s);
    if t.len() == 0 {
        Seq::empty()
    } else {
        let n = word_len(t);
        proof {
            lemma_trim_start_len(s);
            lemma_word_len(t);
            assert(n > 0);
        }
        seq![t.take(n as int)] + words(t.skip(n as int))
    }
}

/// The runs of `s` that hold no white space, in order.
pub fn split_words(s: &str) -> (r: Vec<String>)
    ensures
        views(r@) == words(s@),
{
    let mut rest = chars_of(s);
    let mut out: Vec<String> = Vec::new();
    assert(views(out@) =~= Seq::<Seq<char>>::empty());
    loop
        invariant_except_break
            words(s@) == views(out@) + words(rest@),
        ensures
            views(out@) == words(s@),
        decreases rest@.len(),
    {
        let t = trim_start_chars(&rest);
        proof {
            lemma_trim_start_len(rest@);
        }
        if t.len() == 0 {
            assert(views(out@) + words(rest@) =~= views(out@));
            break;
        }
        let mut n: usize = 0;
        assert(t@.skip(0) == t@);
        while n < t.len() && !is_whitespace(t[n])
            invariant
                n <= t.len(),
                word_len(t@) == n + word_len(t@.skip(n as int)),
            decreases t.len() - n,
        {
            assert(t@.skip(n as int)[0] == t@[n as int]);
            assert(t@.skip(n as int).skip(1) =~= t@.skip(n + 1));
            n += 1;
        }
        proof {
            if n < t.len() {
                assert(t@.skip(n as int)[0] == t@[n as int]);
            }
            assert(word_len(t@.skip(n as int)) == 0);
            assert(n > 0);
        }
        let word = string_of(&slice_of(&t, 0, n));
        let next = slice_of(&t, n, t.len());
        let ghost before = out@;
        out.push(word);
        proof {
            assert(t@.subrange(0, n as int) =~= t@.take(n as int));
            assert(t@.subrange(n as int, t@.len() as int) =~= t@.skip(n as int));
            assert(views(out@) =~= views(before).push(word@));
            assert(words(rest@) == seq![word@] + words(next@));
            assert(views(before) + (seq![word@] + words(next@)) =~= views(out@) + words(next@));
        }
        rest = next;
    }
    out
}

/// The pieces of a list with `sep` between them.
pub open spec fn join(v: Seq<Seq<char>>, sep: Seq<char>) -> Seq<char>
    decreases v.len(),
{
    if v.len() == 0 {
        Seq::empty()
    } else if v.len() == 1 {
        v[0]
    } else {
        join(v.drop_last(), sep) + sep + v.last()
    }
}

/// The strings of a list with `sep` between them.
pub fn joined(v: &Vec<String>, sep: &str) -> (r: String)
    ensures
        r@ == join(views(v@), sep@),
{
    let mut out = String::new();
    let mut i: usize = 0;
    while i < v.len()
        invariant
            i <= v.len(),
            out@ == join(views(v@).take(i as int), sep@),
        decreases v.len() - i,
    {
        if i > 0 {
            out.push_str(sep);
        }
        out.push_str(v[i].as_str());
        proof {
            let t = views(v@).take(i + 1);
            assert(t.drop_last() =~= views(v@).take(i as int));
            assert(t.last() == v@[i as int]@);
            if i == 0 {
                assert(Seq::<char>::empty() + v@[0]@ =~= v@[0]@);
            }
        }
        i += 1;
    }
    assert(views(v@).take(v@.len() as int) =~= views(v@));
    out
}

/// The character of a decimal digit.
pub open spec fn digit_char(d: nat) -> char {
    (d + 48) as char
}

/// `n` in decimal.
pub open spec fn decimal(n: nat) -> Seq<char>
    decreases n,
{
    if n < 10 {
        seq![digit_char(n)]
    } else {
        decimal(n / 10).push(digit_char(n % 10))
    }
}

/// Appends `n` in decimal.
pub fn push_decimal(out: &mut String, n: u64)
    ensures
        final(out)@ == old(out)@ + decimal(n as nat),
    decreases n,
{
    if n >= 10 {
        push_decimal(out, n / 10);
    }
    let d: u8 = (n % 10) as u8;
    let ghost before = out@;
    out.push((d + 48) as char);
    proof {
        if n >= 10 {
            assert(old(out)@ + decimal(n as nat) =~= (old(out)@ + decimal((n / 10) as nat)).push(
                digit_char((n % 10) as nat),
            ));
        } else {
            assert(old(out)@ + decimal(n as nat) =~= old(out)@.push(digit_char(n as nat)));
        }
    }
}

/// `n` in decimal, with a sign where it is negative.
pub open spec fn signed_decimal(n: int) -> Seq<char> {
    if n < 0 {
        seq!['-'] + decimal((-n) as nat)
    } else {
        decimal(n as nat)
    }
}

/// Appends `n` in decimal, with a sign where it is negative.
pub fn push_signed(out: &mut String, n: i32)
    ensures
        final(out)@ == old(out)@ + signed_decimal(n as int),
{
    if n < 0 {
        out.push('-');
        let m: u64 = (-(n as i64)) as u64;
        push_decimal(out, m);
        assert(old(out)@.push('-') + decimal((-n) as nat) =~= old(out)@ + (seq!['-'] + decimal(
            (-n) as nat,
        )));
    } else {
        push_decimal(out, n as u64);
    }
}

/// Whether `s` begins with `p`.
pub open spec fn begins_with(s: Seq<char>, p: Seq<char>) -> bool {
    p.len() <= s.len() && s.take(p.len() as int) == p
}

/// Whether the characters of `s` from `at` on begin with `p`.
pub fn begins_at(s: &[char], at: usize, p: &[char]) -> (r: bool)
    requires
        at <= s.len(),
    ensures
        r == begins_with(s@.skip(at as int), p@),
{
    if p.len() > s.len() - at {
        return false;
    }
    let mut i: usize = 0;
    while i < p.len()
        invariant
            at <= s.len(),
            p.len() <= s.len() - at,
            i <= p.len(),
            forall|k: int| 0 <= k < i ==> s@[at + k] == p@[k],
        decreases p.len() - i,
    {
        if s[at + i] != p[i] {
            assert(s@.skip(at as int).take(p@.len() as int)[i as int] != p@[i as int]);
            return false;
        }
        i += 1;
    }
    assert(s@.skip(at as int).take(p@.len() as int) =~= p@);
    true
}

/// Whether `s` begins with `p`.
pub fn has_prefix(s: &str, p: &str) -> (r: bool)
    ensures
        r == begins_with(s@, p@),
{
    let v = chars_of(s);
    assert(v@.skip(0) =~= v@);
    begins_at(&v, 0, &chars_of(p))
}

/// Whether `s` ends with `p`.
pub open spec fn ends_with(s: Seq<char>, p: Seq<char>) -> bool {
    p.len() <= s.len() && s.skip(s.len() - p.len()) == p
}

/// Whether `c` occurs in `s`.
pub fn has_char(s: &[char], c: char) -> (r: bool)
    ensures
        r == s@.contains(c),
{
    let mut i: usize = 0;
    while i < s.len()
        invariant
            i <= s.len(),
            forall|k: int| 0 <= k < i ==> s@[k] != c,
        decreases s.len() - i,
    {
        if s[i] == c {
            assert(s@.contains(c));
            return true;
        }
        i += 1;
    }
    false
}

/// The position of the first `c` in `s`, or the length of `s` if there is
/// none.
pub open spec fn find_char(s: Seq<char>, c: char) -> nat
    decreases s.len(),
{
    if s.len() == 0 || s[0] == c {
        0
    } else {
        1 + find_char(s.skip(1), c)
    }
}

/// The position of the first `c` in `s`, or the length of `s` if there is
/// none.
pub fn find_char_at(s: &[char], c: char) -> (n: usize)
    ensures
        n == find_char(s@, c),
        n <= s.len(),
        n < s.len() ==> s@[n as int] == c,
        forall|k: int| 0 <= k < n ==> s@[k] != c,
{
    let mut n: usize = 0;
    assert(s@.skip(0) == s@);
    while n < s.len() && s[n] != c
        invariant
            n <= s.len(),
            find_char(s@, c) == n + find_char(s@.skip(n as int), c),
            forall|k: int| 0 <= k < n ==> s@[k] != c,
        decreases s.len() - n,
    {
        assert(s@.skip(n as int)[0] == s@[n as int]);
        assert(s@.skip(n as int).skip(1) =~= s@.skip(n + 1));
        n += 1;
    }
    proof {
        if n < s.len() {
            assert(s@.skip(n as int)[0] == s@[n as int]);
        }
    }
    n
}

/// The position of the first occurrence of `p` in `s`.
pub open spec fn find_seq(s: Seq<char>, p: Seq<char>) -> Option<nat>
    decreases s.len(),
{
    if begins_with(s, p) {
        Some(0)
    } else if s.len() == 0 {
        None
    } else {
        match find_seq(s.skip(1), p) {
            None => None,
            Some(n) => Some(n + 1),
        }
    }
}

/// The position of the first occurrence of `p` in `s`.
pub fn find_chars(s: &[char], p: &[char]) -> (r: Option<usize>)
    ensures
        match r {
            None => find_seq(s@, p@) is None,
            Some(n) => find_seq(s@, p@) == Some(n as nat) && n + p@.len() <= s@.len(),
        },
{
    let mut i: usize = 0;
    assert(s@.skip(0) =~= s@);
    loop
        invariant
            i <= s.len(),
            match find_seq(s@.skip(i as int), p@) {
                None => find_seq(s@, p@) is None,
                Some(n) => find_seq(s@, p@) == Some((i + n) as nat),
            },
        decreases s.len() - i,
    {
        if begins_at(s, i, p) {
            return Some(i);
        }
        if i == s.len() {
            return None;
        }
        assert(s@.skip(i as int).skip(1) =~= s@.skip(i + 1));
        i += 1;
    }
}

/// Whether `p` occurs in `s`.
pub fn has_seq(s: &str, p: &str) -> (r: bool)
    ensures
        r == (find_seq(s@, p@) is Some),
{
    find_chars(&chars_of(s), &chars_of(p)).is_some()
}

/// The value of a decimal digit.
pub open spec fn digit_value(c: char) -> int {
    c as int - 48
}

pub open spec fn is_digit(c: char) -> bool {
    '0' <= c <= '9'
}

/// Whether `c` is a decimal digit.
pub fn digit(c: char) -> (r: bool)
    ensures
        r == is_digit(c),
{
    c >= '0' && c <= '9'
}

/// Whether `s` is made of decimal digits, at least one.
pub open spec fn all_digits(s: Seq<char>) -> bool {
    s.len() > 0 && forall|i: int| 0 <= i < s.len() ==> is_digit(#[trigger] s[i])
}

/// The number that some decimal digits write.
pub open spec fn digits_value(s: Seq<char>) -> int
    decreases s.len(),
{
    if s.len() == 0 {
        0
    } else {
        digits_value(s.drop_last()) * 10 + digit_value(s.last())
    }
}

/// The number that digits stand for is no less than that of their start.
pub proof fn lemma_digits_value_bound(s: Seq<char>, k: int)
    requires
        forall|i: int| 0 <= i < s.len() ==> is_digit(#[trigger] s[i]),
        0 <= k <= s.len(),
    ensures
        0 <= digits_value(s.take(k)) <= digits_value(s),
    decreases s.len(),
{
    if s.len() == 0 {
        assert(s.take(k) =~= s);
    } else if k == s.len() {
        assert(s.take(k) =~= s);
        lemma_digits_value_bound(s.drop_last(), 0);
        assert(s.drop_last().take(0) =~= Seq::<char>::empty());
        assert(is_digit(s[s.len() - 1]));
    } else {
        lemma_digits_value_bound(s.drop_last(), k);
        assert(s.drop_last().take(k) =~= s.take(k));
        assert(is_digit(s[s.len() - 1]));
    }
}

/// Reads decimal digits as a number no greater than `max`.
pub fn read_digits(s: &[char], max: u64) -> (r: Option<u64>)
    ensures
        match r {
            None => !all_digits(s@) || digits_value(s@) > max,
            Some(n) => all_digits(s@) && n == digits_value(s@) && n <= max,
        },
{
    if s.len() == 0 {
        return None;
    }
    let mut i: usize = 0;
    while i < s.len()
        invariant
            i <= s.len(),
            forall|k: int| 0 <= k < i ==> is_digit(#[trigger] s@[k]),
        decreases s.len() - i,
    {
        if !digit(s[i]) {
            assert(!is_digit(s@[i as int]));
            return None;
        }
        i += 1;
    }
    let mut n: u64 = 0;
    let mut k: usize = 0;
    assert(s@.take(0) =~= Seq::<char>::empty());
    while k < s.len()
        invariant
            k <= s.len(),
            forall|k: int| 0 <= k < s.len() ==> is_digit(#[trigger] s@[k]),
            n == digits_value(s@.take(k as int)),
            n <= max,
        decreases s.len() - k,
    {
        let d: u64 = (s[k] as u32 - 48) as u64;
        proof {
            lemma_digits_value_bound(s@, k + 1);
            assert(s@.take(k + 1).drop_last() =~= s@.take(k as int));
            assert(s@.take(k + 1).last() == s@[k as int]);
        }
        let t: u128 = n as u128 * 10 + d as u128;
        if t > max as u128 {
            return None;
        }
        n = t as u64;
        k += 1;
    }
    assert(s@.take(s@.len() as int) =~= s@);
    Some(n)
}

/// What `s` reads as, as a signed 32-bit number: an optional sign and
/// decimal digits.
pub open spec fn i32_value(s: Seq<char>) -> Option<int> {
    let negative = s.len() > 0 && s[0] == '-';
    let digits = if s.len() > 0 && (s[0] == '-' || s[0] == '+') {
        s.skip(1)
    } else {
        s
    };
    let value = if negative {
        -digits_value(digits)
    } else {
        digits_value(digits)
    };
    if all_digits(digits) && i32::MIN <= value <= i32::MAX {
        Some(value)
    } else {
        None
    }
}

/// Reads a signed 32-bit number.
pub fn read_i32(s: &[char]) -> (r: Option<i32>)
    ensures
        match r {
            None => i32_value(s@) is None,
            Some(n) => i32_value(s@) == Some(n as int),
        },
{
    let signed = s.len() > 0 && (s[0] == '-' || s[0] == '+');
    let negative = s.len() > 0 && s[0] == '-';
    let digits = if signed {
        slice_of(s, 1, s.len())
    } else {
        slice_of(s, 0, s.len())
    };
    proof {
        assert(s@.subrange(0, s@.len() as int) =~= s@);
        if signed {
            assert(s@.subrange(1, s@.len() as int) =~= s@.skip(1));
        }
        if all_digits(digits@) {
            lemma_digits_value_bound(digits@, 0);
            assert(digits@.take(0) =~= Seq::<char>::empty());
        }
    }
    match read_digits(&digits, 2_147_483_648) {
        None => None,
        Some(n) => {
            if negative {
                Some((-(n as i64)) as i32)
            } else if n <= 2_147_483_647 {
                Some(n as i32)
            } else {
                None
            }
        },
    }
}

/// `s` up to the first `c`.
pub open spec fn before_char(s: Seq<char>, c: char) -> Seq<char> {
    s.take(find_char(s, c) as int)
}

/// `s` behind the first `c`, where there is one.
pub open spec fn after_char(s: Seq<char>, c: char) -> Option<Seq<char>> {
    if s.contains(c) {
        Some(s.skip(find_char(s, c) as int + 1))
    } else {
        None
    }
}

/// `s` cut at the first `c`: what stands before it, and what behind it where
/// there is one.
pub fn cut_at(s: &[char], c: char) -> (r: (Vec<char>, Option<Vec<char>>))
    ensures
        r.0@ == before_char(s@, c),
        match r.1 {
            None => after_char(s@, c) is None,
            Some(t) => after_char(s@, c) == Some(t@),
        },
{
    let n = find_char_at(s, c);
    let head = slice_of(s, 0, n);
    assert(s@.subrange(0, n as int) =~= s@.take(n as int));
    if n < s.len() {
        let tail = slice_of(s, n + 1, s.len());
        proof {
            assert(s@[n as int] == c);
            assert(s@.subrange(n + 1, s@.len() as int) =~= s@.skip(n + 1));
        }
        (head, Some(tail))
    } else {
        (head, None)
    }
}

/// The lowercase of each ASCII letter of `s`.
pub open spec fn ascii_lowered(s: Seq<char>) -> Seq<char> {
    s.map_values(|c: char| ascii_lower(c))
}

/// The lowercase of each ASCII letter of `s`.
pub fn lowered(s: &[char]) -> (r: Vec<char>)
    ensures
        r@ == ascii_lowered(s@),
{
    let mut r: Vec<char> = Vec::new();
    let mut i: usize = 0;
    while i < s.len()
        invariant
            i == r.len() <= s.len(),
            forall|k: int| 0 <= k < i ==> r@[k] == ascii_lower(s@[k]),
        decreases s.len() - i,
    {
        r.push(to_ascii_lower(s[i]));
        i += 1;
    }
    assert(r@ =~= ascii_lowered(s@));
    r
}

/// Whether two lists of characters are the same.
pub fn same_chars(a: &[char], b: &[char]) -> (r: bool)
    ensures
        r == (a@ == b@),
{
    if a.len() != b.len() {
        return false;
    }
    let mut i: usize = 0;
    while i < a.len()
        invariant
            a.len() == b.len(),
            i <= a.len(),
            forall|k: int| 0 <= k < i ==> a@[k] == b@[k],
        decreases a.len() - i,
    {
        if a[i] != b[i] {
            return false;
        }
        i += 1;
    }
    assert(a@ =~= b@);
    true
}

/// `s` with every `c` replaced by `by`.
pub open spec fn replaced(s: Seq<char>, c: char, by: Seq<char>) -> Seq<char>
    decreases s.len(),
{
    if s.len() == 0 {
        Seq::empty()
    } else if s.last() == c {
        replaced(s.drop_last(), c, by) + by
    } else {
        replaced(s.drop_last(), c, by).push(s.last())
    }
}

/// `s` with every `c` replaced by `by`.
pub fn replace_char(s: &str, c: char, by: &str) -> (r: String)
    ensures
        r@ == replaced(s@, c, by@),
{
    let v = chars_of(s);
    let mut out = String::new();
    let mut i: usize = 0;
    while i < v.len()
        invariant
            i <= v.len(),
            v@ == s@,
            out@ == replaced(v@.take(i as int), c, by@),
        decreases v.len() - i,
    {
        proof {
            assert(v@.take(i + 1).drop_last() =~= v@.take(i as int));
            assert(v@.take(i + 1).last() == v@[i as int]);
        }
        if v[i] == c {
            out.push_str(by);
        } else {
            out.push(v[i]);
        }
        i += 1;
    }
    assert(v@.take(v@.len() as int) =~= v@);
    out
}

/// `std::str::from_utf8`: the text that the bytes encode, where they are
/// valid UTF-8.
#[verifier::external_body]
pub(crate) fn utf8_text(bytes: &[u8]) -> (r: Option<String>)
    ensures
        match r {
            None => !vstd::utf8::valid_utf8(bytes@),
            Some(s) => vstd::utf8::valid_utf8(bytes@) && s@ == vstd::utf8::decode_utf8(bytes@),
        },
{
    match std::str::from_utf8(bytes) {
        Ok(s) => Some(s.to_owned()),
        Err(_) => None,
    }
}

/// What `String::from_utf8_lossy` makes of some bytes.
pub uninterp spec fn lossy_text(bytes: Seq<u8>) -> Seq<char>;

/// `String::from_utf8_lossy`: the text that the bytes encode, with stand-ins
/// for the parts that are not valid UTF-8. Where those stand is left to the
/// name; valid bytes give their text.
#[verifier::external_body]
pub(crate) fn utf8_lossy(bytes: &[u8]) -> (r: String)
    ensures
        r@ == lossy_text(bytes@),
        vstd::utf8::valid_utf8(bytes@) ==> r@ == vstd::utf8::decode_utf8(bytes@),
{
    String::from_utf8_lossy(bytes).into_owned()
}

/// The position of the last `c` in `s`.
pub open spec fn rfind(s: Seq<char>, c: char) -> Option<nat>
    decreases s.len(),
{
    if s.len() == 0 {
        None
    } else if s.last() == c {
        Some((s.len() - 1) as nat)
    } else {
        rfind(s.drop_last(), c)
    }
}

/// The position of the last `c` in `s`.
pub fn rfind_char(s: &[char], c: char) -> (r: Option<usize>)
    ensures
        match r {
            None => rfind(s@, c) is None,
            Some(n) => rfind(s@, c) == Some(n as nat) && n < s@.len(),
        },
{
    let mut n: usize = s.len();
    assert(s@.take(n as int) =~= s@);
    while n > 0
        invariant
            n <= s.len(),
            rfind(s@, c) == rfind(s@.take(n as int), c),
        decreases n,
    {
        assert(s@.take(n as int).last() == s@[n - 1]);
        assert(s@.take(n as int).drop_last() =~= s@.take(n - 1));
        if s[n - 1] == c {
            return Some(n - 1);
        }
        n -= 1;
    }
    None
}

/// A character that is found lies inside the text.
pub proof fn lemma_rfind(s: Seq<char>, c: char)
    ensures
        rfind(s, c) matches Some(n) ==> n < s.len() && s[n as int] == c,
    decreases s.len(),
{
    if s.len() > 0 && s.last() != c {
        lemma_rfind(s.drop_last(), c);
    }
}

/// `s` without any `c` at its start.
pub open spec fn strip_start(s: Seq<char>, c: char) -> Seq<char>
    decreases s.len(),
{
    if s.len() > 0 && s[0] == c {
        strip_start(s.skip(1), c)
    } else {
        s
    }
}

/// `s` without any `c` at its start.
pub fn strip_start_of(s: &[char], c: char) -> (r: Vec<char>)
    ensures
        r@ == strip_start(s@, c),
{
    let mut n: usize = 0;
    assert(s@.skip(0) =~= s@);
    while n < s.len() && s[n] == c
        invariant
            n <= s.len(),
            strip_start(s@, c) == strip_start(s@.skip(n as int), c),
        decreases s.len() - n,
    {
        assert(s@.skip(n as int)[0] == s@[n as int]);
        assert(s@.skip(n as int).skip(1) =~= s@.skip(n + 1));
        n += 1;
    }
    proof {
        if n < s.len() {
            assert(s@.skip(n as int)[0] == s@[n as int]);
        }
        assert(s@.subrange(n as int, s@.len() as int) =~= s@.skip(n as int));
    }
    slice_of(s, n, s.len())
}

/// `s` without any `c` at its end.
pub open spec fn strip_end(s: Seq<char>, c: char) -> Seq<char>
    decreases s.len(),
{
    if s.len() > 0 && s.last() == c {
        strip_end(s.drop_last(), c)
    } else {
        s
    }
}

/// `s` without any `c` at its end.
pub fn strip_end_of(s: &[char], c: char) -> (r: Vec<char>)
    ensures
        r@ == strip_end(s@, c),
{
    let mut n: usize = s.len();
    assert(s@.take(n as int) =~= s@);
    while n > 0 && s[n - 1] == c
        invariant
            n <= s.len(),
            strip_end(s@, c) == strip_end(s@.take(n as int), c),
        decreases n,
    {
        assert(s@.take(n as int).last() == s@[n - 1]);
        assert(s@.take(n as int).drop_last() =~= s@.take(n - 1));
        n -= 1;
    }
    proof {
        if n > 0 {
            assert(s@.take(n as int).last() == s@[n - 1]);
        }
        assert(s@.subrange(0, n as int) =~= s@.take(n as int));
    }
    slice_of(s, 0, n)
}

/// Whether every character of `s` is a decimal digit.
pub open spec fn only_digits(s: Seq<char>) -> bool {
    forall|i: int| 0 <= i < s.len() ==> is_digit(#[trigger] s[i])
}

/// Whether every character of `s` is a decimal digit.
pub fn digits_only(s: &[char]) -> (r: bool)
    ensures
        r == only_digits(s@),
{
    let mut i: usize = 0;
    while i < s.len()
        invariant
            i <= s.len(),
            forall|k: int| 0 <= k < i ==> is_digit(#[trigger] s@[k]),
        decreases s.len() - i,
    {
        if !digit(s[i]) {
            assert(!is_digit(s@[i as int]));
            return false;
        }
        i += 1;
    }
    true
}

/// Whether `a` comes before `b` in the order of their characters.
pub open spec fn sorts_before(a: Seq<char>, b: Seq<char>) -> bool
    decreases a.len(),
{
    if b.len() == 0 {
        false
    } else if a.len() == 0 {
        true
    } else if a[0] == b[0] {
        sorts_before(a.skip(1), b.skip(1))
    } else {
        (a[0] as int) < (b[0] as int)
    }
}

/// Of two texts one comes first, unless they are the same.
pub proof fn lemma_sort_total(a: Seq<char>, b: Seq<char>)
    ensures
        a == b ==> !sorts_before(a, b),
        a != b ==> (sorts_before(a, b) <==> !sorts_before(b, a)),
    decreases a.len(),
{
    if a.len() > 0 && b.len() > 0 && a[0] == b[0] {
        lemma_sort_total(a.skip(1), b.skip(1));
        assert(a =~= seq![a[0]] + a.skip(1));
        assert(b =~= seq![b[0]] + b.skip(1));
    } else if a.len() == 0 && b.len() == 0 {
        assert(a =~= b);
    }
}

/// Coming first is handed on.
pub proof fn lemma_sort_chain(a: Seq<char>, b: Seq<char>, c: Seq<char>)
    requires
        sorts_before(a, b),
        sorts_before(b, c),
    ensures
        sorts_before(a, c),
    decreases a.len(),
{
    if a.len() > 0 && a[0] == b[0] && b[0] == c[0] {
        lemma_sort_chain(a.skip(1), b.skip(1), c.skip(1));
    }
}

/// Whether `a` comes before `b` in the order of their characters.
pub fn precedes(a: &str, b: &str) -> (r: bool)
    ensures
        r == sorts_before(a@, b@),
{
    let x = chars_of(a);
    let y = chars_of(b);
    let mut i: usize = 0;
    assert(x@.skip(0) =~= x@);
    assert(y@.skip(0) =~= y@);
    while i < x.len() && i < y.len()
        invariant
            i <= x.len(),
            i <= y.len(),
            x@ == a@,
            y@ == b@,
            sorts_before(x@, y@) == sorts_before(x@.skip(i as int), y@.skip(i as int)),
        decreases x.len() - i,
    {
        assert(x@.skip(i as int)[0] == x@[i as int]);
        assert(y@.skip(i as int)[0] == y@[i as int]);
        assert(x@.skip(i as int).skip(1) =~= x@.skip(i + 1));
        assert(y@.skip(i as int).skip(1) =~= y@.skip(i + 1));
        if x[i] != y[i] {
            return x[i] < y[i];
        }
        i += 1;
    }
    i < y.len()
}

/// `n` times the character `c`.
pub open spec fn repeated(c: char, n: nat) -> Seq<char> {
    Seq::new(n, |i: int| c)
}

/// Adds a text to `out`.
pub fn add_text(out: &mut Vec<char>, s: &str)
    ensures
        final(out)@ == old(out)@ + s@,
{
    let mut v = chars_of(s);
    out.append(&mut v);
}

/// Adds characters to `out`.
pub fn add_chars(out: &mut Vec<char>, s: &[char])
    ensures
        final(out)@ == old(out)@ + s@,
{
    let mut i: usize = 0;
    assert(out@ + s@.take(0) =~= out@);
    while i < s.len()
        invariant
            i <= s.len(),
            out@ == old(out)@ + s@.take(i as int),
        decreases s.len() - i,
    {
        out.push(s[i]);
        i += 1;
        assert(out@ =~= old(out)@ + s@.take(i as int));
    }
    assert(s@.take(i as int) =~= s@);
}

/// Adds `n` times the character `c` to `out`.
pub fn add_repeated(out: &mut Vec<char>, c: char, n: usize)
    ensures
        final(out)@ == old(out)@ + repeated(c, n as nat),
{
    let mut i: usize = 0;
    assert(out@ + repeated(c, 0) =~= out@);
    while i < n
        invariant
            i <= n,
            out@ == old(out)@ + repeated(c, i as nat),
        decreases n - i,
    {
        out.push(c);
        i += 1;
        assert(out@ =~= old(out)@ + repeated(c, i as nat));
    }
}

/// What is left of `v` from `from` on.
pub fn tail_of(v: &[char], from: usize) -> (r: &[char])
    requires
        from <= v@.len(),
    ensures
        r@ == v@.skip(from as int),
{
    let r = vstd::slice::slice_subrange(v, from, v.len());
    assert(r@ =~= v@.skip(from as int));
    r
}

/// The first `to` characters of `v`.
pub fn head_of(v: &[char], to: usize) -> (r: &[char])
    requires
        to <= v@.len(),
    ensures
        r@ == v@.take(to as int),
{
    let r = vstd::slice::slice_subrange(v, 0, to);
    assert(r@ =~= v@.take(to as int));
    r
}

/// Whether `s` starts with the text `p`.
pub fn starts(s: &[char], p: &str) -> (r: bool)
    ensures
        r == begins_with(s@, p@),
{
    let q = chars_of(p);
    assert(s@.skip(0) =~= s@);
    begins_at(s, 0, &q)
}

/// Whether the characters of `s` are those of `t`.
pub fn is_text(s: &[char], t: &str) -> (r: bool)
    ensures
        r == (s@ == t@),
{
    same_chars(s, &chars_of(t))
}

/// A line without the carriage return before its line feed.
pub open spec fn without_return(line: Seq<char>) -> Seq<char> {
    if line.len() > 0 && line.last() == '\r' {
        line.drop_last()
    } else {
        line
    }
}

/// The lines of a text. A line feed ends a line, with a carriage return
/// before it where there is one; what follows the last one is a line if it
/// is not empty.
pub open spec fn lines(s: Seq<char>) -> Seq<Seq<char>>
    decreases s.len(),
{
    if s.len() == 0 {
        Seq::empty()
    } else {
        let n = find_char(s, '\n') as int;
        if n >= s.len() {
            seq![s]
        } else {
            seq![without_return(s.take(n))] + lines(s.skip(n + 1))
        }
    }
}

/// A text that may be missing.
pub open spec fn maybe(s: Option<String>) -> Option<Seq<char>> {
    match s {
        None => None,
        Some(t) => Some(t@),
    }
}

/// The characters of each line.
pub open spec fn chars_views(v: Seq<Vec<char>>) -> Seq<Seq<char>> {
    v.map_values(|l: Vec<char>| l@)
}

/// The lines of a text.
pub fn split_lines(s: &str) -> (r: Vec<Vec<char>>)
    ensures
        chars_views(r@) == lines(s@),
{
    let v = chars_of(s);
    let mut out: Vec<Vec<char>> = Vec::new();
    let mut i: usize = 0;
    assert(v@.skip(0) =~= v@);
    assert(chars_views(out@) + lines(v@) =~= lines(v@));
    while i < v.len()
        invariant
            i <= v.len(),
            v@ == s@,
            lines(v@) == chars_views(out@) + lines(v@.skip(i as int)),
        decreases v.len() - i,
    {
        let ghost rest = v@.skip(i as int);
        let ghost before = out@;
        let n = find_char_at(tail_of(&v, i), '\n');
        if n >= v.len() - i {
            let line = slice_of(&v, i, v.len());
            assert(line@ =~= rest);
            out.push(line);
            i = v.len();
            assert(chars_views(out@) =~= chars_views(before).push(rest));
            assert(v@.skip(i as int) =~= Seq::empty());
            assert(chars_views(before) + seq![rest] =~= chars_views(out@) + lines(
                v@.skip(i as int),
            ));
        } else {
            let end: usize = if n > 0 && v[i + n - 1] == '\r' {
                i + n - 1
            } else {
                i + n
            };
            let line = slice_of(&v, i, end);
            proof {
                let whole = rest.take(n as int);
                if n > 0 {
                    assert(whole.last() == v@[i + n - 1]);
                }
                assert(line@ =~= without_return(whole));
                assert(rest.skip(n + 1) =~= v@.skip(i + n + 1));
            }
            let ghost l = line@;
            out.push(line);
            i = i + n + 1;
            assert(chars_views(out@) =~= chars_views(before).push(l));
            assert(chars_views(before) + (seq![l] + lines(v@.skip(i as int))) =~= chars_views(out@)
                + lines(v@.skip(i as int)));
        }
    }
    assert(v@.skip(i as int) =~= Seq::empty());
    assert(chars_views(out@) + Seq::<Seq<char>>::empty() =~= chars_views(out@));
    out
}

/// The first word of a text, empty if there is none.
pub open spec fn first_word(s: Seq<char>) -> Seq<char> {
    trim_start(s).take(word_len(trim_start(s)) as int)
}

/// The first word of a text, empty if there is none.
pub fn word_of(s: &[char]) -> (r: Vec<char>)
    ensures
        r@ == first_word(s@),
{
    let t = trim_start_chars(s);
    let mut n: usize = 0;
    assert(t@.skip(0) =~= t@);
    while n < t.len() && !is_whitespace(t[n])
        invariant
            n <= t.len(),
            word_len(t@) == n + word_len(t@.skip(n as int)),
        decreases t.len() - n,
    {
        assert(t@.skip(n as int)[0] == t@[n as int]);
        assert(t@.skip(n as int).skip(1) =~= t@.skip(n + 1));
        n += 1;
    }
    proof {
        if n < t.len() {
            assert(t@.skip(n as int)[0] == t@[n as int]);
        }
        assert(t@.subrange(0, n as int) =~= t@.take(n as int));
    }
    slice_of(&t, 0, n)
}

/// How many `c` a text starts with.
pub open spec fn run_of(s: Seq<char>, c: char) -> nat
    decreases s.len(),
{
    if s.len() > 0 && s[0] == c {
        1 + run_of(s.skip(1), c)
    } else {
        0
    }
}

/// How many `c` a text starts with.
pub fn count_run(s: &[char], c: char) -> (n: usize)
    ensures
        n == run_of(s@, c),
        n <= s@.len(),
        n < s@.len() ==> s@[n as int] != c,
{
    let mut n: usize = 0;
    assert(s@.skip(0) =~= s@);
    while n < s.len() && s[n] == c
        invariant
            n <= s.len(),
            run_of(s@, c) == n + run_of(s@.skip(n as int), c),
        decreases s.len() - n,
    {
        assert(s@.skip(n as int)[0] == s@[n as int]);
        assert(s@.skip(n as int).skip(1) =~= s@.skip(n + 1));
        n += 1;
    }
    proof {
        if n < s.len() {
            assert(s@.skip(n as int)[0] == s@[n as int]);
        }
    }
    n
}

/// The pieces between the occurrences of `c`, at least one.
pub open spec fn split_on(s: Seq<char>, c: char) -> Seq<Seq<char>>
    decreases s.len(),
{
    let n = find_char(s, c) as int;
    if n >= s.len() {
        seq![s]
    } else {
        seq![s.take(n)] + split_on(s.skip(n + 1), c)
    }
}

/// The pieces between the occurrences of `c`, at least one.
pub fn split_chars(s: &[char], c: char) -> (r: Vec<Vec<char>>)
    ensures
        chars_views(r@) == split_on(s@, c),
        r@.len() > 0,
{
    let mut out: Vec<Vec<char>> = Vec::new();
    let mut i: usize = 0;
    assert(s@.skip(0) =~= s@);
    assert(chars_views(out@) + split_on(s@, c) =~= split_on(s@, c));
    loop
        invariant
            i <= s.len(),
            split_on(s@, c) == chars_views(out@) + split_on(s@.skip(i as int), c),
        decreases s.len() - i,
    {
        let ghost rest = s@.skip(i as int);
        let ghost before = out@;
        let n = find_char_at(tail_of(s, i), c);
        let piece = slice_of(s, i, i + n);
        let ghost p = piece@;
        out.push(piece);
        assert(chars_views(out@) =~= chars_views(before).push(p));
        if i + n == s.len() {
            assert(p =~= rest);
            assert(chars_views(before) + seq![rest] =~= chars_views(out@));
            return out;
        }
        assert(p =~= rest.take(n as int));
        assert(rest.skip(n + 1) =~= s@.skip(i + n + 1));
        i = i + n + 1;
        assert(chars_views(before) + (seq![p] + split_on(s@.skip(i as int), c)) =~= chars_views(
            out@,
        ) + split_on(s@.skip(i as int), c));
    }
}

/// A character is found no further than the end.
pub proof fn lemma_find_char(s: Seq<char>, c: char)
    ensures
        find_char(s, c) <= s.len(),
    decreases s.len(),
{
    if s.len() > 0 && s[0] != c {
        lemma_find_char(s.skip(1), c);
    }
}

/// What is found lies inside the text.
pub proof fn lemma_find_seq(s: Seq<char>, p: Seq<char>)
    ensures
        find_seq(s, p) matches Some(n) ==> n + p.len() <= s.len(),
    decreases s.len(),
{
    if !begins_with(s, p) && s.len() > 0 {
        lemma_find_seq(s.skip(1), p);
    }
}

/// Replacing goes character by character, from the front as well.
pub proof fn lemma_replaced_front(s: Seq<char>, c: char, by: Seq<char>)
    requires
        s.len() > 0,
    ensures
        replaced(s, c, by) == (if s[0] == c {
            by
        } else {
            seq![s[0]]
        }) + replaced(s.skip(1), c, by),
    decreases s.len(),
{
    if s.len() == 1 {
        assert(s.drop_last() =~= Seq::empty());
        assert(s.skip(1) =~= Seq::empty());
        assert(replaced(s.drop_last(), c, by) =~= Seq::empty());
        assert(Seq::<char>::empty() + by =~= by);
        assert(by + Seq::<char>::empty() =~= by);
        assert(replaced(s, c, by) =~= (if s[0] == c {
            by
        } else {
            seq![s[0]]
        }) + replaced(s.skip(1), c, by));
    } else {
        lemma_replaced_front(s.drop_last(), c, by);
        assert(s.drop_last().skip(1) =~= s.skip(1).drop_last());
        assert(s.skip(1).last() == s.last());
        assert(replaced(s, c, by) =~= (if s[0] == c {
            by
        } else {
            seq![s[0]]
        }) + replaced(s.skip(1), c, by));
    }
}

/// Replacing goes character by character.
pub proof fn lemma_replaced_joined(a: Seq<char>, b: Seq<char>, c: char, by: Seq<char>)
    ensures
        replaced(a + b, c, by) == replaced(a, c, by) + replaced(b, c, by),
    decreases b.len(),
{
    if b.len() == 0 {
        assert(a + b =~= a);
        assert(replaced(a, c, by) + replaced(b, c, by) =~= replaced(a, c, by));
    } else {
        lemma_replaced_joined(a, b.drop_last(), c, by);
        assert((a + b).drop_last() =~= a + b.drop_last());
        assert(replaced(a + b, c, by) =~= replaced(a, c, by) + replaced(b, c, by));
    }
}

/// `s` with `by` in place of each `p` in it, from left to right.
pub open spec fn replaced_text(s: Seq<char>, p: Seq<char>, by: Seq<char>) -> Seq<char>
    decreases s.len(),
{
    if s.len() == 0 {
        Seq::empty()
    } else if p.len() > 0 && begins_with(s, p) {
        by + replaced_text(s.skip(p.len() as int), p, by)
    } else {
        seq![s[0]] + replaced_text(s.skip(1), p, by)
    }
}

/// `s` with `by` in place of each `p` in it, from left to right.
pub fn replace_text(s: &str, p: &str, by: &str) -> (r: String)
    requires
        p@.len() > 0,
    ensures
        r@ == replaced_text(s@, p@, by@),
{
    let v = chars_of(s);
    let q = chars_of(p);
    let mut out: Vec<char> = Vec::new();
    let mut i: usize = 0;
    assert(v@.skip(0) =~= v@);
    assert(out@ + replaced_text(v@, p@, by@) =~= replaced_text(v@, p@, by@));
    while i < v.len()
        invariant
            i <= v.len(),
            v@ == s@,
            q@ == p@,
            p@.len() > 0,
            replaced_text(v@, p@, by@) == out@ + replaced_text(v@.skip(i as int), p@, by@),
        decreases v.len() - i,
    {
        let ghost rest = v@.skip(i as int);
        let ghost before = out@;
        if begins_at(&v, i, &q) {
            add_text(&mut out, by);
            proof {
                let next = rest.skip(p@.len() as int);
                assert(next =~= v@.skip(i + p@.len()));
                assert(before + (by@ + replaced_text(next, p@, by@)) =~= out@ + replaced_text(
                    next,
                    p@,
                    by@,
                ));
            }
            i += q.len();
        } else {
            assert(rest[0] == v@[i as int]);
            out.push(v[i]);
            proof {
                let next = rest.skip(1);
                assert(next =~= v@.skip(i + 1));
                assert(before + (seq![rest[0]] + replaced_text(next, p@, by@)) =~= out@
                    + replaced_text(next, p@, by@));
            }
            i += 1;
        }
    }
    assert(v@.skip(i as int) =~= Seq::empty());
    assert(out@ + Seq::<char>::empty() =~= out@);
    string_of(&out)
}

// --- What these functions are for ---

/// Space, tab and the line ends are white space; no printing ASCII character
/// is.
pub proof fn lemma_whitespace(c: char)
    ensures
        c == ' ' || c == '\t' || c == '\n' || c == '\r' ==> whitespace(c),
        '!' <= c <= '~' ==> !whitespace(c),
{
}

/// Whether a text is white space throughout.
pub open spec fn blank(s: Seq<char>) -> bool {
    forall|i: int| 0 <= i < s.len() ==> whitespace(#[trigger] s[i])
}

/// Whether a text has no white space at either end.
pub open spec fn tight(s: Seq<char>) -> bool {
    s.len() > 0 ==> !whitespace(s[0]) && !whitespace(s.last())
}

proof fn lemma_trim_start_parts(s: Seq<char>)
    ensures
        trim_start(s).len() <= s.len(),
        s == s.take(s.len() - trim_start(s).len()) + trim_start(s),
        blank(s.take(s.len() - trim_start(s).len())),
        trim_start(s).len() > 0 ==> !whitespace(trim_start(s)[0]),
    decreases s.len(),
{
    if s.len() > 0 && whitespace(s[0]) {
        let r = s.skip(1);
        lemma_trim_start_parts(r);
        let n = s.len() - trim_start(s).len();
        assert(s.take(n) =~= seq![s[0]] + r.take(n - 1));
        assert(s =~= seq![s[0]] + r);
        assert(s =~= s.take(n) + trim_start(s));
    } else {
        assert(s =~= s.take(0) + s);
    }
}

proof fn lemma_trim_end_parts(s: Seq<char>)
    ensures
        trim_end(s).len() <= s.len(),
        s == trim_end(s) + s.skip(trim_end(s).len() as int),
        blank(s.skip(trim_end(s).len() as int)),
        trim_end(s).len() > 0 ==> !whitespace(trim_end(s).last()),
    decreases s.len(),
{
    if s.len() > 0 && whitespace(s.last()) {
        let r = s.drop_last();
        lemma_trim_end_parts(r);
        let n = trim_end(s).len() as int;
        assert(s.skip(n) =~= r.skip(n).push(s.last()));
        assert(s =~= (trim_end(s) + r.skip(n)).push(s.last()));
        assert(s =~= trim_end(s) + s.skip(n));
    } else {
        assert(s.skip(s.len() as int) =~= Seq::empty());
        assert(s =~= s + s.skip(s.len() as int));
    }
}

/// Trimming takes away white space at both ends and nothing else: the text
/// is white space, what is left, and white space, and what is left has none
/// at its ends.
pub proof fn lemma_trim_parts(s: Seq<char>) -> (r: (Seq<char>, Seq<char>))
    ensures
        s == r.0 + trim(s) + r.1,
        blank(r.0),
        blank(r.1),
        tight(trim(s)),
{
    lemma_trim_start_parts(s);
    let t = trim_start(s);
    lemma_trim_end_parts(t);
    let a = s.take(s.len() - t.len());
    let b = t.skip(trim(s).len() as int);
    assert(s =~= a + trim(s) + b);
    if trim(s).len() > 0 {
        assert(trim(s)[0] == t[0]);
    }
    (a, b)
}

/// A text without white space at its ends is left as it is.
pub proof fn lemma_trim_tight(s: Seq<char>)
    requires
        tight(s),
    ensures
        trim(s) == s,
{
}

/// The first occurrence of a character: it stands there, and nowhere before.
pub proof fn lemma_find_char_first(s: Seq<char>, c: char)
    ensures
        find_char(s, c) <= s.len(),
        find_char(s, c) < s.len() ==> s[find_char(s, c) as int] == c,
        forall|i: int| 0 <= i < find_char(s, c) ==> #[trigger] s[i] != c,
    decreases s.len(),
{
    if s.len() > 0 && s[0] != c {
        lemma_find_char_first(s.skip(1), c);
        assert forall|i: int| 0 <= i < find_char(s, c) implies #[trigger] s[i] != c by {
            if i > 0 {
                assert(s.skip(1)[i - 1] == s[i]);
            }
        }
    }
}

/// The last occurrence of a character: it stands there, and nowhere behind.
pub proof fn lemma_rfind_last(s: Seq<char>, c: char)
    ensures
        match rfind(s, c) {
            None => forall|i: int| 0 <= i < s.len() ==> #[trigger] s[i] != c,
            Some(n) => n < s.len() && s[n as int] == c && forall|i: int|
                n < i < s.len() ==> #[trigger] s[i] != c,
        },
    decreases s.len(),
{
    if s.len() > 0 && s.last() != c {
        lemma_rfind_last(s.drop_last(), c);
        assert forall|i: int|
            (match rfind(s, c) {
                None => -1int,
                Some(n) => n as int,
            }) < i < s.len() implies #[trigger] s[i] != c by {
            if i < s.len() - 1 {
                assert(s.drop_last()[i] == s[i]);
            }
        }
    }
}

/// The first occurrence of a text: it stands there, and nowhere before.
pub proof fn lemma_find_seq_first(s: Seq<char>, p: Seq<char>)
    ensures
        match find_seq(s, p) {
            None => forall|i: int|
                0 <= i && i + p.len() <= s.len() ==> #[trigger] s.subrange(i, i + p.len()) != p,
            Some(n) => n + p.len() <= s.len() && s.subrange(n as int, (n + p.len()) as int) == p
                && forall|i: int|
                0 <= i < n ==> #[trigger] s.subrange(i, i + p.len()) != p,
        },
    decreases s.len(),
{
    assert(p.len() <= s.len() ==> s.take(p.len() as int) =~= s.subrange(0, p.len() as int));
    if !begins_with(s, p) && s.len() > 0 {
        let t = s.skip(1);
        lemma_find_seq_first(t, p);
        assert forall|i: int|
            0 <= i && i + p.len() <= s.len() && (match find_seq(s, p) {
                None => true,
                Some(n) => i < n,
            }) implies #[trigger] s.subrange(i, i + p.len()) != p by {
            if i > 0 {
                assert(s.subrange(i, i + p.len()) =~= t.subrange(i - 1, i - 1 + p.len()));
            }
        }
        if let Some(k) = find_seq(t, p) {
            let n = k as int;
            assert(s.subrange(n + 1, n + 1 + p.len()) =~= t.subrange(n, n + p.len()));
        }
    } else if !begins_with(s, p) {
        assert forall|i: int| 0 <= i && i + p.len() <= s.len() implies #[trigger] s.subrange(
            i,
            i + p.len(),
        ) != p by {
            assert(i == 0);
        }
    }
}

/// The pieces between separators, joined by the separator, are the text
/// again, and none of them holds a separator.
pub proof fn lemma_split_joins(s: Seq<char>, c: char)
    ensures
        join(split_on(s, c), seq![c]) == s,
        forall|i: int| 0 <= i < split_on(s, c).len() ==> !(#[trigger] split_on(s, c)[i]).contains(c),
    decreases s.len(),
{
    lemma_find_char_first(s, c);
    let n = find_char(s, c) as int;
    let v = split_on(s, c);
    if n < s.len() {
        let rest = split_on(s.skip(n + 1), c);
        lemma_split_joins(s.skip(n + 1), c);
        lemma_split_some(s.skip(n + 1), c);
        lemma_join_front(s.take(n), rest, seq![c]);
        assert(s =~= s.take(n) + seq![c] + s.skip(n + 1));
        assert forall|i: int| 0 <= i < v.len() implies !(#[trigger] v[i]).contains(c) by {
            if i > 0 {
                assert(v[i] == rest[i - 1]);
            } else {
                assert(v[0] == s.take(n));
            }
        }
    } else {
        assert(v[0] == s);
    }
}

proof fn lemma_split_some(s: Seq<char>, c: char)
    ensures
        split_on(s, c).len() > 0,
{
}

/// Joining from the front: the first text, the separator, and the rest joined.
pub proof fn lemma_join_front(a: Seq<char>, v: Seq<Seq<char>>, sep: Seq<char>)
    requires
        v.len() > 0,
    ensures
        join(seq![a] + v, sep) == a + sep + join(v, sep),
    decreases v.len(),
{
    let w = seq![a] + v;
    if v.len() == 1 {
        assert(w.drop_last() =~= seq![a]);
        assert(join(w.drop_last(), sep) == a);
        assert(w.last() == v[0]);
    } else {
        assert(w.drop_last() =~= seq![a] + v.drop_last());
        lemma_join_front(a, v.drop_last(), sep);
        assert(join(w, sep) =~= a + sep + join(v, sep));
    }
}

/// A number written in decimal reads back as the number, in digits only and
/// without a leading zero.
pub proof fn lemma_decimal_reads_back(n: nat)
    ensures
        all_digits(decimal(n)),
        digits_value(decimal(n)) == n,
        n > 0 ==> decimal(n)[0] != '0',
    decreases n,
{
    let d = decimal(n);
    if n >= 10 {
        lemma_decimal_reads_back(n / 10);
        let h = decimal(n / 10);
        assert(d.drop_last() =~= h);
        assert forall|i: int| 0 <= i < d.len() implies is_digit(#[trigger] d[i]) by {
            if i < h.len() {
                assert(d[i] == h[i]);
            }
        }
        assert(d[0] == h[0]);
    } else {
        assert(d.drop_last() =~= Seq::empty());
        assert(digits_value(d.drop_last()) == 0);
    }
}

/// A number with its sign reads back as the number.
pub proof fn lemma_signed_reads_back(n: i32)
    ensures
        i32_value(signed_decimal(n as int)) == Some(n as int),
{
    let s = signed_decimal(n as int);
    if n < 0 {
        lemma_decimal_reads_back((-n) as nat);
        assert(s.skip(1) =~= decimal((-n) as nat));
    } else {
        lemma_decimal_reads_back(n as nat);
        assert(is_digit(s[0]));
    }
}

/// Lowercasing moves the capital letters, each to its small one, and nothing
/// else.
pub proof fn lemma_ascii_lower(c: char)
    ensures
        'A' <= c <= 'Z' ==> ascii_lower(c) as int - 'a' as int == c as int - 'A' as int,
        !('A' <= c <= 'Z') ==> ascii_lower(c) == c,
{
}

/// A text cut at a character is what stands before, the character, and what
/// stands behind.
pub proof fn lemma_cut_parts(s: Seq<char>, c: char)
    ensures
        !before_char(s, c).contains(c),
        match after_char(s, c) {
            None => before_char(s, c) == s && !s.contains(c),
            Some(b) => s == before_char(s, c) + seq![c] + b,
        },
{
    lemma_find_char_first(s, c);
    let n = find_char(s, c) as int;
    if s.contains(c) {
        let i = choose|i: int| 0 <= i < s.len() && s[i] == c;
        assert(n <= i);
        assert(s =~= s.take(n) + seq![c] + s.skip(n + 1));
    } else {
        if n < s.len() {
            assert(s.contains(s[n]));
        }
        assert(s.take(n) =~= s);
    }
}

/// The characters of a text that are not white space.
pub open spec fn inked(s: Seq<char>) -> Seq<char>
    decreases s.len(),
{
    if s.len() == 0 {
        Seq::empty()
    } else if whitespace(s[0]) {
        inked(s.skip(1))
    } else {
        seq![s[0]] + inked(s.skip(1))
    }
}

/// Texts end to end.
pub open spec fn end_to_end(v: Seq<Seq<char>>) -> Seq<char>
    decreases v.len(),
{
    if v.len() == 0 {
        Seq::empty()
    } else {
        v[0] + end_to_end(v.skip(1))
    }
}

proof fn lemma_inked_word(s: Seq<char>, n: int)
    requires
        n == word_len(s),
    ensures
        0 <= n <= s.len(),
        inked(s) == s.take(n) + inked(s.skip(n)),
        forall|i: int| 0 <= i < n ==> !whitespace(#[trigger] s[i]),
    decreases s.len(),
{
    if s.len() > 0 && !whitespace(s[0]) {
        lemma_inked_word(s.skip(1), n - 1);
        assert(s.skip(1).skip(n - 1) =~= s.skip(n));
        assert(inked(s) =~= s.take(n) + inked(s.skip(n)));
        assert forall|i: int| 0 <= i < n implies !whitespace(#[trigger] s[i]) by {
            if i > 0 {
                assert(s.skip(1)[i - 1] == s[i]);
            }
        }
    } else {
        assert(s.skip(0) =~= s);
        assert(inked(s) =~= s.take(0) + inked(s.skip(0)));
    }
}

proof fn lemma_inked_trimmed(s: Seq<char>)
    ensures
        inked(trim_start(s)) == inked(s),
    decreases s.len(),
{
    if s.len() > 0 && whitespace(s[0]) {
        lemma_inked_trimmed(s.skip(1));
    }
}

/// The words of a text are what is not white space in it, in order: none is
/// empty or holds white space, and together they are all the rest.
pub proof fn lemma_words_are_the_text(s: Seq<char>)
    ensures
        end_to_end(words(s)) == inked(s),
        forall|i: int| 0 <= i < words(s).len() ==> (#[trigger] words(s)[i]).len() > 0,
        forall|i: int, k: int|
            0 <= i < words(s).len() && 0 <= k < words(s)[i].len() ==> !whitespace(
                #[trigger] words(s)[i][k],
            ),
    decreases s.len(),
{
    let t = trim_start(s);
    lemma_trim_start_len(s);
    lemma_inked_trimmed(s);
    lemma_trim_start_parts(s);
    if t.len() > 0 {
        let n = word_len(t) as int;
        lemma_word_len(t);
        lemma_inked_word(t, n);
        let rest = t.skip(n);
        lemma_words_are_the_text(rest);
        let v = words(s);
        assert(v =~= seq![t.take(n)] + words(rest));
        assert(v.skip(1) =~= words(rest));
        assert forall|i: int| 0 <= i < v.len() implies (#[trigger] v[i]).len() > 0 by {
            if i > 0 {
                assert(v[i] == words(rest)[i - 1]);
            }
        }
        assert forall|i: int, k: int| 0 <= i < v.len() && 0 <= k < v[i].len() implies !whitespace(
            #[trigger] v[i][k],
        ) by {
            if i > 0 {
                assert(v[i] == words(rest)[i - 1]);
                assert(!whitespace(words(rest)[i - 1][k]));
            } else {
                assert(v[0][k] == t[k]);
            }
        }
    } else {
        assert(inked(t) =~= Seq::empty());
    }
}

/// A text is cut at the first of a character: what stands before it, if that
/// holds none, and what stands behind.
pub proof fn lemma_cut_at_first(a: Seq<char>, c: char, b: Seq<char>)
    requires
        !a.contains(c),
    ensures
        before_char(a + seq![c] + b, c) == a,
        after_char(a + seq![c] + b, c) == Some(b),
        before_char(a, c) == a,
        after_char(a, c) is None,
        find_char(a + seq![c] + b, c) == a.len(),
{
    let s = a + seq![c] + b;
    lemma_find_char_first(s, c);
    let n = find_char(s, c) as int;
    assert(s[a.len() as int] == c);
    assert(s.contains(c));
    if n < a.len() {
        assert(s[n] == a[n]);
        assert(a.contains(a[n]));
    }
    if n > a.len() {
        assert(s[a.len() as int] != c);
    }
    assert(s.take(n) =~= a);
    assert(s.skip(n + 1) =~= b);
    lemma_cut_parts(a, c);
}

} // verus!
