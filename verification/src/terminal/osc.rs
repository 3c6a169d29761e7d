//! Byte-level scanner for the OSC sequences Oxide consumes itself: the OSC
//! 133 prompt markers the shell integration emits, OSC 7 (cwd), and OSC 9 /
//! 777 (desktop notifications).
//!
//! It runs on the raw byte stream and is resumable across chunks: BEL or
//! `ESC \` terminates, CAN/SUB abort, other C0 controls are ignored (so a
//! newline inside a command line is harmless). The payload is capped so a
//! malformed sequence can't grow a buffer without bound.
use vstd::prelude::*;
use vstd::utf8::{decode_utf8, encode_utf8, valid_utf8};

use crate::bytes::{bytes_of, lemma_zero_at, find_zero, zero_at};
use crate::text::{
    after_char, ascii_lowered, before_char, begins_at, begins_with, chars_of, cut_at, decimal,
    find_char, find_char_at, find_chars, find_seq, i32_value, is_digit, lemma_cut_at_first,
    lemma_decimal_reads_back, lemma_find_seq_first, lemma_signed_reads_back, lemma_trim_tight,
    lossy_text, lowered, read_i32, same_chars, signed_decimal, slice_of, string_of, tight, trim,
    trim_chars, utf8_lossy, utf8_text,
};

verus! {

/// What a marker means, with any payload decoded.
#[derive(Debug, Clone, PartialEq)]
pub enum MarkerKind {
    /// OSC 133;A: the shell is about to draw a prompt.
    PromptStart,
    /// OSC 133;B: the prompt is drawn; what follows is user input.
    InputStart,
    /// OSC 133;C: a command is starting. Oxide's integration adds the typed
    /// line as `cmdline=…`.
    CommandStart { cmdline: Option<String> },
    /// OSC 133;D;<exit>: the command finished. `None` when the exit code is
    /// missing or unparseable.
    CommandEnd { exit: Option<i32> },
    /// OSC 7: the shell's working directory, local hosts only.
    Cwd(String),
    /// OSC 9 / OSC 777;notify: a program asked for a desktop notification.
    Notify { title: Option<String>, body: String },
}

/// A marker with where it landed: the cursor's absolute row
/// (history + screen line) and column at the moment it was parsed.
#[derive(Debug, Clone, PartialEq)]
pub struct Marker {
    pub kind: MarkerKind,
    pub row: usize,
    pub column: usize,
    pub alt_screen: bool,
}

/// The text of a marker.
pub enum Mark {
    PromptStart,
    InputStart,
    CommandStart { cmdline: Option<Seq<char>> },
    CommandEnd { exit: Option<int> },
    Cwd(Seq<char>),
    Notify { title: Option<Seq<char>>, body: Seq<char> },
}

pub open spec fn text_of(s: Option<String>) -> Option<Seq<char>> {
    match s {
        None => None,
        Some(s) => Some(s@),
    }
}

impl View for MarkerKind {
    type V = Mark;

    open spec fn view(&self) -> Mark {
        match *self {
            MarkerKind::PromptStart => Mark::PromptStart,
            MarkerKind::InputStart => Mark::InputStart,
            MarkerKind::CommandStart { cmdline } => Mark::CommandStart { cmdline: text_of(cmdline) },
            MarkerKind::CommandEnd { exit } => Mark::CommandEnd {
                exit: match exit {
                    None => None,
                    Some(n) => Some(n as int),
                },
            },
            MarkerKind::Cwd(p) => Mark::Cwd(p@),
            MarkerKind::Notify { title, body } => Mark::Notify {
                title: text_of(title),
                body: body@,
            },
        }
    }
}

/// Longest OSC payload that is accumulated. OSC 7 carries a path and OSC 777
/// a notification body; anything longer is not one of ours.
pub const MAX_PAYLOAD: usize = 4096;

#[derive(Debug, Clone, Copy, PartialEq, Eq, Structural)]
pub enum State {
    Ground,
    /// Saw ESC; next byte decides.
    Escape,
    /// Inside `ESC ]`, collecting the payload.
    Osc,
    /// Inside the payload and saw ESC: `\` ends it, anything else aborts.
    OscEscape,
    /// Payload overflowed: swallow until the terminator, emit nothing.
    Overflow,
}

/// Where a scan stands: the state, and the payload collected so far.
pub struct Scan {
    pub state: State,
    pub payload: Seq<u8>,
}

/// A fresh scan.
pub open spec fn idle() -> Scan {
    Scan { state: State::Ground, payload: Seq::empty() }
}

/// The scan after one more byte, and whether a payload ends with it.
pub open spec fn step(s: Scan, b: u8) -> (Scan, bool) {
    match s.state {
        State::Ground => if b == 0x1b {
            (Scan { state: State::Escape, ..s }, false)
        } else {
            (s, false)
        },
        State::Escape => if b == 0x5d {
            (Scan { state: State::Osc, payload: Seq::empty() }, false)
        } else if b == 0x1b {
            (s, false)
        } else {
            (Scan { state: State::Ground, ..s }, false)
        },
        State::Osc => if b == 0x07 {
            (Scan { state: State::Ground, ..s }, true)
        } else if b == 0x1b {
            (Scan { state: State::OscEscape, ..s }, false)
        } else if b == 0x18 || b == 0x1a {
            (Scan { state: State::Ground, ..s }, false)
        } else if b < 0x20 {
            (s, false)
        } else if s.payload.len() < MAX_PAYLOAD {
            (Scan { payload: s.payload.push(b), ..s }, false)
        } else {
            (Scan { state: State::Overflow, payload: Seq::empty() }, false)
        },
        State::Overflow => if b == 0x07 || b == 0x18 || b == 0x1a {
            (Scan { state: State::Ground, ..s }, false)
        } else if b == 0x1b {
            (Scan { state: State::OscEscape, ..s }, false)
        } else {
            (s, false)
        },
        State::OscEscape => if b == 0x5c {
            (Scan { state: State::Ground, ..s }, true)
        } else if b == 0x5d {
            (Scan { state: State::Osc, payload: Seq::empty() }, false)
        } else if b == 0x1b {
            (Scan { state: State::Escape, ..s }, false)
        } else {
            (Scan { state: State::Ground, ..s }, false)
        },
    }
}

/// The scan after some more bytes.
pub open spec fn scanned(s: Scan, bytes: Seq<u8>) -> Scan
    decreases bytes.len(),
{
    if bytes.len() == 0 {
        s
    } else {
        step(scanned(s, bytes.drop_last()), bytes.last()).0
    }
}

/// The markers that complete within some bytes, each with the offset just
/// past its terminator.
pub open spec fn marks(s: Scan, bytes: Seq<u8>, host: Option<Seq<char>>) -> Seq<(usize, Mark)>
    decreases bytes.len(),
{
    if bytes.len() == 0 {
        Seq::empty()
    } else {
        let before = marks(s, bytes.drop_last(), host);
        let (next, done) = step(scanned(s, bytes.drop_last()), bytes.last());
        match read_payload(next.payload, host) {
            Some(m) => if done {
                before.push((bytes.len() as usize, m))
            } else {
                before
            },
            None => before,
        }
    }
}

/// The markers of a list found by a scan.
pub open spec fn found(v: Seq<(usize, MarkerKind)>) -> Seq<(usize, Mark)> {
    v.map_values(|p: (usize, MarkerKind)| (p.0, p.1@))
}

#[derive(Debug)]
pub struct OscScanner {
    state: State,
    payload: Vec<u8>,
    /// This machine's name, where it is known: OSC 7 from elsewhere is not
    /// ours.
    host: Option<String>,
}

impl View for OscScanner {
    type V = Scan;

    closed spec fn view(&self) -> Scan {
        Scan { state: self.state, payload: self.payload@ }
    }
}

impl OscScanner {
    /// The name that local hosts go by.
    pub closed spec fn host(&self) -> Option<Seq<char>> {
        text_of(self.host)
    }

    pub fn new(host: Option<String>) -> (s: Self)
        ensures
            s@ == idle(),
            s.host() == text_of(host),
    {
        let payload: Vec<u8> = Vec::new();
        assert(payload@ =~= Seq::<u8>::empty());
        OscScanner { state: State::Ground, payload, host }
    }

    fn advance(&mut self, b: u8) -> (done: bool)
        ensures
            (final(self)@, done) == step(old(self)@, b),
            final(self).host == old(self).host,
    {
        match self.state {
            State::Ground => {
                if b == 0x1b {
                    self.state = State::Escape;
                }
                false
            },
            State::Escape => {
                if b == 0x5d {
                    self.payload.clear();
                    self.state = State::Osc;
                } else if b != 0x1b {
                    self.state = State::Ground;
                }
                false
            },
            State::Osc => {
                if b == 0x07 {
                    self.state = State::Ground;
                    return true;
                }
                if b == 0x1b {
                    self.state = State::OscEscape;
                } else if b == 0x18 || b == 0x1a {
                    self.state = State::Ground;
                } else if b >= 0x20 {
                    if self.payload.len() < MAX_PAYLOAD {
                        self.payload.push(b);
                    } else {
                        self.payload.clear();
                        self.state = State::Overflow;
                    }
                }
                false
            },
            State::Overflow => {
                if b == 0x07 || b == 0x18 || b == 0x1a {
                    self.state = State::Ground;
                } else if b == 0x1b {
                    self.state = State::OscEscape;
                }
                false
            },
            State::OscEscape => {
                if b == 0x5c {
                    self.state = State::Ground;
                    return true;
                }
                if b == 0x5d {
                    // `ESC ]` inside an unterminated OSC: start over.
                    self.payload.clear();
                    self.state = State::Osc;
                } else if b == 0x1b {
                    self.state = State::Escape;
                } else {
                    self.state = State::Ground;
                }
                false
            },
        }
    }

    /// Scan a chunk, returning every recognised sequence that *completed* in
    /// it, with the offset just past its terminator. A sequence split across
    /// chunks is reported in the chunk where it ends.
    pub fn scan(&mut self, chunk: &[u8]) -> (out: Vec<(usize, MarkerKind)>)
        ensures
            final(self)@ == scanned(old(self)@, chunk@),
            found(out@) == marks(old(self)@, chunk@, old(self).host()),
            final(self).host() == old(self).host(),
    {
        let mut out: Vec<(usize, MarkerKind)> = Vec::new();
        let ghost start = self@;
        let ghost host = self.host();
        assert(found(out@) =~= Seq::<(usize, Mark)>::empty());
        let mut i: usize = 0;
        while i < chunk.len()
            invariant
                i <= chunk.len(),
                start == old(self)@,
                host == old(self).host(),
                self.host() == host,
                self@ == scanned(start, chunk@.take(i as int)),
                found(out@) == marks(start, chunk@.take(i as int), host),
            decreases chunk.len() - i,
        {
            proof {
                assert(chunk@.take(i + 1).drop_last() =~= chunk@.take(i as int));
                assert(chunk@.take(i + 1).last() == chunk@[i as int]);
            }
            let done = self.advance(chunk[i]);
            if done {
                let kind = match &self.host {
                    None => parse_payload(self.payload.as_slice(), None),
                    Some(h) => parse_payload(self.payload.as_slice(), Some(h.as_str())),
                };
                if let Some(kind) = kind {
                    let ghost before = out@;
                    let ghost mark = kind@;
                    out.push((i + 1, kind));
                    assert(found(out@) =~= found(before).push(((i + 1) as usize, mark)));
                }
            }
            i += 1;
        }
        assert(chunk@.take(chunk@.len() as int) =~= chunk@);
        out
    }
}

pub open spec fn str_text(s: Option<&str>) -> Option<Seq<char>> {
    match s {
        None => None,
        Some(s) => Some(s@),
    }
}

/// What a payload (everything between `ESC ]` and the terminator) says, or
/// `None` for sequences that aren't ours.
pub open spec fn read_payload(payload: Seq<u8>, host: Option<Seq<char>>) -> Option<Mark> {
    if valid_utf8(payload) {
        read_text(decode_utf8(payload), host)
    } else {
        None
    }
}

/// What the text of a payload says.
pub open spec fn read_text(text: Seq<char>, host: Option<Seq<char>>) -> Option<Mark> {
    let code = before_char(text, ';');
    let rest = match after_char(text, ';') {
        None => Seq::empty(),
        Some(r) => r,
    };
    if code == "133"@ {
        read_133(rest)
    } else if code == "7"@ {
        match read_cwd(rest, host) {
            None => None,
            Some(p) => Some(Mark::Cwd(p)),
        }
    } else if code == "9"@ {
        // `9;4;…` draws progress bars elsewhere; only a plain message is a
        // notification.
        if rest.len() == 0 || begins_with(rest, "4;"@) {
            None
        } else {
            Some(Mark::Notify { title: None, body: rest })
        }
    } else if code == "777"@ {
        read_777(rest)
    } else {
        None
    }
}

/// `notify;<title>;<body>`.
pub open spec fn read_777(rest: Seq<char>) -> Option<Mark> {
    if before_char(rest, ';') != "notify"@ {
        None
    } else {
        let tail = match after_char(rest, ';') {
            None => Seq::empty(),
            Some(t) => t,
        };
        let title = before_char(tail, ';');
        let body = match after_char(tail, ';') {
            None => Seq::empty(),
            Some(b) => b,
        };
        if title.len() == 0 && body.len() == 0 {
            None
        } else {
            Some(
                Mark::Notify {
                    title: if title.len() == 0 {
                        None
                    } else {
                        Some(title)
                    },
                    body,
                },
            )
        }
    }
}

/// The command line behind `cmdline=`, where there is one with text in it.
pub open spec fn read_cmdline(rest: Seq<char>) -> Option<Seq<char>> {
    match find_seq(rest, "cmdline="@) {
        None => None,
        Some(n) => {
            let line = trim(rest.skip(n as int + "cmdline="@.len()));
            if line.len() == 0 {
                None
            } else {
                Some(line)
            }
        },
    }
}

/// The prompt markers.
pub open spec fn read_133(rest: Seq<char>) -> Option<Mark> {
    let kind = before_char(rest, ';');
    if kind == "A"@ {
        Some(Mark::PromptStart)
    } else if kind == "B"@ {
        Some(Mark::InputStart)
    } else if kind == "C"@ {
        Some(Mark::CommandStart { cmdline: read_cmdline(rest.skip(1)) })
    } else if kind == "D"@ {
        Some(
            Mark::CommandEnd {
                exit: match after_char(rest, ';') {
                    None => None,
                    Some(t) => i32_value(trim(before_char(t, ';'))),
                },
            },
        )
    } else {
        None
    }
}

/// `file://host/path`: the path, for hosts that mean this machine. A remote
/// shell's cwd (over ssh) is real but not somewhere the file tree can go, so
/// it is ignored.
pub open spec fn read_cwd(url: Seq<char>, host: Option<Seq<char>>) -> Option<Seq<char>> {
    if !begins_with(url, "file://"@) {
        None
    } else {
        let rest = url.skip("file://"@.len() as int);
        if !rest.contains('/') {
            None
        } else if !local(before_char(rest, '/'), host) {
            None
        } else {
            let path = rest.skip(find_char(rest, '/') as int);
            let decoded = lossy_text(percent_decoded(encode_utf8(path)));
            if decoded.len() == 0 {
                None
            } else {
                Some(decoded)
            }
        }
    }
}

/// A host name up to its first dot, in lower case.
pub open spec fn short_host(h: Seq<char>) -> Seq<char> {
    ascii_lowered(before_char(h, '.'))
}

/// Whether `host` means this machine.
pub open spec fn local(host: Seq<char>, mine: Option<Seq<char>>) -> bool {
    ||| host.len() == 0
    ||| host == "localhost"@
    ||| mine matches Some(m) && short_host(host) == short_host(m)
}

/// The value of a hexadecimal digit.
pub open spec fn hex_value(b: u8) -> Option<int> {
    if 0x30 <= b <= 0x39 {
        Some(b - 0x30)
    } else if 0x61 <= b <= 0x66 {
        Some(b - 0x61 + 10)
    } else if 0x41 <= b <= 0x46 {
        Some(b - 0x41 + 10)
    } else {
        None
    }
}

/// The byte that two characters behind a `%` stand for: two hexadecimal
/// digits, or a plus sign and one.
pub open spec fn hex_pair(a: u8, b: u8) -> Option<int> {
    match (hex_value(a), hex_value(b)) {
        (Some(x), Some(y)) => Some(16 * x + y),
        (None, Some(y)) => if a == 0x2b {
            Some(y)
        } else {
            None
        },
        _ => None,
    }
}

/// The bytes with every `%` escape replaced by the byte it stands for.
pub open spec fn percent_decoded(s: Seq<u8>) -> Seq<u8>
    decreases s.len(),
{
    if s.len() == 0 {
        Seq::empty()
    } else if s[0] == 0x25 && s.len() > 2 && hex_pair(s[1], s[2]) is Some {
        seq![hex_pair(s[1], s[2])->0 as u8] + percent_decoded(s.skip(3))
    } else {
        seq![s[0]] + percent_decoded(s.skip(1))
    }
}

fn hex(b: u8) -> (r: Option<u8>)
    ensures
        match r {
            None => hex_value(b) is None,
            Some(v) => hex_value(b) == Some(v as int) && v < 16,
        },
{
    if b >= 0x30 && b <= 0x39 {
        Some(b - 0x30)
    } else if b >= 0x61 && b <= 0x66 {
        Some(b - 0x61 + 10)
    } else if b >= 0x41 && b <= 0x46 {
        Some(b - 0x41 + 10)
    } else {
        None
    }
}

fn percent_decode(s: &[u8]) -> (out: Vec<u8>)
    ensures
        out@ == percent_decoded(s@),
{
    let mut out: Vec<u8> = Vec::new();
    let mut i: usize = 0;
    assert(s@.skip(0) =~= s@);
    while i < s.len()
        invariant
            i <= s.len(),
            percent_decoded(s@) == out@ + percent_decoded(s@.skip(i as int)),
        decreases s.len() - i,
    {
        let ghost rest = s@.skip(i as int);
        let ghost before = out@;
        assert(rest[0] == s@[i as int]);
        if s[i] == 0x25 && s.len() - i > 2 {
            assert(rest[1] == s@[i + 1]);
            assert(rest[2] == s@[i + 2]);
            let v: Option<u8> = match (hex(s[i + 1]), hex(s[i + 2])) {
                (Some(x), Some(y)) => Some(16 * x + y),
                (None, Some(y)) => if s[i + 1] == 0x2b {
                    Some(y)
                } else {
                    None
                },
                _ => None,
            };
            if let Some(v) = v {
                out.push(v);
                proof {
                    assert(rest.skip(3) =~= s@.skip(i + 3));
                    assert(before + (seq![v] + percent_decoded(s@.skip(i + 3))) =~= out@
                        + percent_decoded(s@.skip(i + 3)));
                }
                i += 3;
                continue ;
            }
        }
        out.push(s[i]);
        proof {
            assert(rest.skip(1) =~= s@.skip(i + 1));
            assert(before + (seq![s@[i as int]] + percent_decoded(s@.skip(i + 1))) =~= out@
                + percent_decoded(s@.skip(i + 1)));
        }
        i += 1;
    }
    assert(s@.skip(i as int) =~= Seq::<u8>::empty());
    assert(out@ + Seq::<u8>::empty() =~= out@);
    out
}

fn short(h: &[char]) -> (r: Vec<char>)
    ensures
        r@ == short_host(h@),
{
    let (head, _) = cut_at(h, '.');
    lowered(&head)
}

fn host_is_local(host: &[char], mine: Option<&str>) -> (r: bool)
    ensures
        r == local(host@, str_text(mine)),
{
    if host.len() == 0 || same_chars(host, &chars_of("localhost")) {
        return true;
    }
    match mine {
        None => false,
        Some(m) => same_chars(&short(host), &short(&chars_of(m))),
    }
}

fn parse_cwd(url: &[char], host: Option<&str>) -> (r: Option<String>)
    ensures
        text_of(r) == read_cwd(url@, str_text(host)),
{
    let scheme = chars_of("file://");
    assert(url@.skip(0) =~= url@);
    if !begins_at(url, 0, &scheme) {
        return None;
    }
    let rest = slice_of(url, scheme.len(), url.len());
    assert(url@.subrange(scheme@.len() as int, url@.len() as int) =~= url@.skip(
        scheme@.len() as int,
    ));
    let n = find_char_at(&rest, '/');
    if n == rest.len() {
        assert(!rest@.contains('/'));
        return None;
    }
    assert(rest@[n as int] == '/');
    let name = slice_of(&rest, 0, n);
    assert(rest@.subrange(0, n as int) =~= rest@.take(n as int));
    if !host_is_local(&name, host) {
        return None;
    }
    let path = string_of(&slice_of(&rest, n, rest.len()));
    assert(rest@.subrange(n as int, rest@.len() as int) =~= rest@.skip(n as int));
    let decoded = utf8_lossy(&percent_decode(path.as_str().as_bytes()));
    if decoded.as_str().is_empty() {
        None
    } else {
        Some(decoded)
    }
}

fn parse_133(rest: &[char]) -> (r: Option<MarkerKind>)
    ensures
        match r {
            None => read_133(rest@) is None,
            Some(m) => read_133(rest@) == Some(m@),
        },
{
    let (kind, tail) = cut_at(rest, ';');
    if same_chars(&kind, &chars_of("A")) {
        Some(MarkerKind::PromptStart)
    } else if same_chars(&kind, &chars_of("B")) {
        Some(MarkerKind::InputStart)
    } else if same_chars(&kind, &chars_of("C")) {
        proof {
            reveal_strlit("C");
            assert(kind@.len() == 1);
        }
        // The integration appends `cmdline=<text>`; the text may itself
        // contain semicolons, so take everything after the key.
        let key = chars_of("cmdline=");
        let args = slice_of(rest, 1, rest.len());
        assert(rest@.subrange(1, rest@.len() as int) =~= rest@.skip(1));
        let cmdline = match find_chars(&args, &key) {
            None => None,
            Some(n) => {
                let line = trim_chars(&slice_of(&args, n + key.len(), args.len()));
                assert(args@.subrange(n + key@.len(), args@.len() as int) =~= args@.skip(
                    n + key@.len(),
                ));
                if line.len() == 0 {
                    None
                } else {
                    Some(string_of(&line))
                }
            },
        };
        Some(MarkerKind::CommandStart { cmdline })
    } else if same_chars(&kind, &chars_of("D")) {
        let exit = match tail {
            None => None,
            Some(t) => {
                let (first, _) = cut_at(&t, ';');
                read_i32(&trim_chars(&first))
            },
        };
        Some(MarkerKind::CommandEnd { exit })
    } else {
        None
    }
}

fn parse_777(rest: &[char]) -> (r: Option<MarkerKind>)
    ensures
        match r {
            None => read_777(rest@) is None,
            Some(m) => read_777(rest@) == Some(m@),
        },
{
    let (verb, tail) = cut_at(rest, ';');
    if !same_chars(&verb, &chars_of("notify")) {
        return None;
    }
    let tail = match tail {
        None => Vec::new(),
        Some(t) => t,
    };
    let (title, body) = cut_at(&tail, ';');
    let body = match body {
        None => Vec::new(),
        Some(b) => b,
    };
    if title.len() == 0 && body.len() == 0 {
        return None;
    }
    let title = if title.len() == 0 {
        None
    } else {
        Some(string_of(&title))
    };
    Some(MarkerKind::Notify { title, body: string_of(&body) })
}

/// Decode an OSC payload (everything between `ESC ]` and the terminator)
/// into a marker, or `None` for sequences that aren't ours. `host` is this
/// machine's name.
pub fn parse_payload(payload: &[u8], host: Option<&str>) -> (r: Option<MarkerKind>)
    ensures
        match r {
            None => read_payload(payload@, str_text(host)) is None,
            Some(m) => read_payload(payload@, str_text(host)) == Some(m@),
        },
{
    let text = match utf8_text(payload) {
        None => {
            return None;
        },
        Some(t) => t,
    };
    let chars = chars_of(text.as_str());
    let (code, rest) = cut_at(&chars, ';');
    let rest = match rest {
        None => Vec::new(),
        Some(r) => r,
    };
    if same_chars(&code, &chars_of("133")) {
        parse_133(&rest)
    } else if same_chars(&code, &chars_of("7")) {
        match parse_cwd(&rest, host) {
            None => None,
            Some(p) => Some(MarkerKind::Cwd(p)),
        }
    } else if same_chars(&code, &chars_of("9")) {
        assert(rest@.skip(0) =~= rest@);
        if rest.len() == 0 || begins_at(&rest, 0, &chars_of("4;")) {
            None
        } else {
            Some(MarkerKind::Notify { title: None, body: string_of(&rest) })
        }
    } else if same_chars(&code, &chars_of("777")) {
        parse_777(&rest)
    } else {
        None
    }
}

/// Shifts the offsets of some markers.
pub open spec fn shifted(v: Seq<(usize, Mark)>, by: nat) -> Seq<(usize, Mark)> {
    v.map_values(|p: (usize, Mark)| ((p.0 + by) as usize, p.1))
}

/// A stream may be cut into chunks anywhere: scanning two chunks one after
/// the other ends where scanning them as one does, and finds the same
/// markers, those of the second chunk with the first's length added to their
/// offsets.
pub proof fn lemma_scan_chunks(s: Scan, a: Seq<u8>, b: Seq<u8>, host: Option<Seq<char>>)
    requires
        a.len() + b.len() <= usize::MAX,
    ensures
        scanned(s, a + b) == scanned(scanned(s, a), b),
        marks(s, a + b, host) == marks(s, a, host) + shifted(
            marks(scanned(s, a), b, host),
            a.len(),
        ),
    decreases b.len(),
{
    if b.len() == 0 {
        assert(a + b =~= a);
        assert(marks(s, a, host) + shifted(marks(scanned(s, a), b, host), a.len()) =~= marks(
            s,
            a,
            host,
        ));
    } else {
        let c = b.drop_last();
        assert((a + b).drop_last() =~= a + c);
        lemma_scan_chunks(s, a, c, host);
        let (next, done) = step(scanned(s, a + c), b.last());
        let first = marks(scanned(s, a), c, host);
        if let Some(m) = read_payload(next.payload, host) {
            if done {
                assert(shifted(first.push((b.len() as usize, m)), a.len()) =~= shifted(
                    first,
                    a.len(),
                ).push(((a + b).len() as usize, m)));
                assert(marks(s, a, host) + shifted(first, a.len()).push(((a + b).len() as usize, m))
                    =~= (marks(s, a, host) + shifted(first, a.len())).push(
                    ((a + b).len() as usize, m),
                ));
            }
        }
    }
}

/// The payload never outgrows its cap.
pub proof fn lemma_payload_bounded(s: Scan, bytes: Seq<u8>)
    requires
        s.payload.len() <= MAX_PAYLOAD,
    ensures
        scanned(s, bytes).payload.len() <= MAX_PAYLOAD,
    decreases bytes.len(),
{
    if bytes.len() > 0 {
        lemma_payload_bounded(s, bytes.drop_last());
    }
}

/// Bytes that a payload keeps as they are.
pub open spec fn plain(bytes: Seq<u8>) -> bool {
    forall|i: int| 0 <= i < bytes.len() ==> #[trigger] bytes[i] >= 0x20
}

proof fn lemma_collects(bytes: Seq<u8>, host: Option<Seq<char>>)
    requires
        plain(bytes),
        bytes.len() <= MAX_PAYLOAD,
    ensures
        scanned(idle(), seq![0x1bu8, 0x5du8] + bytes) == (Scan { state: State::Osc, payload: bytes }),
        marks(idle(), seq![0x1bu8, 0x5du8] + bytes, host) == Seq::<(usize, Mark)>::empty(),
    decreases bytes.len(),
{
    let open = seq![0x1bu8, 0x5du8];
    if bytes.len() == 0 {
        assert(open + bytes =~= open);
        assert(open.drop_last() =~= seq![0x1bu8]);
        assert(seq![0x1bu8].drop_last() =~= Seq::<u8>::empty());
        reveal_with_fuel(scanned, 3);
        reveal_with_fuel(marks, 3);
        assert(scanned(idle(), open).payload =~= bytes);
    } else {
        let head = bytes.drop_last();
        assert forall|i: int| 0 <= i < head.len() implies #[trigger] head[i] >= 0x20 by {
            assert(bytes[i] >= 0x20);
        }
        lemma_collects(head, host);
        assert((open + bytes).drop_last() =~= open + head);
        assert(bytes[bytes.len() - 1] >= 0x20);
        assert(head.push(bytes.last()) =~= bytes);
    }
}

/// A whole sequence on a fresh scan, `ESC ]`, a plain payload and BEL, is
/// read once: at its end, as what its payload says, or not at all where the
/// payload is not one of ours.
pub proof fn lemma_whole_sequence(bytes: Seq<u8>, host: Option<Seq<char>>)
    requires
        plain(bytes),
        bytes.len() <= MAX_PAYLOAD,
    ensures
        ({
            let all = seq![0x1bu8, 0x5du8] + bytes + seq![0x07u8];
            &&& scanned(idle(), all).state == State::Ground
            &&& marks(idle(), all, host) == match read_payload(bytes, host) {
                None => Seq::<(usize, Mark)>::empty(),
                Some(m) => seq![(all.len() as usize, m)],
            }
        }),
{
    let all = seq![0x1bu8, 0x5du8] + bytes + seq![0x07u8];
    lemma_collects(bytes, host);
    assert(all.drop_last() =~= seq![0x1bu8, 0x5du8] + bytes);
    if let Some(m) = read_payload(bytes, host) {
        assert(Seq::<(usize, Mark)>::empty().push((all.len() as usize, m)) =~= seq![
            (all.len() as usize, m),
        ]);
    }
}

/// The bytes before the first zero byte.
pub open spec fn zero_cut(buf: Seq<u8>) -> Seq<u8> {
    buf.take(zero_at(buf) as int)
}

/// The host's name in the buffer that `gethostname` fills: the text up to the
/// first zero byte, where it is one.
pub fn host_name(buf: &[u8]) -> (r: Option<String>)
    ensures
        match r {
            None => !valid_utf8(zero_cut(buf@)),
            Some(s) => valid_utf8(zero_cut(buf@)) && s@ == decode_utf8(zero_cut(buf@)),
        },
{
    proof {
        lemma_zero_at(buf@);
        assert(buf@.skip(0) =~= buf@);
    }
    let end = find_zero(buf, 0);
    let name = bytes_of(buf, 0, end);
    assert(name@ =~= zero_cut(buf@));
    utf8_text(name.as_slice())
}

// --- What the sequences say ---

proof fn lemma_codes()
    ensures
        "133"@ =~= seq!['1', '3', '3'] && "133"@.len() == 3 && "133"@[0] == '1',
        "7"@ =~= seq!['7'] && "7"@.len() == 1 && "7"@[0] == '7',
        "9"@ =~= seq!['9'] && "9"@.len() == 1 && "9"@[0] == '9',
        "777"@ =~= seq!['7', '7', '7'] && "777"@.len() == 3 && "777"@[0] == '7',
        "A"@ =~= seq!['A'] && "A"@[0] == 'A',
        "B"@ =~= seq!['B'] && "B"@[0] == 'B',
        "C"@ =~= seq!['C'] && "C"@[0] == 'C',
        "D"@ =~= seq!['D'] && "D"@[0] == 'D',
{
    reveal_strlit("133");
    reveal_strlit("7");
    reveal_strlit("9");
    reveal_strlit("777");
    reveal_strlit("A");
    reveal_strlit("B");
    reveal_strlit("C");
    reveal_strlit("D");
}

/// 133;A says that a prompt starts and 133;B that it has ended, whatever more
/// they carry.
pub proof fn lemma_prompt_markers(more: Seq<char>, host: Option<Seq<char>>)
    requires
        more.len() == 0 || more[0] == ';',
    ensures
        read_text("133"@ + seq![';'] + (seq!['A'] + more), host) == Some(Mark::PromptStart),
        read_text("133"@ + seq![';'] + (seq!['B'] + more), host) == Some(Mark::InputStart),
{
    lemma_codes();
    lemma_cut_at_first("133"@, ';', seq!['A'] + more);
    lemma_cut_at_first("133"@, ';', seq!['B'] + more);
    lemma_kind("A"@, more);
    lemma_kind("B"@, more);
    assert("A"@ + more =~= seq!['A'] + more);
    assert("B"@ + more =~= seq!['B'] + more);
}

proof fn lemma_kind(kind: Seq<char>, more: Seq<char>)
    requires
        !kind.contains(';'),
        more.len() == 0 || more[0] == ';',
    ensures
        before_char(kind + more, ';') == kind,
        more.len() > 0 ==> after_char(kind + more, ';') == Some(more.skip(1)),
        more.len() == 0 ==> after_char(kind + more, ';') is None,
{
    if more.len() > 0 {
        let rest = more.skip(1);
        assert(more =~= seq![';'] + rest);
        assert(kind + more =~= kind + seq![';'] + rest);
        lemma_cut_at_first(kind, ';', rest);
    } else {
        assert(kind + more =~= kind);
        lemma_cut_at_first(kind, ';', Seq::empty());
    }
}

/// 133;C says that a command starts; the command line it carries is taken
/// whole, with the semicolons in it.
pub proof fn lemma_command_start(line: Seq<char>, host: Option<Seq<char>>)
    requires
        line.len() > 0,
        tight(line),
    ensures
        read_text("133"@ + seq![';'] + (seq!['C', ';'] + "cmdline="@ + line), host) == Some(
            Mark::CommandStart { cmdline: Some(line) },
        ),
        read_text("133"@ + seq![';'] + seq!['C'], host) == Some(
            Mark::CommandStart { cmdline: None },
        ),
{
    lemma_codes();
    reveal_strlit("cmdline=");
    let rest = seq!['C', ';'] + "cmdline="@ + line;
    lemma_cut_at_first("133"@, ';', rest);
    let more = seq![';'] + "cmdline="@ + line;
    lemma_kind("C"@, more);
    assert("C"@ + more =~= rest);
    assert(rest.skip(1) =~= more);
    lemma_find_seq_first(more, "cmdline="@);
    assert(more.subrange(1, 9) =~= "cmdline="@);
    let n = find_seq(more, "cmdline="@)->0 as int;
    if n == 0 {
        assert(more.subrange(0, 8)[0] == ';');
    }
    if n > 1 {
        assert(more.subrange(1, 9) != "cmdline="@);
    }
    assert(more.skip(9) =~= line);
    lemma_trim_tight(line);
    let none = seq!['C'];
    lemma_cut_at_first("133"@, ';', none);
    lemma_kind("C"@, Seq::empty());
    assert("C"@ + Seq::<char>::empty() =~= none);
    let e = none.skip(1);
    assert(e =~= Seq::empty());
    lemma_find_seq_first(e, "cmdline="@);
}

/// 133;D says that a command has ended, and with which status.
pub proof fn lemma_command_end(exit: i32, host: Option<Seq<char>>)
    ensures
        read_text("133"@ + seq![';'] + (seq!['D', ';'] + signed_decimal(exit as int)), host)
            == Some(Mark::CommandEnd { exit: Some(exit as int) }),
        read_text("133"@ + seq![';'] + seq!['D'], host) == Some(Mark::CommandEnd { exit: None }),
{
    lemma_codes();
    let n = signed_decimal(exit as int);
    let rest = seq!['D', ';'] + n;
    lemma_cut_at_first("133"@, ';', rest);
    lemma_kind("D"@, seq![';'] + n);
    assert("D"@ + (seq![';'] + n) =~= rest);
    assert((seq![';'] + n).skip(1) =~= n);
    lemma_signed_plain(exit);
    lemma_cut_at_first(n, ';', Seq::empty());
    lemma_trim_tight(n);
    lemma_signed_reads_back(exit);
    let none = seq!['D'];
    lemma_cut_at_first("133"@, ';', none);
    lemma_kind("D"@, Seq::empty());
    assert("D"@ + Seq::<char>::empty() =~= none);
}

proof fn lemma_signed_plain(n: i32)
    ensures
        tight(signed_decimal(n as int)),
        !signed_decimal(n as int).contains(';'),
        signed_decimal(n as int).len() > 0,
{
    let s = signed_decimal(n as int);
    let d = if n < 0 {
        decimal((-n) as nat)
    } else {
        decimal(n as nat)
    };
    lemma_decimal_reads_back((-n) as nat);
    lemma_decimal_reads_back(n as nat);
    assert forall|i: int| 0 <= i < s.len() implies #[trigger] s[i] == '-' || is_digit(s[i]) by {
        if n < 0 && i > 0 {
            assert(s[i] == d[i - 1]);
        } else if n >= 0 {
            assert(s[i] == d[i]);
        }
    }
    assert(s[0] == '-' || is_digit(s[0]));
    assert(s[s.len() - 1] == '-' || is_digit(s[s.len() - 1]));
    if s.contains(';') {
        let k = choose|k: int| 0 <= k < s.len() && s[k] == ';';
        assert(s[k] == '-' || is_digit(s[k]));
    }
}

/// OSC 9 asks for a notification of its text, unless it draws a progress
/// bar; OSC 777 asks for one with a title and a body.
pub proof fn lemma_notifications(title: Seq<char>, body: Seq<char>, host: Option<Seq<char>>)
    requires
        !title.contains(';'),
        title.len() > 0,
        body.len() > 0,
    ensures
        body[0] != '4' ==> read_text("9"@ + seq![';'] + body, host) == Some(
            Mark::Notify { title: None, body },
        ),
        read_text("9"@ + seq![';'] + ("4;"@ + body), host) is None,
        read_text("777"@ + seq![';'] + ("notify"@ + seq![';'] + (title + seq![';'] + body)), host)
            == Some(Mark::Notify { title: Some(title), body }),
{
    lemma_codes();
    reveal_strlit("4;");
    reveal_strlit("notify");
    lemma_cut_at_first("9"@, ';', body);
    lemma_cut_at_first("9"@, ';', "4;"@ + body);
    assert(("4;"@ + body).take(2) =~= "4;"@);
    if body[0] != '4' && begins_with(body, "4;"@) {
        assert(body.take(2)[0] == '4');
    }
    let tail = title + seq![';'] + body;
    let rest = "notify"@ + seq![';'] + tail;
    lemma_cut_at_first("777"@, ';', rest);
    lemma_cut_at_first("notify"@, ';', tail);
    lemma_cut_at_first(title, ';', body);
}

/// OSC 7 says where the shell is: the path of its address, for an address of
/// this machine and no other.
pub proof fn lemma_cwd_reports(host: Seq<char>, path: Seq<char>, mine: Option<Seq<char>>)
    requires
        !host.contains('/'),
        path.len() > 0,
        path[0] == '/',
        lossy_text(percent_decoded(encode_utf8(path))).len() > 0,
    ensures
        read_text("7"@ + seq![';'] + ("file://"@ + host + path), mine) == (if host.len() == 0
            || host == "localhost"@ || (mine matches Some(m) && short_host(host) == short_host(
            m,
        )) {
            Some(Mark::Cwd(lossy_text(percent_decoded(encode_utf8(path)))))
        } else {
            None
        }),
{
    lemma_codes();
    reveal_strlit("file://");
    let url = "file://"@ + host + path;
    lemma_cut_at_first("7"@, ';', url);
    assert(url.take(7) =~= "file://"@);
    let rest = url.skip(7);
    assert(rest =~= host + path);
    let tail = path.skip(1);
    assert(path =~= seq!['/'] + tail);
    assert(host + path =~= host + seq!['/'] + tail);
    lemma_cut_at_first(host, '/', tail);
    assert(rest[host.len() as int] == '/');
    assert(rest.contains('/'));
    assert(rest.skip(host.len() as int) =~= path);
}

/// A machine's name counts up to its first dot and without regard to
/// capitals.
pub proof fn lemma_short_names(name: Seq<char>, domain: Seq<char>)
    requires
        !name.contains('.'),
    ensures
        short_host(name + seq!['.'] + domain) == short_host(name),
        short_host(name) == ascii_lowered(name),
{
    lemma_cut_at_first(name, '.', domain);
}

/// A percent sign and two hexadecimal digits stand for the byte of that
/// value; bytes without one stand for themselves.
pub proof fn lemma_percent_escapes(b: u8, rest: Seq<u8>)
    ensures
        ({
            let digits = seq![
                0x30u8, 0x31, 0x32, 0x33, 0x34, 0x35, 0x36, 0x37, 0x38, 0x39, 0x41, 0x42, 0x43, 0x44,
                0x45, 0x46,
            ];
            percent_decoded(seq![0x25u8, digits[b as int / 16], digits[b as int % 16]] + rest)
                == seq![b] + percent_decoded(rest)
        }),
        b != 0x25 ==> percent_decoded(seq![b] + rest) == seq![b] + percent_decoded(rest),
{
    let digits = seq![
        0x30u8, 0x31, 0x32, 0x33, 0x34, 0x35, 0x36, 0x37, 0x38, 0x39, 0x41, 0x42, 0x43, 0x44, 0x45,
        0x46,
    ];
    assert(forall|i: int| 0 <= i < 16 ==> hex_value(#[trigger] digits[i]) == Some(i));
    let hi = digits[b as int / 16];
    let lo = digits[b as int % 16];
    let s = seq![0x25u8, hi, lo] + rest;
    assert(s[0] == 0x25 && s[1] == hi && s[2] == lo);
    assert(hex_value(hi) == Some(b as int / 16) && hex_value(lo) == Some(b as int % 16));
    assert(s.skip(3) =~= rest);
    let t = seq![b] + rest;
    assert(t.skip(1) =~= rest);
    assert(t[0] == b);
}

} // verus!
