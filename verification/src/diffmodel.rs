//! The diff model: unified `git diff` text parsed into files, hunks and lines.

use vstd::prelude::*;

use crate::text::{
    chars_of, find_exec, find_first, find_from, first_piece, has_prefix, has_prefix_at,
    lemma_next_pos_bounds, lines_of, next_pos_exec, parse_u32, parse_u32_spec, seqs_view,
    split_from, split_lines, split_on, string_of, sub_vec, trim, trim_bounds,
};

verus! {

#[derive(Debug, Clone, Copy, PartialEq, Eq, Structural)]
pub enum LineKind {
    Context,
    Added,
    Removed,
}

#[derive(Debug, Clone, PartialEq)]
pub struct Line {
    pub kind: LineKind,
    pub old_lineno: Option<u32>,
    pub new_lineno: Option<u32>,
    pub content: String,
}

#[derive(Debug, Clone, PartialEq)]
pub struct Hunk {
    pub header: String,
    pub lines: Vec<Line>,
}

#[derive(Debug, Clone, PartialEq)]
pub struct FileDiff {
    pub path: String,
    pub hunks: Vec<Hunk>,
}

// ---------------------------------------------------------------------------
// Mathematical model
// ---------------------------------------------------------------------------

pub struct LineV {
    pub kind: LineKind,
    pub old_lineno: Option<u32>,
    pub new_lineno: Option<u32>,
    pub content: Seq<char>,
}

pub struct HunkV {
    pub header: Seq<char>,
    pub lines: Seq<LineV>,
}

pub struct FileDiffV {
    pub path: Seq<char>,
    pub hunks: Seq<HunkV>,
}

impl View for Line {
    type V = LineV;

    open spec fn view(&self) -> LineV {
        LineV {
            kind: self.kind,
            old_lineno: self.old_lineno,
            new_lineno: self.new_lineno,
            content: self.content@,
        }
    }
}

impl View for Hunk {
    type V = HunkV;

    open spec fn view(&self) -> HunkV {
        HunkV { header: self.header@, lines: self.lines@.map_values(|l: Line| l@) }
    }
}

impl View for FileDiff {
    type V = FileDiffV;

    open spec fn view(&self) -> FileDiffV {
        FileDiffV { path: self.path@, hunks: self.hunks@.map_values(|h: Hunk| h@) }
    }
}

/// The views of a sequence of files.
pub open spec fn files_view(fs: Seq<FileDiff>) -> Seq<FileDiffV> {
    fs.map_values(|f: FileDiff| f@)
}

pub open spec fn diff_git_marker() -> Seq<char> {
    seq!['d', 'i', 'f', 'f', ' ', '-', '-', 'g', 'i', 't', ' ']
}

pub open spec fn new_path_marker() -> Seq<char> {
    seq!['+', '+', '+', ' ']
}

pub open spec fn old_path_marker() -> Seq<char> {
    seq!['-', '-', '-', ' ']
}

pub open spec fn index_marker() -> Seq<char> {
    seq!['i', 'n', 'd', 'e', 'x', ' ']
}

pub open spec fn hunk_marker() -> Seq<char> {
    seq!['@', '@', ' ']
}

pub open spec fn b_separator() -> Seq<char> {
    seq![' ', 'b', '/']
}

pub open spec fn dev_null() -> Seq<char> {
    seq!['/', 'd', 'e', 'v', '/', 'n', 'u', 'l', 'l']
}

pub open spec fn b_prefix() -> Seq<char> {
    seq!['b', '/']
}

pub open spec fn a_prefix() -> Seq<char> {
    seq!['a', '/']
}

pub open spec fn header_end() -> Seq<char> {
    seq!['@', '@']
}

/// The path named by the rest of a `diff --git ` line: what follows the first ` b/`,
/// or the whole rest when there is none.
pub open spec fn extract_path_spec(rest: Seq<char>) -> Seq<char> {
    match find_first(rest, b_separator()) {
        Some(i) => rest.skip(i + 3),
        None => rest,
    }
}

/// The path named by the rest of a `+++ ` line: none for `/dev/null`, else the trimmed
/// text without a leading `b/` (or, failing that, `a/`).
pub open spec fn clean_ab_path_spec(rest: Seq<char>) -> Option<Seq<char>> {
    let t = trim(rest);
    if t == dev_null() {
        None
    } else if has_prefix(t, b_prefix()) {
        Some(t.skip(2))
    } else if has_prefix(t, a_prefix()) {
        Some(t.skip(2))
    } else {
        Some(t)
    }
}

/// The start line that a `-N,M` or `+N,M` piece gives (`1` when `N` is not a number).
pub open spec fn start_of_piece(piece: Seq<char>) -> u32 {
    match parse_u32_spec(first_piece(piece.skip(1), ',')) {
        Some(v) => v,
        None => 1,
    }
}

/// Scans the space-separated pieces of a hunk header up to the closing `@@`.
pub open spec fn scan_header(parts: Seq<Seq<char>>, old: u32, new: u32) -> (u32, u32)
    decreases parts.len(),
{
    if parts.len() == 0 {
        (old, new)
    } else {
        let p = parts[0];
        if p.len() > 0 && p[0] == '-' {
            scan_header(parts.drop_first(), start_of_piece(p), new)
        } else if p.len() > 0 && p[0] == '+' {
            scan_header(parts.drop_first(), old, start_of_piece(p))
        } else if p == header_end() {
            (old, new)
        } else {
            scan_header(parts.drop_first(), old, new)
        }
    }
}

/// The (old, new) start lines that the rest of a `@@ ` line gives.
pub open spec fn hunk_header_spec(rest: Seq<char>) -> (u32, u32) {
    scan_header(split_on(rest, ' '), 1, 1)
}

/// The parser's state between two lines of input.
pub struct ParseState {
    pub files: Seq<FileDiffV>,
    pub current: Option<FileDiffV>,
    pub hunk: Option<HunkV>,
    pub old_line: u32,
    pub new_line: u32,
}

pub open spec fn init_state() -> ParseState {
    ParseState { files: seq![], current: None, hunk: None, old_line: 0, new_line: 0 }
}

/// Closes the open hunk into the open file (dropped when no file is open).
pub open spec fn flush_hunk(current: Option<FileDiffV>, hunk: Option<HunkV>) -> Option<
    FileDiffV,
> {
    match current {
        Some(f) => match hunk {
            Some(h) => Some(FileDiffV { path: f.path, hunks: f.hunks.push(h) }),
            None => current,
        },
        None => current,
    }
}

/// Closes the open file into the list of files.
pub open spec fn flush_file(files: Seq<FileDiffV>, current: Option<FileDiffV>) -> Seq<FileDiffV> {
    match current {
        Some(f) => files.push(f),
        None => files,
    }
}

/// A hunk with one more content line.
pub open spec fn hunk_push(h: HunkV, l: LineV) -> HunkV {
    HunkV { header: h.header, lines: h.lines.push(l) }
}

/// One line of input. `None` where a line counter would pass `u32::MAX`.
pub open spec fn step(st: ParseState, l: Seq<char>) -> Option<ParseState> {
    if has_prefix(l, diff_git_marker()) {
        Some(
            ParseState {
                files: flush_file(st.files, flush_hunk(st.current, st.hunk)),
                current: Some(FileDiffV { path: extract_path_spec(l.skip(11)), hunks: seq![] }),
                hunk: None,
                old_line: st.old_line,
                new_line: st.new_line,
            },
        )
    } else if st.hunk is None && has_prefix(l, new_path_marker()) {
        Some(
            ParseState {
                current: match st.current {
                    Some(f) => match clean_ab_path_spec(l.skip(4)) {
                        Some(p) => Some(FileDiffV { path: p, hunks: f.hunks }),
                        None => Some(f),
                    },
                    None => None,
                },
                ..st
            },
        )
    } else if st.hunk is None && (has_prefix(l, old_path_marker()) || has_prefix(l, index_marker())) {
        Some(st)
    } else if has_prefix(l, hunk_marker()) {
        let (o, n) = hunk_header_spec(l.skip(3));
        Some(
            ParseState {
                files: st.files,
                current: flush_hunk(st.current, st.hunk),
                hunk: Some(HunkV { header: l, lines: seq![] }),
                old_line: o,
                new_line: n,
            },
        )
    } else {
        match st.hunk {
            None => Some(st),
            Some(h) => {
                if l.len() > 0 && l[0] == '+' {
                    if st.new_line == u32::MAX {
                        None
                    } else {
                        Some(
                            ParseState {
                                hunk: Some(
                                    hunk_push(
                                        h,
                                        LineV {
                                            kind: LineKind::Added,
                                            old_lineno: None,
                                            new_lineno: Some(st.new_line),
                                            content: l.skip(1),
                                        },
                                    ),
                                ),
                                new_line: (st.new_line + 1) as u32,
                                ..st
                            },
                        )
                    }
                } else if l.len() > 0 && l[0] == '-' {
                    if st.old_line == u32::MAX {
                        None
                    } else {
                        Some(
                            ParseState {
                                hunk: Some(
                                    hunk_push(
                                        h,
                                        LineV {
                                            kind: LineKind::Removed,
                                            old_lineno: Some(st.old_line),
                                            new_lineno: None,
                                            content: l.skip(1),
                                        },
                                    ),
                                ),
                                old_line: (st.old_line + 1) as u32,
                                ..st
                            },
                        )
                    }
                } else if l.len() > 0 && l[0] == ' ' {
                    if st.old_line == u32::MAX || st.new_line == u32::MAX {
                        None
                    } else {
                        Some(
                            ParseState {
                                hunk: Some(
                                    hunk_push(
                                        h,
                                        LineV {
                                            kind: LineKind::Context,
                                            old_lineno: Some(st.old_line),
                                            new_lineno: Some(st.new_line),
                                            content: l.skip(1),
                                        },
                                    ),
                                ),
                                old_line: (st.old_line + 1) as u32,
                                new_line: (st.new_line + 1) as u32,
                                ..st
                            },
                        )
                    }
                } else {
                    Some(st)
                }
            },
        }
    }
}

/// The state after the lines `ls`, from `st` on.
pub open spec fn run_from(st: ParseState, ls: Seq<Seq<char>>) -> Option<ParseState>
    decreases ls.len(),
{
    if ls.len() == 0 {
        Some(st)
    } else {
        match step(st, ls[0]) {
            Some(s2) => run_from(s2, ls.drop_first()),
            None => None,
        }
    }
}

/// Closes whatever is still open at the end of the input.
pub open spec fn finish(st: ParseState) -> Seq<FileDiffV> {
    flush_file(st.files, flush_hunk(st.current, st.hunk))
}

/// The files that the lines `ls` describe; `None` where a line counter would pass
/// `u32::MAX`.
pub open spec fn parse_lines(ls: Seq<Seq<char>>) -> Option<Seq<FileDiffV>> {
    match run_from(init_state(), ls) {
        Some(st) => Some(finish(st)),
        None => None,
    }
}

/// The files that the diff text `t` describes.
pub open spec fn parse_spec(t: Seq<char>) -> Option<Seq<FileDiffV>> {
    parse_lines(lines_of(t))
}


// ---------------------------------------------------------------------------
// Header fields
// ---------------------------------------------------------------------------

proof fn lemma_find_from(s: Seq<char>, p: Seq<char>, k: int)
    requires
        0 <= k,
    ensures
        find_from(s, p, k) matches Some(i) ==> k <= i && i + p.len() <= s.len()
            && s.subrange(i, i + p.len()) == p,
    decreases s.len() + 1 - k,
{
    if k <= s.len() && k + p.len() <= s.len() && s.subrange(k, k + p.len()) != p {
        lemma_find_from(s, p, k + 1);
    }
}

fn char_vec(cs: &[char]) -> (v: Vec<char>)
    ensures
        v@ == cs@,
{
    let mut v: Vec<char> = Vec::new();
    let mut i: usize = 0;
    while i < cs.len()
        invariant
            i <= cs@.len(),
            v@ == cs@.take(i as int),
        decreases cs@.len() - i,
    {
        v.push(cs[i]);
        assert(cs@.take(i + 1) == cs@.take(i as int).push(cs@[i as int]));
        i = i + 1;
    }
    assert(cs@.take(cs@.len() as int) == cs@);
    v
}

/// The path in the rest of a `diff --git ` line (`a/some/path b/some/path`): what
/// follows the first ` b/`, or the whole rest when there is none.
pub fn extract_path(rest: &Vec<char>) -> (path: String)
    ensures
        path@ == extract_path_spec(rest@),
{
    let sep = char_vec(&[' ', 'b', '/']);
    assert(sep@ == b_separator());
    assert(rest@.skip(0) == rest@);
    match find_exec(rest, 0, &sep) {
        Some(i) => {
            proof {
                lemma_find_from(rest@, b_separator(), 0);
                assert(find_from(rest@, b_separator(), 0) == Some(i as int));
                assert(i + 3 <= rest@.len());
            }
            let n = rest.len();
            assert(i + 3 <= n);
            let p = string_of(rest, i + 3, n);
            assert(p@ == rest@.skip(i + 3));
            p
        },
        None => string_of(rest, 0, rest.len()),
    }
}

/// The path in the rest of a `+++ ` line: `None` for `/dev/null`, else the trimmed text
/// without a leading `b/` (or, failing that, `a/`).
pub fn clean_ab_path(rest: &Vec<char>) -> (path: Option<String>)
    ensures
        path matches Some(p) ==> clean_ab_path_spec(rest@) == Some(p@),
        path is None ==> clean_ab_path_spec(rest@) is None,
{
    let (a, b) = trim_bounds(rest, 0);
    assert(rest@.skip(0) == rest@);
    let ghost t = rest@.subrange(a as int, b as int);
    let dn = char_vec(&['/', 'd', 'e', 'v', '/', 'n', 'u', 'l', 'l']);
    let bp = char_vec(&['b', '/']);
    let ap = char_vec(&['a', '/']);
    assert(dn@ == dev_null());
    assert(bp@ == b_prefix());
    assert(ap@ == a_prefix());
    let is_null = b - a == 9 && has_prefix_at(rest, a, &dn);
    proof {
        if b - a == 9 {
            assert(rest@.skip(a as int).subrange(0, 9) == t);
        }
        if t == dev_null() {
            assert(rest@.skip(a as int).subrange(0, 9) == t);
        }
    }
    if is_null {
        return None;
    }
    if b - a >= 2 {
        assert(rest@.skip(a as int).subrange(0, 2) == t.subrange(0, 2));
    }
    if b - a >= 2 && has_prefix_at(rest, a, &bp) {
        let p = string_of(rest, a + 2, b);
        assert(p@ == t.skip(2));
        return Some(p);
    }
    if b - a >= 2 && has_prefix_at(rest, a, &ap) {
        let p = string_of(rest, a + 2, b);
        assert(p@ == t.skip(2));
        return Some(p);
    }
    Some(string_of(rest, a, b))
}

/// The start line of a `-N,M` / `+N,M` piece held in `rest[from..to]`.
fn start_of_piece_exec(rest: &Vec<char>, from: usize, to: usize) -> (n: u32)
    requires
        from < to <= rest@.len(),
    ensures
        n == start_of_piece(rest@.subrange(from as int, to as int)),
{
    let q = sub_vec(rest, from + 1, to);
    assert(q@ == rest@.subrange(from as int, to as int).skip(1));
    let f = next_pos_exec(&q, ',', 0);
    proof {
        lemma_next_pos_bounds(q@, ',', 0);
    }
    match parse_u32(&q, 0, f) {
        Some(v) => v,
        None => 1,
    }
}

/// The (old, new) start lines in the rest of a `@@ ` line (`-12,7 +12,8 @@ context`),
/// each `1` when it is missing or not a number.
pub fn parse_hunk_header(rest: &Vec<char>) -> (r: (u32, u32))
    ensures
        r == hunk_header_spec(rest@),
{
    let mut old_start: u32 = 1;
    let mut new_start: u32 = 1;
    let mut k: usize = 0;
    loop
        invariant
            k <= rest@.len(),
            hunk_header_spec(rest@) == scan_header(
                split_from(rest@, ' ', k as int),
                old_start,
                new_start,
            ),
        decreases rest@.len() + 1 - k,
    {
        let e = next_pos_exec(rest, ' ', k);
        proof {
            lemma_next_pos_bounds(rest@, ' ', k as int);
        }
        let ghost piece = rest@.subrange(k as int, e as int);
        let ghost parts = split_from(rest@, ' ', k as int);
        assert(parts == seq![piece] + split_from(rest@, ' ', e + 1));
        assert(parts.drop_first() == split_from(rest@, ' ', e + 1));
        assert(parts[0] == piece);
        if e > k {
            assert(piece[0] == rest@[k as int]);
        }
        if e > k && rest[k] == '-' {
            old_start = start_of_piece_exec(rest, k, e);
        } else if e > k && rest[k] == '+' {
            new_start = start_of_piece_exec(rest, k, e);
        } else if e - k == 2 && rest[k] == '@' && rest[k + 1] == '@' {
            assert(piece == header_end());
            return (old_start, new_start);
        } else {
            assert(piece != header_end()) by {
                if piece == header_end() {
                    assert(piece[0] == '@' && piece[1] == '@');
                }
            }
        }
        assert(hunk_header_spec(rest@) == scan_header(
            split_from(rest@, ' ', e + 1),
            old_start,
            new_start,
        ));
        if e == rest.len() {
            assert(split_from(rest@, ' ', e + 1) == Seq::<Seq<char>>::empty());
            return (old_start, new_start);
        }
        k = e + 1;
    }
}


// ---------------------------------------------------------------------------
// The parser
// ---------------------------------------------------------------------------

pub open spec fn opt_file_view(o: Option<FileDiff>) -> Option<FileDiffV> {
    match o {
        Some(f) => Some(f@),
        None => None,
    }
}

pub open spec fn opt_hunk_view(o: Option<Hunk>) -> Option<HunkV> {
    match o {
        Some(h) => Some(h@),
        None => None,
    }
}

/// The markers that the parser looks for at the start of a line.
struct Markers {
    diff_git: Vec<char>,
    new_path: Vec<char>,
    old_path: Vec<char>,
    index: Vec<char>,
    hunk: Vec<char>,
}

impl Markers {
    spec fn wf(&self) -> bool {
        &&& self.diff_git@ == diff_git_marker()
        &&& self.new_path@ == new_path_marker()
        &&& self.old_path@ == old_path_marker()
        &&& self.index@ == index_marker()
        &&& self.hunk@ == hunk_marker()
    }

    fn new() -> (m: Markers)
        ensures
            m.wf(),
    {
        Markers {
            diff_git: char_vec(&['d', 'i', 'f', 'f', ' ', '-', '-', 'g', 'i', 't', ' ']),
            new_path: char_vec(&['+', '+', '+', ' ']),
            old_path: char_vec(&['-', '-', '-', ' ']),
            index: char_vec(&['i', 'n', 'd', 'e', 'x', ' ']),
            hunk: char_vec(&['@', '@', ' ']),
        }
    }
}

fn starts_with(l: &Vec<char>, p: &Vec<char>) -> (b: bool)
    ensures
        b == has_prefix(l@, p@),
{
    assert(l@.skip(0) == l@);
    has_prefix_at(l, 0, p)
}

/// The parser's executable state.
struct ParseAcc {
    files: Vec<FileDiff>,
    current: Option<FileDiff>,
    hunk: Option<Hunk>,
    old_line: u32,
    new_line: u32,
}

impl View for ParseAcc {
    type V = ParseState;

    closed spec fn view(&self) -> ParseState {
        ParseState {
            files: files_view(self.files@),
            current: opt_file_view(self.current),
            hunk: opt_hunk_view(self.hunk),
            old_line: self.old_line,
            new_line: self.new_line,
        }
    }
}

fn push_file(files: &mut Vec<FileDiff>, f: FileDiff)
    ensures
        files_view(final(files)@) == files_view(old(files)@).push(f@),
{
    files.push(f);
    assert(files_view(files@) =~= files_view(old(files)@).push(f@));
}

fn push_hunk(f: &mut FileDiff, h: Hunk)
    ensures
        final(f)@ == (FileDiffV { path: old(f)@.path, hunks: old(f)@.hunks.push(h@) }),
{
    f.hunks.push(h);
    assert(f@.hunks =~= old(f)@.hunks.push(h@));
}

fn push_line(h: &mut Hunk, l: Line)
    ensures
        final(h)@ == hunk_push(old(h)@, l@),
{
    h.lines.push(l);
    assert(h@.lines =~= old(h)@.lines.push(l@));
}

impl ParseAcc {
    /// Closes the open hunk into the open file.
    fn close_hunk(&mut self)
        ensures
            final(self)@ == (ParseState {
                current: flush_hunk(old(self)@.current, old(self)@.hunk),
                hunk: None,
                ..old(self)@
            }),
    {
        let hunk = self.hunk.take();
        match hunk {
            Some(h) => {
                let cur = self.current.take();
                match cur {
                    Some(mut f) => {
                        push_hunk(&mut f, h);
                        self.current = Some(f);
                    },
                    None => {},
                }
            },
            None => {},
        }
    }

    /// Closes the open file into the list of files.
    fn close_file(&mut self)
        ensures
            final(self)@ == (ParseState {
                files: flush_file(old(self)@.files, old(self)@.current),
                current: None,
                ..old(self)@
            }),
    {
        let cur = self.current.take();
        match cur {
            Some(f) => push_file(&mut self.files, f),
            None => {},
        }
    }

    /// Handles one line; `false` where a line counter would pass `u32::MAX`.
    fn step(&mut self, l: &Vec<char>, m: &Markers) -> (ok: bool)
        requires
            m.wf(),
        ensures
            ok ==> step(old(self)@, l@) == Some(final(self)@),
            !ok ==> step(old(self)@, l@) is None,
    {
        if starts_with(l, &m.diff_git) {
            self.close_hunk();
            self.close_file();
            let rest = sub_vec(l, 11, l.len());
            assert(rest@ == l@.skip(11));
            let path = extract_path(&rest);
            let hunks: Vec<Hunk> = Vec::new();
            let f = FileDiff { path, hunks };
            assert(f@.hunks =~= Seq::<HunkV>::empty());
            self.current = Some(f);
            return true;
        }
        if self.hunk.is_none() && starts_with(l, &m.new_path) {
            let rest = sub_vec(l, 4, l.len());
            assert(rest@ == l@.skip(4));
            let cur = self.current.take();
            match cur {
                Some(mut f) => {
                    match clean_ab_path(&rest) {
                        Some(p) => {
                            f.path = p;
                        },
                        None => {},
                    }
                    self.current = Some(f);
                },
                None => {},
            }
            return true;
        }
        if self.hunk.is_none() && (starts_with(l, &m.old_path) || starts_with(l, &m.index)) {
            return true;
        }
        if starts_with(l, &m.hunk) {
            self.close_hunk();
            let rest = sub_vec(l, 3, l.len());
            assert(rest@ == l@.skip(3));
            let (o, n) = parse_hunk_header(&rest);
            self.old_line = o;
            self.new_line = n;
            let header = string_of(l, 0, l.len());
            assert(header@ == l@);
            let lines: Vec<Line> = Vec::new();
            let h = Hunk { header, lines };
            assert(h@.lines =~= Seq::<LineV>::empty());
            self.hunk = Some(h);
            return true;
        }
        let taken = self.hunk.take();
        let mut h = match taken {
            Some(h) => h,
            None => {
                return true;
            },
        };
        if l.len() > 0 && l[0] == '+' {
            if self.new_line == u32::MAX {
                self.hunk = Some(h);
                return false;
            }
            let content = string_of(l, 1, l.len());
            assert(content@ == l@.skip(1));
            push_line(
                &mut h,
                Line {
                    kind: LineKind::Added,
                    old_lineno: None,
                    new_lineno: Some(self.new_line),
                    content,
                },
            );
            self.new_line = self.new_line + 1;
        } else if l.len() > 0 && l[0] == '-' {
            if self.old_line == u32::MAX {
                self.hunk = Some(h);
                return false;
            }
            let content = string_of(l, 1, l.len());
            assert(content@ == l@.skip(1));
            push_line(
                &mut h,
                Line {
                    kind: LineKind::Removed,
                    old_lineno: Some(self.old_line),
                    new_lineno: None,
                    content,
                },
            );
            self.old_line = self.old_line + 1;
        } else if l.len() > 0 && l[0] == ' ' {
            if self.old_line == u32::MAX || self.new_line == u32::MAX {
                self.hunk = Some(h);
                return false;
            }
            let content = string_of(l, 1, l.len());
            assert(content@ == l@.skip(1));
            push_line(
                &mut h,
                Line {
                    kind: LineKind::Context,
                    old_lineno: Some(self.old_line),
                    new_lineno: Some(self.new_line),
                    content,
                },
            );
            self.old_line = self.old_line + 1;
            self.new_line = self.new_line + 1;
        }
        self.hunk = Some(h);
        true
    }
}

/// Parses `git diff`-style unified diff text into a list of per-file hunks; `None`
/// exactly where a line number would pass `u32::MAX`.
pub fn parse_checked(diff_text: &str) -> (files: Option<Vec<FileDiff>>)
    ensures
        files matches Some(fs) ==> parse_spec(diff_text@) == Some(files_view(fs@)),
        files is None ==> parse_spec(diff_text@) is None,
{
    let cs = chars_of(diff_text);
    let lines = split_lines(&cs);
    let ghost ls = seqs_view(lines@);
    let m = Markers::new();
    let mut acc = ParseAcc {
        files: Vec::new(),
        current: None,
        hunk: None,
        old_line: 0,
        new_line: 0,
    };
    assert(acc@ == init_state()) by {
        assert(files_view(acc.files@) =~= Seq::<FileDiffV>::empty());
    }
    let mut i: usize = 0;
    assert(ls.skip(0) == ls);
    while i < lines.len()
        invariant
            m.wf(),
            ls == lines_of(diff_text@),
            ls == seqs_view(lines@),
            i <= lines@.len(),
            run_from(init_state(), ls) == run_from(acc@, ls.skip(i as int)),
        decreases lines@.len() - i,
    {
        let ghost before = acc@;
        assert(ls.skip(i as int)[0] == lines@[i as int]@);
        assert(ls.skip(i as int).drop_first() == ls.skip(i + 1));
        if !acc.step(&lines[i], &m) {
            assert(run_from(before, ls.skip(i as int)) is None);
            return None;
        }
        i = i + 1;
    }
    assert(ls.skip(i as int) == Seq::<Seq<char>>::empty());
    acc.close_hunk();
    acc.close_file();
    Some(acc.files)
}

/// Parses `git diff`-style unified diff text into a list of per-file hunks.
pub fn parse(diff_text: &str) -> (files: Vec<FileDiff>)
    requires
        parse_spec(diff_text@) is Some,
    ensures
        parse_spec(diff_text@) == Some(files_view(files@)),
{
    match parse_checked(diff_text) {
        Some(fs) => fs,
        None => Vec::new(),
    }
}


// ---------------------------------------------------------------------------
// Statistics
// ---------------------------------------------------------------------------

/// The number of lines of kind `k` in `ls`.
pub open spec fn count_kind(ls: Seq<LineV>, k: LineKind) -> nat
    decreases ls.len(),
{
    if ls.len() == 0 {
        0
    } else {
        count_kind(ls.drop_last(), k) + if ls.last().kind == k {
            1nat
        } else {
            0nat
        }
    }
}

/// The number of lines of kind `k` over all of `hs`.
pub open spec fn hunks_count(hs: Seq<HunkV>, k: LineKind) -> nat
    decreases hs.len(),
{
    if hs.len() == 0 {
        0
    } else {
        hunks_count(hs.drop_last(), k) + count_kind(hs.last().lines, k)
    }
}

/// The number of lines over all of `hs`.
pub open spec fn total_lines(hs: Seq<HunkV>) -> nat
    decreases hs.len(),
{
    if hs.len() == 0 {
        0
    } else {
        total_lines(hs.drop_last()) + hs.last().lines.len()
    }
}

pub proof fn lemma_count_kind_bound(ls: Seq<LineV>, k: LineKind)
    ensures
        count_kind(ls, k) <= ls.len(),
    decreases ls.len(),
{
    if ls.len() > 0 {
        lemma_count_kind_bound(ls.drop_last(), k);
    }
}

pub proof fn lemma_hunks_count_bound(hs: Seq<HunkV>, k: LineKind)
    ensures
        hunks_count(hs, k) <= total_lines(hs),
    decreases hs.len(),
{
    if hs.len() > 0 {
        lemma_hunks_count_bound(hs.drop_last(), k);
        lemma_count_kind_bound(hs.last().lines, k);
    }
}

pub proof fn lemma_total_lines_prefix(hs: Seq<HunkV>, i: int)
    requires
        0 <= i <= hs.len(),
    ensures
        total_lines(hs.take(i)) <= total_lines(hs),
    decreases hs.len(),
{
    if i < hs.len() {
        assert(hs.drop_last().take(i) == hs.take(i));
        lemma_total_lines_prefix(hs.drop_last(), i);
    } else {
        assert(hs.take(i) == hs);
    }
}

/// Counts added/removed lines across all of a file's hunks.
pub fn file_stats(file: &FileDiff) -> (r: (usize, usize))
    requires
        total_lines(file@.hunks) <= usize::MAX,
    ensures
        r.0 == hunks_count(file@.hunks, LineKind::Added),
        r.1 == hunks_count(file@.hunks, LineKind::Removed),
{
    let ghost hs = file@.hunks;
    let mut added: usize = 0;
    let mut removed: usize = 0;
    let mut i: usize = 0;
    while i < file.hunks.len()
        invariant
            hs == file@.hunks,
            total_lines(hs) <= usize::MAX,
            i <= hs.len(),
            added == hunks_count(hs.take(i as int), LineKind::Added),
            removed == hunks_count(hs.take(i as int), LineKind::Removed),
        decreases hs.len() - i,
    {
        let hunk = &file.hunks[i];
        let ghost ls = hunk@.lines;
        assert(hs[i as int] == hunk@);
        assert(hs.take(i + 1).drop_last() == hs.take(i as int));
        proof {
            lemma_total_lines_prefix(hs, i + 1);
            lemma_hunks_count_bound(hs.take(i as int), LineKind::Added);
            lemma_hunks_count_bound(hs.take(i as int), LineKind::Removed);
        }
        let mut j: usize = 0;
        while j < hunk.lines.len()
            invariant
                ls == hunk@.lines,
                j <= ls.len(),
                total_lines(hs.take(i + 1)) <= usize::MAX,
                total_lines(hs.take(i + 1)) == total_lines(hs.take(i as int)) + ls.len(),
                hunks_count(hs.take(i as int), LineKind::Added) <= total_lines(hs.take(i as int)),
                hunks_count(hs.take(i as int), LineKind::Removed) <= total_lines(hs.take(i as int)),
                added == hunks_count(hs.take(i as int), LineKind::Added) + count_kind(
                    ls.take(j as int),
                    LineKind::Added,
                ),
                removed == hunks_count(hs.take(i as int), LineKind::Removed) + count_kind(
                    ls.take(j as int),
                    LineKind::Removed,
                ),
            decreases ls.len() - j,
        {
            assert(ls.take(j + 1).drop_last() == ls.take(j as int));
            assert(ls[j as int] == hunk.lines@[j as int]@);
            proof {
                lemma_count_kind_bound(ls.take(j + 1), LineKind::Added);
                lemma_count_kind_bound(ls.take(j + 1), LineKind::Removed);
            }
            match hunk.lines[j].kind {
                LineKind::Added => added += 1,
                LineKind::Removed => removed += 1,
                LineKind::Context => {},
            }
            j += 1;
        }
        assert(ls.take(j as int) == ls);
        i += 1;
    }
    assert(hs.take(i as int) == hs);
    (added, removed)
}

} // verus!

verus! {

// ---------------------------------------------------------------------------
// Comparing diffs
// ---------------------------------------------------------------------------

fn same_text(a: &String, b: &String) -> (r: bool)
    ensures
        r == (a@ == b@),
{
    let x = chars_of(a.as_str());
    let y = chars_of(b.as_str());
    if x.len() != y.len() {
        return false;
    }
    let mut i: usize = 0;
    while i < x.len()
        invariant
            x@ == a@,
            y@ == b@,
            x@.len() == y@.len(),
            i <= x@.len(),
            x@.take(i as int) == y@.take(i as int),
        decreases x@.len() - i,
    {
        if x[i] != y[i] {
            assert(x@[i as int] != y@[i as int]);
            return false;
        }
        assert(x@.take(i + 1) == x@.take(i as int).push(x@[i as int]));
        assert(y@.take(i + 1) == y@.take(i as int).push(y@[i as int]));
        i = i + 1;
    }
    assert(x@.take(i as int) == x@);
    assert(y@.take(i as int) == y@);
    true
}

fn same_number(a: Option<u32>, b: Option<u32>) -> (r: bool)
    ensures
        r == (a == b),
{
    match (a, b) {
        (Some(x), Some(y)) => x == y,
        (None, None) => true,
        _ => false,
    }
}

fn same_line(a: &Line, b: &Line) -> (r: bool)
    ensures
        r == (a@ == b@),
{
    a.kind == b.kind && same_number(a.old_lineno, b.old_lineno) && same_number(
        a.new_lineno,
        b.new_lineno,
    ) && same_text(&a.content, &b.content)
}

fn same_hunk(a: &Hunk, b: &Hunk) -> (r: bool)
    ensures
        r == (a@ == b@),
{
    if !same_text(&a.header, &b.header) || a.lines.len() != b.lines.len() {
        proof {
            if a@ == b@ {
                assert(a@.lines.len() == a.lines@.len());
                assert(b@.lines.len() == b.lines@.len());
            }
        }
        return false;
    }
    let ghost la = a@.lines;
    let ghost lb = b@.lines;
    let mut i: usize = 0;
    while i < a.lines.len()
        invariant
            la == a@.lines,
            lb == b@.lines,
            a.lines@.len() == b.lines@.len(),
            a@.header == b@.header,
            i <= a.lines@.len(),
            la.take(i as int) == lb.take(i as int),
        decreases a.lines@.len() - i,
    {
        if !same_line(&a.lines[i], &b.lines[i]) {
            assert(la[i as int] != lb[i as int]);
            return false;
        }
        assert(la.take(i + 1) == la.take(i as int).push(la[i as int]));
        assert(lb.take(i + 1) == lb.take(i as int).push(lb[i as int]));
        i = i + 1;
    }
    assert(la.take(i as int) == la);
    assert(lb.take(i as int) == lb);
    true
}

fn same_file(a: &FileDiff, b: &FileDiff) -> (r: bool)
    ensures
        r == (a@ == b@),
{
    if !same_text(&a.path, &b.path) || a.hunks.len() != b.hunks.len() {
        proof {
            if a@ == b@ {
                assert(a@.hunks.len() == a.hunks@.len());
                assert(b@.hunks.len() == b.hunks@.len());
            }
        }
        return false;
    }
    let ghost ha = a@.hunks;
    let ghost hb = b@.hunks;
    let mut i: usize = 0;
    while i < a.hunks.len()
        invariant
            ha == a@.hunks,
            hb == b@.hunks,
            a.hunks@.len() == b.hunks@.len(),
            a@.path == b@.path,
            i <= a.hunks@.len(),
            ha.take(i as int) == hb.take(i as int),
        decreases a.hunks@.len() - i,
    {
        if !same_hunk(&a.hunks[i], &b.hunks[i]) {
            assert(ha[i as int] != hb[i as int]);
            return false;
        }
        assert(ha.take(i + 1) == ha.take(i as int).push(ha[i as int]));
        assert(hb.take(i + 1) == hb.take(i as int).push(hb[i as int]));
        i = i + 1;
    }
    assert(ha.take(i as int) == ha);
    assert(hb.take(i as int) == hb);
    true
}

/// Whether two parsed diffs are the same: the same files, with the same hunks and
/// lines, in the same order.
pub fn same_files(a: &Vec<FileDiff>, b: &Vec<FileDiff>) -> (r: bool)
    ensures
        r == (files_view(a@) == files_view(b@)),
{
    let ghost fa = files_view(a@);
    let ghost fb = files_view(b@);
    if a.len() != b.len() {
        assert(fa.len() == a@.len());
        return false;
    }
    let mut i: usize = 0;
    while i < a.len()
        invariant
            fa == files_view(a@),
            fb == files_view(b@),
            a@.len() == b@.len(),
            i <= a@.len(),
            fa.take(i as int) == fb.take(i as int),
        decreases a@.len() - i,
    {
        if !same_file(&a[i], &b[i]) {
            assert(fa[i as int] != fb[i as int]);
            return false;
        }
        assert(fa.take(i + 1) == fa.take(i as int).push(fa[i as int]));
        assert(fb.take(i + 1) == fb.take(i as int).push(fb[i as int]));
        i = i + 1;
    }
    assert(fa.take(i as int) == fa);
    assert(fb.take(i as int) == fb);
    true
}

} // verus!
