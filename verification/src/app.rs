//! The viewer's state: the projects on show, the screen, the Home screen's filter, the
//! selected project and file, how far the diff is scrolled, and each opened project's
//! rendered lines.

use std::path::PathBuf;

use vstd::prelude::*;

use crate::diffmodel::{files_view, same_files, FileDiff, FileDiffV, Hunk, HunkV, Line, LineKind, LineV};
use crate::highlight::{
    no_newline, syntax_for, advanced, fresh_highlighter, highlight_spec, HighlighterModel, Highlighter, LineHighlighter,
};
use crate::project::{files_count, files_total_lines, project_stats, same_path, same_root, Project};
use crate::style::{span, spans_text, text_line, text_lines_view, Color, Span, SpanV, Style, TextLine};
use crate::text::{
    all_digits, chars_of, dec_value, decimal, law_decimal_denotes_its_number, lemma_decimal_len,
    pow10, push_decimal, string_of,
};
use crate::watch::Update;

verus! {

// ---------------------------------------------------------------------------
// What a rendered file looks like
// ---------------------------------------------------------------------------

/// `s` right-aligned in a field of `w` columns (`format!("{:>w$}")`).
pub open spec fn pad_left(s: Seq<char>, w: nat) -> Seq<char> {
    if s.len() < w {
        Seq::new((w - s.len()) as nat, |i: int| ' ') + s
    } else {
        s
    }
}

/// A line number right-aligned in four columns, or four blanks when there is none.
pub open spec fn number_field(n: Option<u32>) -> Seq<char> {
    match n {
        Some(v) => pad_left(decimal(v as nat), 4),
        None => pad_left(seq![], 4),
    }
}

/// The gutter of a diff line: its old and new line numbers.
pub open spec fn gutter_text(l: LineV) -> Seq<char> {
    number_field(l.old_lineno) + seq![' '] + number_field(l.new_lineno) + seq![' ']
}

pub open spec fn gutter_style() -> Style {
    Style { fg: Some(Color::DarkGray), ..Style::plain_spec() }
}

/// The marker column of a diff line, followed by a blank.
pub open spec fn marker_text(k: LineKind) -> Seq<char> {
    match k {
        LineKind::Added => seq!['+', ' '],
        LineKind::Removed => seq!['-', ' '],
        LineKind::Context => seq![' ', ' '],
    }
}

pub open spec fn marker_style(k: LineKind) -> Style {
    match k {
        LineKind::Added => Style { fg: Some(Color::Green), ..Style::plain_spec() },
        LineKind::Removed => Style { fg: Some(Color::Red), ..Style::plain_spec() },
        LineKind::Context => Style::plain_spec(),
    }
}

/// The background that tints added and removed content.
pub open spec fn tint(k: LineKind) -> Option<Color> {
    match k {
        LineKind::Added => Some(Color::Rgb(20, 40, 22)),
        LineKind::Removed => Some(Color::Rgb(45, 20, 22)),
        LineKind::Context => None,
    }
}

pub open spec fn header_style() -> Style {
    Style { fg: Some(Color::Cyan), bold: true, ..Style::plain_spec() }
}

/// A content span on the tint of a line of kind `k`: its background replaced by the
/// tint where the kind has one, else left as it is.
pub open spec fn tinted(s: SpanV, k: LineKind) -> SpanV {
    match tint(k) {
        Some(c) => SpanV { content: s.content, style: Style { bg: Some(c), ..s.style } },
        None => s,
    }
}

/// The gutter and marker spans that open the drawing of the diff line `l`.
pub open spec fn line_prefix(l: LineV) -> Seq<SpanV> {
    seq![
        SpanV { content: gutter_text(l), style: gutter_style() },
        SpanV { content: marker_text(l.kind), style: marker_style(l.kind) },
    ]
}

/// The drawing of the diff line `l` whose content is drawn as `content`: gutter, marker,
/// then each content span on the tint of the line's kind.
pub open spec fn decorated(l: LineV, content: Seq<SpanV>) -> Seq<SpanV> {
    line_prefix(l) + content.map_values(|s: SpanV| tinted(s, l.kind))
}

/// The texts that a file's highlighter is given for the lines `ls`: each line's content
/// and a newline.
pub open spec fn fed_lines(ls: Seq<LineV>) -> Seq<Seq<char>> {
    ls.map_values(|l: LineV| l.content.push('\n'))
}

/// The lines of the hunks `hs`, in order.
pub open spec fn all_lines(hs: Seq<HunkV>) -> Seq<LineV>
    decreases hs.len(),
{
    if hs.len() == 0 {
        seq![]
    } else {
        all_lines(hs.drop_last()) + hs.last().lines
    }
}

/// The content spans of the diff line `l`, the lines `before` it having been drawn
/// first: highlighted by a highlighter that started as `start` and was given each of
/// them in turn, or one plain span of the content where there is no highlighter.
pub open spec fn content_spans(start: Option<HighlighterModel>, before: Seq<LineV>, l: LineV) -> Seq<SpanV> {
    match start {
        Some(m) => highlight_spec(HighlighterModel { fed: m.fed + fed_lines(before), ..m }, l.content),
        None => seq![SpanV { content: l.content, style: Style::plain_spec() }],
    }
}

/// `out` draws the diff line `l`, the lines `before` it having been drawn first: gutter,
/// marker, then its content spans on the tint of its kind; the content spans hold the
/// line's text, end to end.
pub open spec fn line_drawn(out: Seq<SpanV>, l: LineV, start: Option<HighlighterModel>, before: Seq<LineV>) -> bool {
    &&& out == decorated(l, content_spans(start, before, l))
    &&& no_newline(l.content) ==> spans_text(content_spans(start, before, l)) == l.content
}

/// `out` draws the hunk `h`, whose lines follow the lines `before`: its header line,
/// then each of its lines with gutter, marker and content on the tint of its kind.
pub open spec fn hunk_rendered(
    out: Seq<Seq<SpanV>>,
    h: HunkV,
    start: Option<HighlighterModel>,
    before: Seq<LineV>,
) -> bool {
    &&& out.len() == h.lines.len() + 1
    &&& out[0] == seq![SpanV { content: h.header, style: header_style() }]
    &&& forall|j: int|
        0 <= j < h.lines.len() ==> line_drawn(
            out[j + 1],
            #[trigger] h.lines[j],
            start,
            before + h.lines.take(j),
        )
}

/// `out` draws the hunks `hs`, one after another, their lines highlighted in order by
/// one highlighter that started as `start` (or plain where there is none).
pub open spec fn file_rendered(out: Seq<Seq<SpanV>>, hs: Seq<HunkV>, start: Option<HighlighterModel>) -> bool
    decreases hs.len(),
{
    if hs.len() == 0 {
        out.len() == 0
    } else {
        let n = hs.last().lines.len() + 1;
        &&& out.len() >= n
        &&& file_rendered(out.take(out.len() - n), hs.drop_last(), start)
        &&& hunk_rendered(out.skip(out.len() - n), hs.last(), start, all_lines(hs.drop_last()))
    }
}

/// `out` draws the file `f`, highlighted in a syntax for its path (or plain where the
/// default sets lack it).
pub open spec fn file_drawn(out: Seq<Seq<SpanV>>, f: FileDiffV) -> bool {
    exists|syntax: Seq<char>|
        syntax_for(f.path, syntax) && file_rendered(out, f.hunks, fresh_highlighter(syntax))
}

// ---------------------------------------------------------------------------
// Rendering
// ---------------------------------------------------------------------------

/// Appends `n` right-aligned in four columns, or four blanks when there is none.
fn push_number_field(s: &mut String, n: Option<u32>)
    ensures
        final(s)@ == old(s)@ + number_field(n),
{
    let mut digits = String::new();
    match n {
        Some(v) => push_decimal(&mut digits, v as u64),
        None => {},
    }
    let ghost ds = digits@;
    assert(ds == match n {
        Some(v) => decimal(v as nat),
        None => Seq::<char>::empty(),
    });
    let cs = chars_of(digits.as_str());
    let mut k = cs.len();
    while k < 4
        invariant
            cs@.len() <= k <= 4 || (k == cs@.len() && k >= 4),
            s@ == old(s)@ + Seq::new((k - cs@.len()) as nat, |i: int| ' '),
        decreases 4 - k,
    {
        s.push(' ');
        assert(s@ == old(s)@ + Seq::new((k + 1 - cs@.len()) as nat, |i: int| ' '));
        k = k + 1;
    }
    let ghost pad = s@;
    let mut i: usize = 0;
    while i < cs.len()
        invariant
            i <= cs@.len(),
            s@ == pad + cs@.take(i as int),
        decreases cs@.len() - i,
    {
        s.push(cs[i]);
        assert(cs@.take(i + 1) == cs@.take(i as int).push(cs@[i as int]));
        i = i + 1;
    }
    assert(cs@.take(i as int) == cs@);
    assert(s@ == old(s)@ + number_field(n));
}

/// The gutter text of a diff line.
fn gutter(l: &Line) -> (s: String)
    ensures
        s@ == gutter_text(l@),
{
    let mut s = String::new();
    push_number_field(&mut s, l.old_lineno);
    s.push(' ');
    push_number_field(&mut s, l.new_lineno);
    s.push(' ');
    s
}

/// Draws the diff line `l` with its content drawn as `content`: its gutter, its marker,
/// then each content span on the tint of the line's kind.
pub fn decorate_line(l: &Line, content: Vec<Span>) -> (out: TextLine)
    ensures
        out@ == decorated(l@, content@.map_values(|s: Span| s@)),
{
    let (marker, mstyle, bg) = match l.kind {
        LineKind::Added => ('+', Style::plain().fg(Color::Green), Some(Color::Rgb(20, 40, 22))),
        LineKind::Removed => ('-', Style::plain().fg(Color::Red), Some(Color::Rgb(45, 20, 22))),
        LineKind::Context => (' ', Style::plain(), None),
    };
    let mut spans: Vec<Span> = Vec::new();
    spans.push(span(gutter(l), Style::plain().fg(Color::DarkGray)));
    let mut m = String::new();
    m.push(marker);
    m.push(' ');
    assert(m@ =~= marker_text(l.kind));
    assert(mstyle == marker_style(l.kind));
    spans.push(span(m, mstyle));
    let ghost cv = content@.map_values(|s: Span| s@);
    let mut i: usize = 0;
    while i < content.len()
        invariant
            i <= content@.len(),
            cv == content@.map_values(|s: Span| s@),
            bg == tint(l.kind),
            spans@.len() == 2 + i,
            spans@[0]@ == (SpanV { content: gutter_text(l@), style: gutter_style() }),
            spans@[1]@ == (SpanV { content: marker_text(l.kind), style: marker_style(l.kind) }),
            forall|k: int| 0 <= k < i ==> (#[trigger] spans@[k + 2])@ == tinted(cv[k], l.kind),
        decreases content@.len() - i,
    {
        let mut style = content[i].style;
        match bg {
            Some(b) => {
                style = style.bg(b);
            },
            None => {},
        }
        let text = content[i].content.clone();
        spans.push(span(text, style));
        i = i + 1;
    }
    let out = text_line(spans);
    proof {
        let want = decorated(l@, cv);
        assert(out@.len() == want.len());
        assert forall|k: int| 0 <= k < want.len() implies out@[k] == want[k] by {
            assert(out@[k] == spans@[k]@);
            if k >= 2 {
                assert(spans@[(k - 2) + 2]@ == tinted(cv[k - 2], l.kind));
            }
        }
        assert(out@ =~= want);
    }
    out
}

/// The content of the diff line `l`: highlighted where a highlighter is at hand, which
/// then moves on past the line, else one plain span.
fn line_content(
    l: &Line,
    highlighter: &Highlighter,
    hl: &mut Option<LineHighlighter>,
) -> (content: Vec<Span>)
    ensures
        content@.map_values(|s: Span| s@) == match *old(hl) {
            Some(h) => highlight_spec(h@, l.content@),
            None => seq![SpanV { content: l.content@, style: Style::plain_spec() }],
        },
        match *old(hl) {
            Some(h) => *final(hl) matches Some(h2) && h2@ == advanced(h@, l.content@),
            None => *final(hl) is None,
        },
        no_newline(l.content@) ==> spans_text(content@.map_values(|s: Span| s@)) == l.content@,
{
    match hl {
        Some(h) => highlighter.highlight(h, l.content.as_str()),
        None => {
            let mut c: Vec<Span> = Vec::new();
            c.push(span(l.content.clone(), Style::plain()));
            let ghost cv = c@.map_values(|s: Span| s@);
            assert(cv =~= seq![SpanV { content: l.content@, style: Style::plain_spec() }]);
            assert(cv.drop_last() =~= Seq::<SpanV>::empty());
            assert(spans_text(cv) == spans_text(cv.drop_last()) + l.content@);
            assert(spans_text(Seq::<SpanV>::empty()) == Seq::<char>::empty());
            assert(spans_text(cv) =~= l.content@);
            c
        },
    }
}

/// The model of an optional highlighter.
pub open spec fn model_of(hl: Option<LineHighlighter>) -> Option<HighlighterModel> {
    match hl {
        Some(h) => Some(h@),
        None => None,
    }
}

/// The highlighter that started as `start` after the lines `ls`.
pub open spec fn after(start: Option<HighlighterModel>, ls: Seq<LineV>) -> Option<HighlighterModel> {
    match start {
        Some(m) => Some(HighlighterModel { fed: m.fed + fed_lines(ls), ..m }),
        None => None,
    }
}

proof fn lemma_all_lines_step(hs: Seq<HunkV>, i: int)
    requires
        0 <= i < hs.len(),
    ensures
        all_lines(hs.take(i + 1)) == all_lines(hs.take(i)) + hs[i].lines,
{
    assert(hs.take(i + 1).drop_last() == hs.take(i));
}

proof fn lemma_fed_push(ls: Seq<LineV>, l: LineV)
    ensures
        fed_lines(ls.push(l)) == fed_lines(ls).push(l.content.push('\n')),
{
    assert(fed_lines(ls.push(l)) =~= fed_lines(ls).push(l.content.push('\n')));
}

/// Draws a file's diff in the syntax named `syntax`: each hunk's header line, then each
/// of its lines with gutter, marker and content highlighted by one highlighter, line
/// after line in file order (plain where the default sets lack the syntax).
pub fn render_file_in(file: &FileDiff, highlighter: &Highlighter, syntax: &str) -> (lines: Vec<TextLine>)
    ensures
        file_rendered(text_lines_view(lines@), file@.hunks, fresh_highlighter(syntax@)),
{
    let mut hl = highlighter.line_highlighter(syntax);
    let ghost start = fresh_highlighter(syntax@);
    assert(model_of(hl) == start);
    let mut lines: Vec<TextLine> = Vec::new();
    let ghost hs = file@.hunks;
    assert(hs.take(0) == Seq::<HunkV>::empty());
    assert(fed_lines(Seq::<LineV>::empty()) =~= Seq::<Seq<char>>::empty());
    proof {
        match start {
            Some(m) => {
                assert(m.fed + fed_lines(Seq::<LineV>::empty()) =~= m.fed);
            },
            None => {},
        }
    }
    let mut i: usize = 0;
    while i < file.hunks.len()
        invariant
            hs == file@.hunks,
            i <= hs.len(),
            file_rendered(text_lines_view(lines@), hs.take(i as int), start),
            model_of(hl) == after(start, all_lines(hs.take(i as int))),
        decreases hs.len() - i,
    {
        let hunk: &Hunk = &file.hunks[i];
        let ghost h = hunk@;
        assert(hs[i as int] == h);
        let ghost before = all_lines(hs.take(i as int));
        let ghost done = text_lines_view(lines@);
        let ghost first = lines@.len();
        let mut header_spans: Vec<Span> = Vec::new();
        header_spans.push(span(hunk.header.clone(), Style::plain().fg(Color::Cyan).bold()));
        let header = text_line(header_spans);
        assert(header@ =~= seq![SpanV { content: h.header, style: header_style() }]);
        lines.push(header);
        assert(text_lines_view(lines@).take(first as int) =~= done);
        assert(h.lines.take(0) =~= Seq::<LineV>::empty());
        assert(before + h.lines.take(0) =~= before);
        let mut j: usize = 0;
        while j < hunk.lines.len()
            invariant
                h == hunk@,
                j <= h.lines.len(),
                lines@.len() == first + 1 + j,
                text_lines_view(lines@).take(first as int) == done,
                text_lines_view(lines@)[first as int] == seq![
                    SpanV { content: h.header, style: header_style() },
                ],
                model_of(hl) == after(start, before + h.lines.take(j as int)),
                forall|k: int|
                    0 <= k < j ==> line_drawn(
                        text_lines_view(lines@)[first + 1 + k],
                        #[trigger] h.lines[k],
                        start,
                        before + h.lines.take(k),
                    ),
            decreases h.lines.len() - j,
        {
            let line: &Line = &hunk.lines[j];
            assert(h.lines[j as int] == line@);
            let ghost prev = before + h.lines.take(j as int);
            let content = line_content(line, highlighter, &mut hl);
            proof {
                assert(h.lines.take(j + 1) == h.lines.take(j as int).push(line@));
                assert(before + h.lines.take(j + 1) == prev.push(line@));
                lemma_fed_push(prev, line@);
                match start {
                    Some(m) => {
                        assert(m.fed + fed_lines(prev.push(line@)) =~= (m.fed + fed_lines(prev)).push(
                            line@.content.push('\n'),
                        ));
                    },
                    None => {},
                }
            }
            let rl = decorate_line(line, content);
            let ghost tl0 = text_lines_view(lines@);
            lines.push(rl);
            assert(text_lines_view(lines@) =~= tl0.push(rl@));
            j = j + 1;
        }
        proof {
            let tl = text_lines_view(lines@);
            let n = h.lines.len() + 1;
            let hs2 = hs.take(i + 1);
            assert(hs2.drop_last() == hs.take(i as int));
            assert(hs2.last() == h);
            assert(tl.take(tl.len() - n) == done);
            let seg = tl.skip(tl.len() - n);
            assert(seg[0] == tl[first as int]);
            assert forall|k: int| 0 <= k < h.lines.len() implies line_drawn(
                seg[k + 1],
                #[trigger] h.lines[k],
                start,
                before + h.lines.take(k),
            ) by {
                assert(seg[k + 1] == tl[first + 1 + k]);
            }
            assert(hunk_rendered(seg, h, start, before));
            lemma_all_lines_step(hs, i as int);
            assert(h.lines.take(h.lines.len() as int) == h.lines);
        }
        i = i + 1;
    }
    assert(hs.take(i as int) == hs);
    lines
}

/// Draws a file's diff in the syntax found for its path (plain text where none is):
/// each hunk's header line, then each of its lines with gutter, marker and content,
/// highlighted line after line in file order.
pub fn render_file(file: &FileDiff, highlighter: &Highlighter) -> (lines: Vec<TextLine>)
    ensures
        file_drawn(text_lines_view(lines@), file@),
{
    let syntax = highlighter.syntax_for_path(file.path.as_str());
    let lines = render_file_in(file, highlighter, syntax.as_str());
    assert(syntax_for(file@.path, syntax@) && file_rendered(
        text_lines_view(lines@),
        file@.hunks,
        fresh_highlighter(syntax@),
    ));
    lines
}

// ---------------------------------------------------------------------------
// Projects, screens and the project filter
// ---------------------------------------------------------------------------

/// A project as the viewer holds it: its files with their line totals, and its files'
/// rendered lines once it has been opened (rendering waits until then, and is kept).
pub struct ProjectView {
    pub name: String,
    pub root: PathBuf,
    pub files: Vec<FileDiff>,
    pub added: usize,
    pub removed: usize,
    pub rendered: Option<Vec<Vec<TextLine>>>,
}

/// The full-page screens: the project list, and one project's files and diff.
#[derive(Debug, Clone, Copy, PartialEq, Eq, Structural)]
pub enum Screen {
    Home,
    Diff,
}

/// `c` with an ASCII capital letter made small.
pub open spec fn fold_case(c: char) -> char {
    if 'A' <= c && c <= 'Z' {
        (((c as u8) + 32) as u8) as char
    } else {
        c
    }
}

fn fold_case_exec(c: char) -> (r: char)
    ensures
        r == fold_case(c),
{
    if 'A' <= c && c <= 'Z' {
        (((c as u8) + 32) as u8) as char
    } else {
        c
    }
}

/// The filter's match: the characters of `query` occur in `name` in order, not
/// necessarily side by side, ASCII letters compared without case.
pub open spec fn fuzzy_match(query: Seq<char>, name: Seq<char>) -> bool
    decreases name.len(),
{
    if query.len() == 0 {
        true
    } else if name.len() == 0 {
        false
    } else if fold_case(query.last()) == fold_case(name.last()) {
        fuzzy_match(query.drop_last(), name.drop_last())
    } else {
        fuzzy_match(query, name.drop_last())
    }
}

/// The indices, in order, of the names that `query` matches.
pub open spec fn matching(query: Seq<char>, names: Seq<Seq<char>>) -> Seq<usize>
    decreases names.len(),
{
    if names.len() == 0 {
        seq![]
    } else {
        let before = matching(query, names.drop_last());
        if fuzzy_match(query, names.last()) {
            before.push((names.len() - 1) as usize)
        } else {
            before
        }
    }
}

/// The projects' names, in order.
pub open spec fn project_names(ps: Seq<ProjectView>) -> Seq<Seq<char>> {
    ps.map_values(|p: ProjectView| p.name@)
}

fn fuzzy_match_exec(q: &Vec<char>, n: &Vec<char>) -> (r: bool)
    ensures
        r == fuzzy_match(q@, n@),
{
    let mut i = q.len();
    let mut j = n.len();
    assert(q@.take(i as int) == q@);
    assert(n@.take(j as int) == n@);
    while i > 0 && j > 0
        invariant
            i <= q@.len(),
            j <= n@.len(),
            fuzzy_match(q@, n@) == fuzzy_match(q@.take(i as int), n@.take(j as int)),
        decreases j,
    {
        let ghost qi = q@.take(i as int);
        let ghost nj = n@.take(j as int);
        assert(qi.drop_last() == q@.take(i - 1));
        assert(nj.drop_last() == n@.take(j - 1));
        assert(qi.last() == q@[i - 1]);
        assert(nj.last() == n@[j - 1]);
        if fold_case_exec(q[i - 1]) == fold_case_exec(n[j - 1]) {
            i = i - 1;
        }
        j = j - 1;
    }
    i == 0
}

/// The indices of the projects whose names `query` matches.
fn matching_exec(query: &String, projects: &Vec<ProjectView>) -> (r: Vec<usize>)
    ensures
        r@ == matching(query@, project_names(projects@)),
{
    let q = chars_of(query.as_str());
    let ghost names = project_names(projects@);
    let mut r: Vec<usize> = Vec::new();
    let mut i: usize = 0;
    assert(names.take(0) == Seq::<Seq<char>>::empty());
    while i < projects.len()
        invariant
            q@ == query@,
            names == project_names(projects@),
            i <= names.len(),
            r@ == matching(q@, names.take(i as int)),
        decreases names.len() - i,
    {
        let ghost t = names.take(i + 1);
        assert(t.drop_last() == names.take(i as int));
        assert(t.last() == projects@[i as int].name@);
        let n = chars_of(projects[i].name.as_str());
        if fuzzy_match_exec(&q, &n) {
            r.push(i);
        }
        i = i + 1;
    }
    assert(names.take(i as int) == names);
    r
}

/// A project's rendered lines are held and draw its files.
pub open spec fn cached(pv: ProjectView) -> bool {
    &&& pv.rendered matches Some(rs)
    &&& rs@.len() == pv.files@.len()
    &&& forall|i: int|
        0 <= i < rs@.len() ==> file_drawn(text_lines_view(#[trigger] rs@[i]@), pv.files@[i]@)
}

/// `q` is `p` with project `sel` rendered if it was not yet: a rendering that was held
/// is kept as it was, every other project is unchanged.
pub open spec fn render_post(p: Seq<ProjectView>, q: Seq<ProjectView>, sel: usize) -> bool {
    &&& q.len() == p.len()
    &&& forall|j: int| 0 <= j < p.len() && j != sel ==> #[trigger] q[j] == p[j]
    &&& sel < p.len() ==> {
        &&& p[sel as int].rendered is Some ==> q[sel as int] == p[sel as int]
        &&& p[sel as int].rendered is None ==> {
            &&& q[sel as int] == ProjectView { rendered: q[sel as int].rendered, ..p[sel as int] }
            &&& cached(q[sel as int])
        }
    }
}

/// The project view that a loaded project starts as: its totals counted, nothing
/// rendered yet.
pub open spec fn starts_as(p: Project, v: ProjectView) -> bool {
    &&& v.name == p.name
    &&& v.root == p.root
    &&& v.files == p.files
    &&& v.added == files_count(files_view(p.files@), LineKind::Added)
    &&& v.removed == files_count(files_view(p.files@), LineKind::Removed)
    &&& v.rendered is None
}

/// Renders every file of `files`.
fn render_all(files: &Vec<FileDiff>, highlighter: &Highlighter) -> (rs: Vec<Vec<TextLine>>)
    ensures
        rs@.len() == files@.len(),
        forall|i: int|
            0 <= i < rs@.len() ==> file_drawn(text_lines_view(#[trigger] rs@[i]@), files@[i]@),
{
    let mut rs: Vec<Vec<TextLine>> = Vec::new();
    let mut i: usize = 0;
    while i < files.len()
        invariant
            i <= files@.len(),
            rs@.len() == i,
            forall|k: int|
                0 <= k < i ==> file_drawn(text_lines_view(#[trigger] rs@[k]@), files@[k]@),
        decreases files@.len() - i,
    {
        rs.push(render_file(&files[i], highlighter));
        i = i + 1;
    }
    rs
}

// ---------------------------------------------------------------------------
// The viewer's state
// ---------------------------------------------------------------------------

pub struct App {
    pub projects: Vec<ProjectView>,
    pub screen: Screen,
    pub selected_project: usize,
    pub selected_file: usize,
    pub scroll: u16,
    pub should_quit: bool,
    /// The Home screen's filter text.
    pub query: String,
    /// The indices of the projects that the filter matches, in order.
    pub matches: Vec<usize>,
    /// The position within `matches` of the selected project on the Home screen.
    pub matched_selected: usize,
    /// A Space was just pressed on the Diff screen; a second one goes Home.
    pub space_pending: bool,
    /// Made on the first rendering, then kept.
    pub highlighter: Option<Highlighter>,
}

/// The selection after moving to the next file: one on, unless it is the last.
pub open spec fn next_selection(selected: usize, count: nat) -> usize {
    if selected + 1 < count {
        (selected + 1) as usize
    } else {
        selected
    }
}

/// The selection after moving to the previous file: one back, unless it is the first.
pub open spec fn prev_selection(selected: usize) -> usize {
    if selected > 0 {
        (selected - 1) as usize
    } else {
        selected
    }
}

/// The scroll offset after scrolling down by `amount`, stopping at `u16::MAX`.
pub open spec fn scrolled_down(scroll: u16, amount: u16) -> u16 {
    if scroll + amount > u16::MAX {
        u16::MAX
    } else {
        (scroll + amount) as u16
    }
}

/// The scroll offset after scrolling up by `amount`, stopping at `0`.
pub open spec fn scrolled_up(scroll: u16, amount: u16) -> u16 {
    if scroll < amount {
        0
    } else {
        (scroll - amount) as u16
    }
}

/// The project after `selected` among `count`, the first after the last.
pub open spec fn next_project_index(selected: usize, count: nat) -> usize {
    if selected + 1 < count {
        (selected + 1) as usize
    } else {
        0
    }
}

/// The project before `selected` among `count`, the last before the first.
pub open spec fn prev_project_index(selected: usize, count: nat) -> usize {
    if 0 < selected && selected <= count {
        (selected - 1) as usize
    } else {
        (count - 1) as usize
    }
}

/// The number of files of the selected project.
pub open spec fn file_count(a: App) -> nat {
    if a.selected_project < a.projects@.len() {
        a.projects@[a.selected_project as int].files@.len()
    } else {
        0
    }
}

/// The rendered lines of the selected file, if its project is rendered.
pub open spec fn current_lines(a: App) -> Seq<TextLine> {
    if a.selected_project < a.projects@.len() {
        match a.projects@[a.selected_project as int].rendered {
            Some(rs) => if a.selected_file < rs@.len() {
                rs@[a.selected_file as int]@
            } else {
                Seq::empty()
            },
            None => Seq::empty(),
        }
    } else {
        Seq::empty()
    }
}

/// `q` is `p` with the project `idx` open on `screen`, at its first file, unscrolled,
/// and rendered.
pub open spec fn opened(p: App, q: App, idx: usize, screen: Screen) -> bool {
    &&& render_post(p.projects@, q.projects@, idx)
    &&& q == App {
        projects: q.projects,
        highlighter: q.highlighter,
        selected_project: idx,
        selected_file: 0,
        scroll: 0,
        screen,
        ..p
    }
}

/// `q` is `p` moved to the next file of the selected project, back at the top of it;
/// on the last file nothing changes.
pub open spec fn next_file_post(p: App, q: App) -> bool {
    q == App {
        selected_file: next_selection(p.selected_file, file_count(p)),
        scroll: if p.selected_file + 1 < file_count(p) {
            0
        } else {
            p.scroll
        },
        ..p
    }
}

/// `q` is `p` moved to the previous file, back at the top of it; on the first file
/// nothing changes.
pub open spec fn prev_file_post(p: App, q: App) -> bool {
    q == App {
        selected_file: prev_selection(p.selected_file),
        scroll: if p.selected_file > 0 {
            0
        } else {
            p.scroll
        },
        ..p
    }
}

/// `q` is `p` with the next project opened on the same screen (the first after the
/// last); with no projects nothing changes.
pub open spec fn next_project_post(p: App, q: App) -> bool {
    if p.projects@.len() == 0 {
        q == p
    } else {
        opened(p, q, next_project_index(p.selected_project, p.projects@.len()), p.screen)
    }
}

/// `q` is `p` with the previous project opened on the same screen (the last before the
/// first); with no projects nothing changes.
pub open spec fn prev_project_post(p: App, q: App) -> bool {
    if p.projects@.len() == 0 {
        q == p
    } else {
        opened(p, q, prev_project_index(p.selected_project, p.projects@.len()), p.screen)
    }
}

/// `q` is `p` with the filter text `query`, the matches it gives, the first selected.
pub open spec fn filtered(p: App, q: App, query: Seq<char>) -> bool {
    &&& q.query@ == query
    &&& q.matches@ == matching(query, project_names(p.projects@))
    &&& q == App { query: q.query, matches: q.matches, matched_selected: 0, ..p }
}

/// `q` is `p` with the project selected on the Home screen opened on the Diff screen;
/// with no project selected nothing changes.
pub open spec fn confirm_post(p: App, q: App) -> bool {
    if p.matched_selected < p.matches@.len() && p.matches@[p.matched_selected as int]
        < p.projects@.len() {
        opened(p, q, p.matches@[p.matched_selected as int], Screen::Diff)
    } else {
        q == p
    }
}

impl App {
    /// The viewer over `projects`, on the Home screen with every project listed and the
    /// first selected; nothing is rendered yet.
    pub fn new(projects: Vec<Project>) -> (app: Self)
        requires
            forall|i: int|
                0 <= i < projects@.len() ==> files_total_lines(
                    files_view(#[trigger] projects@[i].files@),
                ) <= usize::MAX,
        ensures
            app.projects@.len() == projects@.len(),
            forall|i: int| 0 <= i < projects@.len() ==> starts_as(projects@[i], #[trigger] app.projects@[i]),
            app.screen == Screen::Home,
            app.selected_project == 0,
            app.selected_file == 0,
            app.scroll == 0,
            !app.should_quit,
            app.query@ == Seq::<char>::empty(),
            app.matches@ == matching(Seq::<char>::empty(), project_names(app.projects@)),
            app.matched_selected == 0,
            !app.space_pending,
            app.highlighter is None,
    {
        let mut rest = projects;
        let ghost orig = rest@;
        let mut views: Vec<ProjectView> = Vec::new();
        while rest.len() > 0
            invariant
                views@.len() + rest@.len() == orig.len(),
                rest@ == orig.skip(views@.len() as int),
                forall|i: int| 0 <= i < orig.len() ==> files_total_lines(
                    files_view(#[trigger] orig[i].files@),
                ) <= usize::MAX,
                forall|i: int| 0 <= i < views@.len() ==> starts_as(orig[i], #[trigger] views@[i]),
            decreases rest@.len(),
        {
            let ghost k = views@.len();
            assert(rest@[0] == orig[k as int]);
            let p = rest.remove(0);
            assert(rest@ == orig.skip((k + 1) as int));
            let (_, added, removed) = project_stats(&p);
            let v = ProjectView {
                name: p.name,
                root: p.root,
                files: p.files,
                added,
                removed,
                rendered: None,
            };
            views.push(v);
        }
        let query = String::new();
        let matches = matching_exec(&query, &views);
        App {
            projects: views,
            screen: Screen::Home,
            selected_project: 0,
            selected_file: 0,
            scroll: 0,
            should_quit: false,
            query,
            matches,
            matched_selected: 0,
            space_pending: false,
            highlighter: None,
        }
    }

    /// The selected project, if the selection is within the projects.
    pub fn current_project(&self) -> (p: Option<&ProjectView>)
        ensures
            p == (if self.selected_project < self.projects@.len() {
                Some(&self.projects@[self.selected_project as int])
            } else {
                None
            }),
    {
        if self.selected_project < self.projects.len() {
            Some(&self.projects[self.selected_project])
        } else {
            None
        }
    }

    /// The selected file of the selected project, if both selections are in range.
    pub fn current_file(&self) -> (f: Option<&FileDiff>)
        ensures
            f == (if self.selected_project < self.projects@.len() && self.selected_file
                < self.projects@[self.selected_project as int].files@.len() {
                Some(&self.projects@[self.selected_project as int].files@[self.selected_file as int])
            } else {
                None
            }),
    {
        if self.selected_project < self.projects.len() {
            let p = &self.projects[self.selected_project];
            if self.selected_file < p.files.len() {
                return Some(&p.files[self.selected_file]);
            }
        }
        None
    }

    /// The rendered lines of the selected file, or none where its project is not
    /// rendered or a selection is out of range.
    pub fn current_rendered(&self) -> (lines: &[TextLine])
        ensures
            lines@ == current_lines(*self),
    {
        if self.selected_project < self.projects.len() {
            match &self.projects[self.selected_project].rendered {
                Some(rs) => {
                    if self.selected_file < rs.len() {
                        return rs[self.selected_file].as_slice();
                    }
                },
                None => {},
            }
        }
        &[]
    }

    /// The project that the Home screen's selection points at, shown in its preview.
    pub fn preview_project(&self) -> (p: Option<&ProjectView>)
        ensures
            p == (if self.matched_selected < self.matches@.len() && self.matches@[self.matched_selected as int]
                < self.projects@.len() {
                Some(&self.projects@[self.matches@[self.matched_selected as int] as int])
            } else {
                None
            }),
    {
        if self.matched_selected < self.matches.len() {
            let idx = self.matches[self.matched_selected];
            if idx < self.projects.len() {
                return Some(&self.projects[idx]);
            }
        }
        None
    }

    /// Renders the selected project's files, the first time it is opened.
    pub fn ensure_rendered(&mut self)
        ensures
            render_post(old(self).projects@, final(self).projects@, old(self).selected_project),
            *final(self) == (App {
                projects: final(self).projects,
                highlighter: final(self).highlighter,
                ..*old(self)
            }),
    {
        let sp = self.selected_project;
        if sp < self.projects.len() && self.projects[sp].rendered.is_none() {
            let h = match self.highlighter.take() {
                Some(h) => h,
                None => Highlighter::new(),
            };
            let rs = render_all(&self.projects[sp].files, &h);
            let ghost before = self.projects@;
            let old_view = self.projects.remove(sp);
            let v = ProjectView {
                name: old_view.name,
                root: old_view.root,
                files: old_view.files,
                added: old_view.added,
                removed: old_view.removed,
                rendered: Some(rs),
            };
            self.projects.insert(sp, v);
            assert forall|j: int| 0 <= j < before.len() && j != sp implies #[trigger] self.projects@[j]
                == before[j] by {
                if j < sp {
                } else {
                }
            }
            self.highlighter = Some(h);
        }
    }

    /// Opens the project `idx` on `screen`, at its first file, unscrolled.
    fn open_project(&mut self, idx: usize, screen: Screen)
        requires
            idx < old(self).projects@.len(),
        ensures
            opened(*old(self), *final(self), idx, screen),
    {
        self.selected_project = idx;
        self.selected_file = 0;
        self.scroll = 0;
        self.screen = screen;
        self.ensure_rendered();
    }

    /// Moves to the next file, back to the top of it; stays on the last file.
    pub fn next_file(&mut self)
        requires
            old(self).selected_file < usize::MAX,
        ensures
            next_file_post(*old(self), *final(self)),
    {
        let count = if self.selected_project < self.projects.len() {
            self.projects[self.selected_project].files.len()
        } else {
            0
        };
        if self.selected_file + 1 < count {
            self.selected_file += 1;
            self.scroll = 0;
        }
    }

    /// Moves to the previous file, back to the top of it; stays on the first file.
    pub fn prev_file(&mut self)
        ensures
            prev_file_post(*old(self), *final(self)),
    {
        if self.selected_file > 0 {
            self.selected_file -= 1;
            self.scroll = 0;
        }
    }

    /// Switches to the next project (the first after the last), rendering it if needed.
    pub fn next_project(&mut self)
        ensures
            next_project_post(*old(self), *final(self)),
    {
        let n = self.projects.len();
        if n > 0 {
            let idx = if self.selected_project < n - 1 {
                self.selected_project + 1
            } else {
                0
            };
            let screen = self.screen;
            self.open_project(idx, screen);
        }
    }

    /// Switches to the previous project (the last before the first), rendering it if
    /// needed.
    pub fn prev_project(&mut self)
        ensures
            prev_project_post(*old(self), *final(self)),
    {
        let n = self.projects.len();
        if n > 0 {
            let idx = if 0 < self.selected_project && self.selected_project <= n {
                self.selected_project - 1
            } else {
                n - 1
            };
            let screen = self.screen;
            self.open_project(idx, screen);
        }
    }

    /// Scrolls the diff down by `amount` lines, stopping at `u16::MAX`.
    pub fn scroll_down(&mut self, amount: u16)
        ensures
            *final(self) == (App { scroll: scrolled_down(old(self).scroll, amount), ..*old(self) }),
    {
        self.scroll = self.scroll.saturating_add(amount);
    }

    /// Scrolls the diff up by `amount` lines, stopping at the top.
    pub fn scroll_up(&mut self, amount: u16)
        ensures
            *final(self) == (App { scroll: scrolled_up(old(self).scroll, amount), ..*old(self) }),
    {
        self.scroll = self.scroll.saturating_sub(amount);
    }

    /// Asks the viewer to quit.
    pub fn quit(&mut self)
        ensures
            *final(self) == (App { should_quit: true, ..*old(self) }),
    {
        self.should_quit = true;
    }

    /// Returns to the Home screen.
    pub fn go_home(&mut self)
        ensures
            *final(self) == (App { screen: Screen::Home, ..*old(self) }),
    {
        self.screen = Screen::Home;
    }

    /// Adds `c` to the filter text.
    pub fn home_type(&mut self, c: char)
        ensures
            filtered(*old(self), *final(self), old(self).query@.push(c)),
    {
        self.query.push(c);
        self.matches = matching_exec(&self.query, &self.projects);
        self.matched_selected = 0;
    }

    /// Removes the last character of the filter text, if there is one.
    pub fn home_backspace(&mut self)
        ensures
            filtered(
                *old(self),
                *final(self),
                if old(self).query@.len() > 0 {
                    old(self).query@.drop_last()
                } else {
                    old(self).query@
                },
            ),
    {
        let cs = chars_of(self.query.as_str());
        if cs.len() > 0 {
            self.query = string_of(&cs, 0, cs.len() - 1);
            assert(self.query@ == cs@.drop_last());
        }
        self.matches = matching_exec(&self.query, &self.projects);
        self.matched_selected = 0;
    }

    /// Moves the Home selection one up, stopping at the first match.
    pub fn home_move_up(&mut self)
        ensures
            *final(self) == (App {
                matched_selected: prev_selection(old(self).matched_selected),
                ..*old(self)
            }),
    {
        if self.matched_selected > 0 {
            self.matched_selected -= 1;
        }
    }

    /// Moves the Home selection one down, stopping at the last match.
    pub fn home_move_down(&mut self)
        requires
            old(self).matched_selected < usize::MAX,
        ensures
            *final(self) == (App {
                matched_selected: next_selection(old(self).matched_selected, old(self).matches@.len()),
                ..*old(self)
            }),
    {
        if self.matched_selected + 1 < self.matches.len() {
            self.matched_selected += 1;
        }
    }

    /// Opens the project selected on the Home screen.
    pub fn home_confirm(&mut self)
        ensures
            confirm_post(*old(self), *final(self)),
    {
        if self.matched_selected < self.matches.len() {
            let idx = self.matches[self.matched_selected];
            if idx < self.projects.len() {
                self.open_project(idx, Screen::Diff);
            }
        }
    }
}


// ---------------------------------------------------------------------------
// Keys
// ---------------------------------------------------------------------------

/// A key press, as far as the viewer tells keys apart.
#[derive(Debug, Clone, Copy, PartialEq, Eq, Structural)]
pub enum Key {
    Char(char),
    Enter,
    Backspace,
    Esc,
    Up,
    Down,
    Left,
    Right,
    Tab,
    BackTab,
    Other,
}

/// What a key asks of the viewer.
#[derive(Debug, Clone, Copy, PartialEq, Eq, Structural)]
pub enum Action {
    Quit,
    ScrollDown(u16),
    ScrollUp(u16),
    NextFile,
    PrevFile,
    NextProject,
    PrevProject,
    Top,
    Space,
    Type(char),
    Backspace,
    MoveUp,
    MoveDown,
    Confirm,
    Nothing,
}

/// The key bindings. On the Home screen: `q`/Esc quit, Enter/Right open the selected
/// project, Up/Down move the selection, Backspace and other characters edit the filter.
/// On the Diff screen: `q`/Esc quit, `j`/`k` (or arrows) scroll a line, `d`/`u` scroll a
/// page, `n`/`p` (or Tab/Shift-Tab/arrows) switch files, `}`/`{` switch projects, `g`
/// jumps to the top, Space twice returns Home.
pub open spec fn action_of(screen: Screen, key: Key) -> Action {
    match screen {
        Screen::Home => match key {
            Key::Char('q') | Key::Esc => Action::Quit,
            Key::Enter | Key::Right => Action::Confirm,
            Key::Up => Action::MoveUp,
            Key::Down => Action::MoveDown,
            Key::Backspace => Action::Backspace,
            Key::Char(c) => Action::Type(c),
            _ => Action::Nothing,
        },
        Screen::Diff => match key {
            Key::Char(' ') => Action::Space,
            Key::Char('q') | Key::Esc => Action::Quit,
            Key::Char('j') | Key::Down => Action::ScrollDown(1),
            Key::Char('k') | Key::Up => Action::ScrollUp(1),
            Key::Char('d') => Action::ScrollDown(15),
            Key::Char('u') => Action::ScrollUp(15),
            Key::Char('n') | Key::Tab | Key::Right => Action::NextFile,
            Key::Char('p') | Key::BackTab | Key::Left => Action::PrevFile,
            Key::Char('}') => Action::NextProject,
            Key::Char('{') => Action::PrevProject,
            Key::Char('g') => Action::Top,
            _ => Action::Nothing,
        },
    }
}

/// The action a key asks for on `screen`.
pub fn key_action(screen: Screen, key: Key) -> (a: Action)
    ensures
        a == action_of(screen, key),
{
    match screen {
        Screen::Home => match key {
            Key::Char('q') | Key::Esc => Action::Quit,
            Key::Enter | Key::Right => Action::Confirm,
            Key::Up => Action::MoveUp,
            Key::Down => Action::MoveDown,
            Key::Backspace => Action::Backspace,
            Key::Char(c) => Action::Type(c),
            _ => Action::Nothing,
        },
        Screen::Diff => match key {
            Key::Char(' ') => Action::Space,
            Key::Char('q') | Key::Esc => Action::Quit,
            Key::Char('j') | Key::Down => Action::ScrollDown(1),
            Key::Char('k') | Key::Up => Action::ScrollUp(1),
            Key::Char('d') => Action::ScrollDown(15),
            Key::Char('u') => Action::ScrollUp(15),
            Key::Char('n') | Key::Tab | Key::Right => Action::NextFile,
            Key::Char('p') | Key::BackTab | Key::Left => Action::PrevFile,
            Key::Char('}') => Action::NextProject,
            Key::Char('{') => Action::PrevProject,
            Key::Char('g') => Action::Top,
            _ => Action::Nothing,
        },
    }
}

/// `q` is `p` after carrying out `a`. A Space with one pending goes Home; a first Space
/// waits for the second; every other action clears a waiting Space.
pub open spec fn action_post(p: App, q: App, a: Action) -> bool {
    let c = App { space_pending: false, ..p };
    match a {
        Action::Space => if p.space_pending {
            q == App { screen: Screen::Home, ..c }
        } else {
            q == App { space_pending: true, ..p }
        },
        Action::Quit => q == App { should_quit: true, ..c },
        Action::ScrollDown(n) => q == App { scroll: scrolled_down(p.scroll, n), ..c },
        Action::ScrollUp(n) => q == App { scroll: scrolled_up(p.scroll, n), ..c },
        Action::Top => q == App { scroll: 0, ..c },
        Action::NextFile => next_file_post(c, q),
        Action::PrevFile => prev_file_post(c, q),
        Action::NextProject => next_project_post(c, q),
        Action::PrevProject => prev_project_post(c, q),
        Action::Type(ch) => filtered(c, q, p.query@.push(ch)),
        Action::Backspace => filtered(
            c,
            q,
            if p.query@.len() > 0 {
                p.query@.drop_last()
            } else {
                p.query@
            },
        ),
        Action::MoveUp => q == App { matched_selected: prev_selection(p.matched_selected), ..c },
        Action::MoveDown => q == App {
            matched_selected: next_selection(p.matched_selected, p.matches@.len()),
            ..c
        },
        Action::Confirm => confirm_post(c, q),
        Action::Nothing => q == c,
    }
}

impl App {
    /// Carries out the action that `key` asks for on the current screen.
    pub fn handle_key(&mut self, key: Key)
        requires
            action_of(old(self).screen, key) == Action::NextFile ==> old(self).selected_file
                < usize::MAX,
            action_of(old(self).screen, key) == Action::MoveDown ==> old(self).matched_selected
                < usize::MAX,
        ensures
            action_post(*old(self), *final(self), action_of(old(self).screen, key)),
    {
        let a = key_action(self.screen, key);
        match a {
            Action::Space => {
                if self.space_pending {
                    self.space_pending = false;
                    self.go_home();
                } else {
                    self.space_pending = true;
                }
                return;
            },
            _ => {},
        }
        self.space_pending = false;
        match a {
            Action::Quit => self.quit(),
            Action::ScrollDown(n) => self.scroll_down(n),
            Action::ScrollUp(n) => self.scroll_up(n),
            Action::Top => {
                self.scroll = 0;
            },
            Action::NextFile => self.next_file(),
            Action::PrevFile => self.prev_file(),
            Action::NextProject => self.next_project(),
            Action::PrevProject => self.prev_project(),
            Action::Type(c) => self.home_type(c),
            Action::Backspace => self.home_backspace(),
            Action::MoveUp => self.home_move_up(),
            Action::MoveDown => self.home_move_down(),
            Action::Confirm => self.home_confirm(),
            _ => {},
        }
    }
}

// ---------------------------------------------------------------------------
// Laws of navigation
// ---------------------------------------------------------------------------

/// Moving to the next file keeps the selection within the files.
pub proof fn law_next_stays_within(selected: usize, count: nat)
    requires
        selected < count,
    ensures
        next_selection(selected, count) < count,
{
}

/// Moving to the previous file undoes moving to the next one, wherever the next one
/// moved at all.
pub proof fn law_prev_undoes_next(selected: usize, count: usize)
    requires
        selected + 1 < count,
    ensures
        prev_selection(next_selection(selected, count as nat)) == selected,
{
}

/// Moving to the next file undoes moving to the previous one, wherever the previous one
/// moved at all and the files are as many as before.
pub proof fn law_next_undoes_prev(selected: usize, count: nat)
    requires
        0 < selected < count,
    ensures
        next_selection(prev_selection(selected), count) == selected,
{
}

/// Scrolling up undoes scrolling down by the same amount, unless the scroll stopped at
/// `u16::MAX`.
pub proof fn law_scroll_up_undoes_down(scroll: u16, amount: u16)
    requires
        scroll + amount <= u16::MAX,
    ensures
        scrolled_up(scrolled_down(scroll, amount), amount) == scroll,
{
}

/// Scrolling down undoes scrolling up by the same amount, unless the scroll stopped at
/// the top.
pub proof fn law_scroll_down_undoes_up(scroll: u16, amount: u16)
    requires
        amount <= scroll,
    ensures
        scrolled_down(scrolled_up(scroll, amount), amount) == scroll,
{
}

} // verus!

verus! {

// ---------------------------------------------------------------------------
// Watch updates
// ---------------------------------------------------------------------------

/// The file selection kept within `count` files: the last one where it was past them.
pub open spec fn clamped(selected: usize, count: nat) -> usize {
    if selected < count {
        selected
    } else if count > 0 {
        (count - 1) as usize
    } else {
        0
    }
}

/// `q` is `p` after a fresh diff `pr` of project `idx` came in. Where `idx` is out of
/// range or the diff is as before, nothing changes. Otherwise the project takes the new
/// files and totals, keeping its name and root; its rendering is dropped, and made anew
/// at once where it is the project on show on the Diff screen; where it is the selected
/// project, the file selection is kept within its files.
pub open spec fn update_post(p: App, q: App, idx: usize, pr: Project) -> bool {
    if idx >= p.projects@.len() || files_view(pr.files@) == files_view(
        p.projects@[idx as int].files@,
    ) {
        q == p
    } else {
        let v0 = p.projects@[idx as int];
        let v = q.projects@[idx as int];
        let showing = idx == p.selected_project && p.screen == Screen::Diff;
        &&& q.projects@ == p.projects@.update(
            idx as int,
            ProjectView {
                files: pr.files,
                added: files_count(files_view(pr.files@), LineKind::Added) as usize,
                removed: files_count(files_view(pr.files@), LineKind::Removed) as usize,
                rendered: v.rendered,
                ..v0
            },
        )
        &&& (if showing {
            cached(v)
        } else {
            v.rendered is None
        })
        &&& q == App {
            projects: q.projects,
            highlighter: q.highlighter,
            selected_file: if idx == p.selected_project {
                clamped(p.selected_file, pr.files@.len())
            } else {
                p.selected_file
            },
            ..p
        }
    }
}

impl App {
    /// Takes in the fresh diff `pr` of project `idx`.
    pub fn apply_update_at(&mut self, idx: usize, pr: Project)
        requires
            files_total_lines(files_view(pr.files@)) <= usize::MAX,
        ensures
            update_post(*old(self), *final(self), idx, pr),
    {
        if idx >= self.projects.len() || same_files(&pr.files, &self.projects[idx].files) {
            return;
        }
        let ghost p = *self;
        let (_, added, removed) = project_stats(&pr);
        let count = pr.files.len();
        let v0 = self.projects.remove(idx);
        let v = ProjectView {
            name: v0.name,
            root: v0.root,
            files: pr.files,
            added,
            removed,
            rendered: None,
        };
        self.projects.insert(idx, v);
        assert forall|j: int| 0 <= j < p.projects@.len() && j != idx implies #[trigger] self.projects@[j]
            == p.projects@[j] by {
            if j < idx {
            } else {
            }
        }
        if idx == self.selected_project {
            if self.selected_file >= count {
                self.selected_file = if count > 0 {
                    count - 1
                } else {
                    0
                };
            }
            if self.screen == Screen::Diff {
                self.ensure_rendered();
            }
        }
        assert(self.projects@ =~= p.projects@.update(
            idx as int,
            ProjectView {
                files: pr.files,
                added: files_count(files_view(pr.files@), LineKind::Added) as usize,
                removed: files_count(files_view(pr.files@), LineKind::Removed) as usize,
                rendered: self.projects@[idx as int].rendered,
                ..p.projects@[idx as int]
            },
        ));
    }

    /// Takes in a fresh diff from the watcher: the first project whose root is the
    /// update's root takes the new diff as [`App::apply_update_at`] does. A project is
    /// never added or removed: an update with no project (its changes were committed
    /// away) or with a root that no project has leaves the viewer as it was.
    pub fn apply_watch_update(&mut self, u: Update)
        requires
            u.project matches Some(pr) ==> files_total_lines(files_view(pr.files@)) <= usize::MAX,
        ensures
            u.project is None ==> *final(self) == *old(self),
            (forall|j: int|
                0 <= j < old(self).projects@.len() ==> !same_root(
                    #[trigger] old(self).projects@[j].root,
                    u.root,
                )) ==> *final(self) == *old(self),
            forall|i: int|
                0 <= i < old(self).projects@.len() && same_root(
                    #[trigger] old(self).projects@[i].root,
                    u.root,
                ) && (forall|j: int|
                    0 <= j < i ==> !same_root(old(self).projects@[j].root, u.root))
                    ==> (u.project matches Some(pr) ==> update_post(
                    *old(self),
                    *final(self),
                    i as usize,
                    pr,
                )),
    {
        let ghost up = u.project;
        let Update { root, project } = u;
        assert(project == up);
        match project {
            None => {},
            Some(pr) => {
                let mut i: usize = 0;
                while i < self.projects.len()
                    invariant
                        i <= self.projects@.len(),
                        *self == *old(self),
                        forall|j: int| 0 <= j < i ==> !same_root(#[trigger] self.projects@[j].root, root),
                        root == u.root,
                        up == Some(pr),
                        u.project == up,
                        files_total_lines(files_view(pr.files@)) <= usize::MAX,
                    decreases self.projects@.len() - i,
                {
                    if same_path(&self.projects[i].root, &root) {
                        assert(i < old(self).projects@.len());
                        self.apply_update_at(i, pr);
                        assert(update_post(*old(self), *self, i, pr));
                        assert(u.project == Some(pr));
                        assert(u.project->0 == pr);
                        assert(update_post(*old(self), *self, i, u.project->0));
                        assert(same_root(old(self).projects@[i as int].root, u.root));
                        assert forall|k: int|
                            0 <= k < old(self).projects@.len() && same_root(
                                #[trigger] old(self).projects@[k].root,
                                u.root,
                            ) && (forall|j: int|
                                0 <= j < k ==> !same_root(old(self).projects@[j].root, u.root))
                            implies k == i by {
                            if k > i {
                                assert(!same_root(old(self).projects@[i as int].root, u.root));
                            }
                        }
                        return;
                    }
                    i = i + 1;
                }
            },
        }
    }
}

} // verus!

verus! {

// ---------------------------------------------------------------------------
// Laws of the project filter and of project switching
// ---------------------------------------------------------------------------

/// The filter's matches are exactly the projects whose names it matches, each once, in
/// the order of the list.
pub proof fn law_filter_lists_the_matching_projects_in_order(query: Seq<char>, names: Seq<Seq<char>>)
    requires
        names.len() <= usize::MAX,
    ensures
        forall|i: int, j: int|
            0 <= i < j < matching(query, names).len() ==> matching(query, names)[i] < matching(
                query,
                names,
            )[j],
        forall|i: int|
            0 <= i < matching(query, names).len() ==> matching(query, names)[i] < names.len()
                && fuzzy_match(query, names[matching(query, names)[i] as int]),
        forall|k: int|
            0 <= k < names.len() && fuzzy_match(query, #[trigger] names[k]) ==> matching(
                query,
                names,
            ).contains(k as usize),
    decreases names.len(),
{
    if names.len() > 0 {
        let before = names.drop_last();
        law_filter_lists_the_matching_projects_in_order(query, before);
        let m = matching(query, names);
        let mb = matching(query, before);
        assert forall|i: int| 0 <= i < mb.len() implies mb[i] < before.len() && #[trigger] names[
            mb[i] as int] == before[mb[i] as int] by {}
        assert forall|k: int| 0 <= k < names.len() && fuzzy_match(query, #[trigger] names[k]) implies m.contains(
            k as usize,
        ) by {
            if k < names.len() - 1 {
                assert(names[k] == before[k]);
                assert(mb.contains(k as usize));
                let w = choose|w: int| 0 <= w < mb.len() && mb[w] == k as usize;
                assert(m[w] == k as usize);
            } else {
                assert(m.last() == k as usize);
            }
        }
    }
}

/// With an empty filter every project is listed, in order.
pub proof fn law_empty_filter_lists_every_project(names: Seq<Seq<char>>)
    requires
        names.len() <= usize::MAX,
    ensures
        matching(Seq::<char>::empty(), names) == Seq::new(names.len(), |i: int| i as usize),
    decreases names.len(),
{
    if names.len() > 0 {
        law_empty_filter_lists_every_project(names.drop_last());
        assert(matching(Seq::<char>::empty(), names) =~= Seq::new(names.len(), |i: int| i as usize));
    }
}

/// Switching to the previous project undoes switching to the next one, and the other way
/// round, the last and the first project being neighbours.
pub proof fn law_project_switches_undo_each_other(selected: usize, count: usize)
    requires
        selected < count,
    ensures
        prev_project_index(next_project_index(selected, count as nat), count as nat) == selected,
        next_project_index(prev_project_index(selected, count as nat), count as nat) == selected,
        next_project_index(selected, count as nat) < count,
        prev_project_index(selected, count as nat) < count,
{
}

} // verus!

verus! {

/// Rendering is done once and kept: once a project has been opened, opening it again
/// keeps the lines that the first opening rendered, and those lines draw its files.
pub proof fn law_rendering_is_kept(
    p: Seq<ProjectView>,
    q: Seq<ProjectView>,
    r: Seq<ProjectView>,
    sel: usize,
)
    requires
        sel < p.len(),
        render_post(p, q, sel),
        render_post(q, r, sel),
    ensures
        r[sel as int] == q[sel as int],
        cached(r[sel as int]) || p[sel as int].rendered is Some,
{
}

} // verus!

verus! {

// ---------------------------------------------------------------------------
// The layout of a drawn file
// ---------------------------------------------------------------------------

/// The number of lines in a drawing of the hunks `hs`: a header line per hunk and a line
/// per diff line.
pub open spec fn rendered_count(hs: Seq<HunkV>) -> nat
    decreases hs.len(),
{
    if hs.len() == 0 {
        0
    } else {
        rendered_count(hs.drop_last()) + hs.last().lines.len() + 1
    }
}

proof fn lemma_rendered_count_prefix(hs: Seq<HunkV>, i: int)
    requires
        0 <= i < hs.len(),
    ensures
        rendered_count(hs.take(i)) + hs[i].lines.len() + 1 <= rendered_count(hs),
    decreases hs.len(),
{
    let p = hs.drop_last();
    if i == hs.len() - 1 {
        assert(hs.take(i) == p);
    } else {
        assert(hs.take(i) == p.take(i));
        assert(hs[i] == p[i]);
        lemma_rendered_count_prefix(p, i);
    }
}

/// A drawn file, line by line: it has a header line per hunk and a line per diff line;
/// hunk `i` starts after the lines of the hunks before it with its header line, and its
/// line `j` follows as line `j + 1` of the hunk, with the gutter, marker, tint and
/// content of that diff line, highlighted after every diff line before it in the file.
pub proof fn law_rendered_file_layout(
    out: Seq<Seq<SpanV>>,
    hs: Seq<HunkV>,
    start: Option<HighlighterModel>,
)
    requires
        file_rendered(out, hs, start),
    ensures
        out.len() == rendered_count(hs),
        forall|i: int|
            0 <= i < hs.len() ==> out[rendered_count(hs.take(i)) as int] == seq![
                SpanV { content: (#[trigger] hs[i]).header, style: header_style() },
            ],
        forall|i: int, j: int|
            #![trigger hs[i].lines[j]]
            0 <= i < hs.len() && 0 <= j < hs[i].lines.len() ==> line_drawn(
                out[rendered_count(hs.take(i)) + 1 + j],
                hs[i].lines[j],
                start,
                all_lines(hs.take(i)) + hs[i].lines.take(j),
            ),
    decreases hs.len(),
{
    if hs.len() > 0 {
        let p = hs.drop_last();
        let h = hs.last();
        let n = h.lines.len() + 1;
        let o1 = out.take(out.len() - n);
        let seg = out.skip(out.len() - n);
        law_rendered_file_layout(o1, p, start);
        assert forall|i: int| 0 <= i < hs.len() implies out[rendered_count(hs.take(i)) as int]
            == seq![SpanV { content: (#[trigger] hs[i]).header, style: header_style() }] by {
            if i == hs.len() - 1 {
                assert(hs.take(i) == p);
                assert(seg[0] == out[out.len() - n]);
            } else {
                assert(hs.take(i) == p.take(i));
                assert(hs[i] == p[i]);
                lemma_rendered_count_prefix(p, i);
                assert(p[i] == hs[i]);
                assert(o1[rendered_count(p.take(i)) as int] == out[rendered_count(p.take(i)) as int]);
            }
        }
        assert forall|i: int, j: int|
            #![trigger hs[i].lines[j]]
            0 <= i < hs.len() && 0 <= j < hs[i].lines.len() implies line_drawn(
                out[rendered_count(hs.take(i)) + 1 + j],
                hs[i].lines[j],
                start,
                all_lines(hs.take(i)) + hs[i].lines.take(j),
            ) by {
            if i == hs.len() - 1 {
                assert(hs.take(i) == p);
                assert(hs[i] == h);
                assert(seg[j + 1] == out[out.len() - n + j + 1]);
                assert(h.lines[j] == hs[i].lines[j]);
            } else {
                assert(hs.take(i) == p.take(i));
                assert(hs[i] == p[i]);
                lemma_rendered_count_prefix(p, i);
                assert(p[i].lines[j] == hs[i].lines[j]);
                assert(o1[rendered_count(p.take(i)) + 1 + j] == out[rendered_count(p.take(i)) + 1 + j]);
            }
        }
    }
}

} // verus!

verus! {

// ---------------------------------------------------------------------------
// What the keys do
// ---------------------------------------------------------------------------

/// On the Diff screen: `k` and Up scroll up one line and `j` and Down down one line
/// (stopping at the ends), `u` and `d` a page of fifteen, `g` jumps to the top; `n`,
/// Tab and Right move to the next file and `p`, Shift-Tab and Left to the previous one
/// (each back at the top, staying put at the ends); `}` and `{` open the next and
/// previous project (wrapping round) at its first file; `q` and Esc quit; a second
/// Space in a row goes Home. Scrolling keeps the screen, project and file.
pub proof fn law_diff_screen_keys(p: App, q: App, key: Key)
    requires
        p.screen == Screen::Diff,
        action_post(p, q, action_of(Screen::Diff, key)),
        p.selected_file < usize::MAX,
        p.projects@.len() <= usize::MAX,
    ensures
        key == Key::Char('k') || key == Key::Up ==> {
            &&& q.scroll == (if p.scroll >= 1 { p.scroll - 1 } else { 0 })
            &&& q.screen == Screen::Diff
            &&& q.selected_project == p.selected_project
            &&& q.selected_file == p.selected_file
        },
        key == Key::Char('j') || key == Key::Down ==> {
            &&& q.scroll == (if p.scroll < 65535 { p.scroll + 1 } else { 65535 })
            &&& q.screen == Screen::Diff
            &&& q.selected_project == p.selected_project
            &&& q.selected_file == p.selected_file
        },
        key == Key::Char('u') ==> q.scroll == (if p.scroll >= 15 { p.scroll - 15 } else { 0 }),
        key == Key::Char('d') ==> q.scroll == (if p.scroll <= 65520 { p.scroll + 15 } else { 65535 }),
        key == Key::Char('g') ==> q.scroll == 0 && q.selected_file == p.selected_file,
        key == Key::Char('q') || key == Key::Esc ==> q.should_quit,
        key == Key::Char('n') || key == Key::Tab || key == Key::Right ==> {
            &&& q.selected_file == (if p.selected_file + 1 < file_count(p) {
                p.selected_file + 1
            } else {
                p.selected_file as int
            })
            &&& q.selected_project == p.selected_project
            &&& p.selected_file + 1 < file_count(p) ==> q.scroll == 0
        },
        key == Key::Char('p') || key == Key::BackTab || key == Key::Left ==> {
            &&& q.selected_file == (if p.selected_file > 0 {
                p.selected_file - 1
            } else {
                0
            })
            &&& q.selected_project == p.selected_project
            &&& p.selected_file > 0 ==> q.scroll == 0
        },
        key == Key::Char('}') && p.projects@.len() > 0 ==> {
            &&& q.selected_project == (if p.selected_project + 1 < p.projects@.len() {
                p.selected_project + 1
            } else {
                0
            })
            &&& q.selected_file == 0
            &&& q.scroll == 0
            &&& q.screen == Screen::Diff
        },
        key == Key::Char('{') && p.projects@.len() > 0 ==> {
            &&& q.selected_project == (if 0 < p.selected_project <= p.projects@.len() {
                p.selected_project - 1
            } else {
                p.projects@.len() - 1
            })
            &&& q.selected_file == 0
            &&& q.scroll == 0
            &&& q.screen == Screen::Diff
        },
        key == Key::Char(' ') && p.space_pending ==> q.screen == Screen::Home,
        key == Key::Char(' ') && !p.space_pending ==> q.screen == Screen::Diff && q.space_pending,
{
}

/// On the Home screen: a character other than `q` is added to the filter, which then
/// lists exactly the matching projects with the first selected; Backspace drops the
/// filter's last character; Up and Down move the selection within the matches; Enter
/// and Right open the project that the selection shows; `q` and Esc quit.
pub proof fn law_home_screen_keys(p: App, q: App, key: Key)
    requires
        p.screen == Screen::Home,
        action_post(p, q, action_of(Screen::Home, key)),
        p.matched_selected < usize::MAX,
    ensures
        forall|c: char|
            key == Key::Char(c) && c != 'q' ==> {
                &&& q.query@ == p.query@.push(c)
                &&& q.matches@ == matching(p.query@.push(c), project_names(p.projects@))
                &&& q.matched_selected == 0
                &&& q.screen == Screen::Home
            },
        key == Key::Backspace && p.query@.len() > 0 ==> q.query@ == p.query@.drop_last(),
        key == Key::Up ==> q.matched_selected == (if p.matched_selected > 0 {
            p.matched_selected - 1
        } else {
            0
        }),
        key == Key::Down ==> q.matched_selected == (if p.matched_selected + 1 < p.matches@.len() {
            p.matched_selected + 1
        } else {
            p.matched_selected as int
        }),
        (key == Key::Enter || key == Key::Right) && p.matched_selected < p.matches@.len()
            && p.matches@[p.matched_selected as int] < p.projects@.len() ==> {
            &&& q.screen == Screen::Diff
            &&& q.selected_project == p.matches@[p.matched_selected as int]
            &&& q.selected_file == 0
            &&& q.scroll == 0
        },
        key == Key::Char('q') || key == Key::Esc ==> q.should_quit,
{
}

/// Confirming on the Home screen opens exactly the project that the preview shows (the
/// match at the selected position), on the Diff screen at its first file, rendered; with
/// no such project nothing changes.
pub proof fn law_confirm_opens_the_previewed_project(p: App, q: App)
    requires
        confirm_post(p, q),
    ensures
        p.matched_selected < p.matches@.len() && p.matches@[p.matched_selected as int]
            < p.projects@.len() ==> {
            &&& q.selected_project == p.matches@[p.matched_selected as int]
            &&& q.projects@[q.selected_project as int].name == p.projects@[p.matches@[p.matched_selected as int] as int].name
            &&& q.screen == Screen::Diff
            &&& q.selected_file == 0
            &&& q.scroll == 0
            &&& q.projects@[q.selected_project as int].rendered is Some
        },
        !(p.matched_selected < p.matches@.len() && p.matches@[p.matched_selected as int]
            < p.projects@.len()) ==> q == p,
{
}

} // verus!

verus! {

// ---------------------------------------------------------------------------
// The gutter of a drawn line
// ---------------------------------------------------------------------------

/// The four columns `field` show the line number `n`: blanks, then the decimal digits
/// of the number (at least one); all blanks where there is none.
pub open spec fn shows_number(field: Seq<char>, n: Option<u32>) -> bool {
    &&& field.len() == 4
    &&& match n {
        None => forall|i: int| 0 <= i < 4 ==> field[i] == ' ',
        Some(v) => exists|k: int|
            #![trigger field.skip(k)]
            {
                &&& 0 <= k < 4
                &&& forall|i: int| 0 <= i < k ==> field[i] == ' '
                &&& all_digits(field.skip(k))
                &&& dec_value(field.skip(k)) == v
            },
    }
}

proof fn lemma_number_field_shows(n: Option<u32>)
    requires
        n matches Some(v) ==> v < 10000,
    ensures
        shows_number(number_field(n), n),
{
    match n {
        Some(v) => {
            law_decimal_denotes_its_number(v as nat);
            assert(pow10(4) == 10000) by {
                reveal_with_fuel(pow10, 5);
            }
            lemma_decimal_len(v as nat, 4);
            let d = decimal(v as nat);
            let f = number_field(n);
            let k = 4 - d.len();
            assert(f == Seq::new(k as nat, |i: int| ' ') + d);
            assert(f.skip(k) =~= d);
        },
        None => {},
    }
}

/// Every drawn diff line opens with its gutter, dimmed: its old line number in four
/// columns, a blank, its new line number in four columns, a blank (for line numbers
/// below ten thousand, which fit the columns); then its marker, `+` for an added line,
/// `-` for a removed one and a blank for context, and a blank.
pub proof fn law_gutter_shows_old_then_new(
    out: Seq<SpanV>,
    l: LineV,
    start: Option<HighlighterModel>,
    before: Seq<LineV>,
)
    requires
        line_drawn(out, l, start, before),
        l.old_lineno matches Some(v) ==> v < 10000,
        l.new_lineno matches Some(v) ==> v < 10000,
    ensures
        out[0].content.len() == 10,
        shows_number(out[0].content.take(4), l.old_lineno),
        out[0].content[4] == ' ',
        shows_number(out[0].content.subrange(5, 9), l.new_lineno),
        out[0].content[9] == ' ',
        out[0].style.fg == Some(Color::DarkGray),
        out[1].content == seq![
            match l.kind {
                LineKind::Added => '+',
                LineKind::Removed => '-',
                LineKind::Context => ' ',
            },
            ' ',
        ],
{
    lemma_number_field_shows(l.old_lineno);
    lemma_number_field_shows(l.new_lineno);
    let g = out[0].content;
    assert(g == gutter_text(l));
    assert(g.take(4) =~= number_field(l.old_lineno));
    assert(g.subrange(5, 9) =~= number_field(l.new_lineno));
}

} // verus!
