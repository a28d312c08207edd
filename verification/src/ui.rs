//! The text that the screens draw: the Home screen's project list and preview, file
//! rows with their change counts, key hints and footers, and the diff pane's title.

use vstd::prelude::*;

use crate::app::{App, ProjectView};
use crate::diffmodel::{file_stats, hunks_count, total_lines, FileDiff, LineKind};
use crate::style::{span, text_line, text_lines_view, Color, Span, SpanV, Style, TextLine};
use crate::text::{decimal, lemma_ascii_len, lemma_decimal_ascii, push_decimal};

verus! {

/// The one accent colour that ties selection, the diff pane and key hints together.
pub open spec fn accent() -> Color {
    Color::Rgb(97, 175, 239)
}

pub fn accent_color() -> (c: Color)
    ensures
        c == accent(),
{
    Color::Rgb(97, 175, 239)
}

/// The background of a selected row.
pub fn selected_bg() -> (c: Color)
    ensures
        c == Color::Rgb(40, 40, 60),
{
    Color::Rgb(40, 40, 60)
}

pub open spec fn dim_style() -> Style {
    Style { fg: Some(Color::DarkGray), ..Style::plain_spec() }
}

pub open spec fn key_style() -> Style {
    Style { fg: Some(accent()), bold: true, ..Style::plain_spec() }
}

/// The separator between key hints: a bullet with two blanks on each side.
pub open spec fn hint_separator() -> Seq<char> {
    seq![' ', ' ', '\u{2022}', ' ', ' ']
}

/// The spans of key hints `(key, description)`: each key in the accent colour and bold,
/// then a blank and its description dimmed, hints apart by a dimmed separator.
pub open spec fn hint_spans(pairs: Seq<(Seq<char>, Seq<char>)>) -> Seq<SpanV>
    decreases pairs.len(),
{
    if pairs.len() == 0 {
        seq![]
    } else {
        let before = hint_spans(pairs.drop_last());
        let sep = if pairs.len() > 1 {
            seq![SpanV { content: hint_separator(), style: dim_style() }]
        } else {
            seq![]
        };
        before + sep + seq![
            SpanV { content: pairs.last().0, style: key_style() },
            SpanV { content: seq![' '] + pairs.last().1, style: dim_style() },
        ]
    }
}

pub open spec fn pairs_view(pairs: Seq<(&str, &str)>) -> Seq<(Seq<char>, Seq<char>)> {
    pairs.map_values(|p: (&str, &str)| (p.0@, p.1@))
}

fn str_to_string(s: &str) -> (r: String)
    ensures
        r@ == s@,
{
    let cs = crate::text::chars_of(s);
    crate::text::string_of(&cs, 0, cs.len())
}

/// The spans of a row of key hints.
pub fn key_hint_spans(pairs: &[(&str, &str)]) -> (spans: Vec<Span>)
    ensures
        spans@.map_values(|s: Span| s@) == hint_spans(pairs_view(pairs@)),
{
    let mut spans: Vec<Span> = Vec::new();
    let ghost ps = pairs_view(pairs@);
    let mut i: usize = 0;
    assert(ps.take(0) == Seq::<(Seq<char>, Seq<char>)>::empty());
    while i < pairs.len()
        invariant
            ps == pairs_view(pairs@),
            i <= ps.len(),
            spans@.map_values(|s: Span| s@) == hint_spans(ps.take(i as int)),
        decreases ps.len() - i,
    {
        let (key, desc) = pairs[i];
        if i > 0 {
            let mut sep = String::new();
            sep.push(' ');
            sep.push(' ');
            sep.push('\u{2022}');
            sep.push(' ');
            sep.push(' ');
            assert(sep@ =~= hint_separator());
            spans.push(span(sep, Style::plain().fg(Color::DarkGray)));
        }
        spans.push(span(str_to_string(key), Style::plain().fg(accent_color()).bold()));
        let mut d = String::new();
        d.push(' ');
        let dcs = crate::text::chars_of(desc);
        let mut k: usize = 0;
        while k < dcs.len()
            invariant
                k <= dcs@.len(),
                d@ == seq![' '] + dcs@.take(k as int),
            decreases dcs@.len() - k,
        {
            d.push(dcs[k]);
            assert(dcs@.take(k + 1) == dcs@.take(k as int).push(dcs@[k as int]));
            k = k + 1;
        }
        assert(dcs@.take(k as int) == dcs@);
        spans.push(span(d, Style::plain().fg(Color::DarkGray)));
        proof {
            let t = ps.take(i + 1);
            assert(t.drop_last() == ps.take(i as int));
            assert(t.last() == ps[i as int]);
            assert(ps[i as int] == (key@, desc@));
            assert(spans@.map_values(|s: Span| s@) =~= hint_spans(t));
        }
        i = i + 1;
    }
    assert(ps.take(i as int) == ps);
    spans
}

/// A line of key hints.
pub fn key_hint_line(pairs: &[(&str, &str)]) -> (line: TextLine)
    ensures
        line@ == hint_spans(pairs_view(pairs@)),
{
    text_line(key_hint_spans(pairs))
}

/// The change counts of a row: `+N -M`.
pub open spec fn stats_text(added: usize, removed: usize) -> Seq<char> {
    seq!['+'] + decimal(added as nat) + seq![' ', '-'] + decimal(removed as nat)
}

/// The terminal columns that a text takes: its Unicode display width, as `ratatui`
/// measures a span (`Span::width`).
pub uninterp spec fn display_width(s: Seq<char>) -> nat;

/// `ratatui`'s `Span::width` of a span holding `s`: the columns it takes on a terminal.
#[verifier::external_body]
fn text_width(s: &str) -> (w: usize)
    ensures
        w == display_width(s@),
{
    ratatui::text::Span::raw(s).width()
}

/// The blanks between a row's name and its change counts: enough to right-align the
/// counts to `width` columns once `reserve` columns are set aside, and at least one.
/// `name_len` is the columns that the name takes.
pub open spec fn stat_row_padding(name_len: nat, added: usize, removed: usize, width: u16, reserve: usize) -> nat {
    let used = name_len + stats_text(added, removed).len() + reserve;
    if used < width && width - used > 1 {
        (width - used) as nat
    } else {
        1
    }
}

/// A `name ... +N -M` row: the name, blanks, then `+N ` in green and `-M` in red, for a
/// name that takes `name_width` columns.
pub open spec fn stat_row_spans(name: Seq<char>, name_width: nat, added: usize, removed: usize, width: u16, reserve: usize) -> Seq<SpanV> {
    seq![
        SpanV { content: name, style: Style::plain_spec() },
        SpanV {
            content: Seq::new(stat_row_padding(name_width, added, removed, width, reserve), |i: int| ' '),
            style: Style::plain_spec(),
        },
        SpanV {
            content: seq!['+'] + decimal(added as nat) + seq![' '],
            style: Style { fg: Some(Color::Green), ..Style::plain_spec() },
        },
        SpanV {
            content: seq!['-'] + decimal(removed as nat),
            style: Style { fg: Some(Color::Red), ..Style::plain_spec() },
        },
    ]
}

/// Builds a `name ... +N -M` row, right-aligning the stats to `width` columns.
/// `reserve` accounts for a highlight_symbol prefix on lists that use one. Where the row
/// fits, the name's columns, the blanks, the counts and `reserve` make up `width`;
/// otherwise one blank stands between name and counts.
pub fn stat_row(name: &str, added: usize, removed: usize, width: u16, reserve: usize) -> (row: TextLine)
    ensures
        row@ == stat_row_spans(name@, display_width(name@), added, removed, width, reserve),
        display_width(name@) + stats_text(added, removed).len() + reserve < width
            ==> display_width(name@) + row@[1].content.len() + stats_text(added, removed).len()
            + reserve == width,
        row@[1].content.len() >= 1,
{
    let w = text_width(name);
    stat_row_sized(name, w, added, removed, width, reserve)
}

/// The row of `stat_row` for a name that takes `name_width` columns.
pub fn stat_row_sized(
    name: &str,
    name_width: usize,
    added: usize,
    removed: usize,
    width: u16,
    reserve: usize,
) -> (row: TextLine)
    ensures
        row@ == stat_row_spans(name@, name_width as nat, added, removed, width, reserve),
        name_width + stats_text(added, removed).len() + reserve < width
            ==> name_width + row@[1].content.len() + stats_text(added, removed).len() + reserve
            == width,
        row@[1].content.len() >= 1,
{
    let mut plus = String::new();
    plus.push('+');
    push_decimal(&mut plus, added as u64);
    plus.push(' ');
    let mut minus = String::new();
    minus.push('-');
    push_decimal(&mut minus, removed as u64);
    assert(plus@ == seq!['+'] + decimal(added as nat) + seq![' ']);
    assert(minus@ == seq!['-'] + decimal(removed as nat));
    proof {
        lemma_decimal_ascii(added as nat);
        lemma_decimal_ascii(removed as nat);
        crate::text::lemma_decimal_u64_len(added as u64);
        crate::text::lemma_decimal_u64_len(removed as u64);
        assert(vstd::utf8::is_ascii_chars(plus@));
        assert(vstd::utf8::is_ascii_chars(minus@));
        lemma_ascii_len(plus@);
        lemma_ascii_len(minus@);
    }
    let plus_len = crate::text::chars_of(plus.as_str()).len();
    let minus_len = crate::text::chars_of(minus.as_str()).len();
    assert(plus_len == plus@.len());
    assert(minus_len == minus@.len());
    let stats_len = plus_len + minus_len;
    assert(stats_len == stats_text(added, removed).len());
    // Past `usize::MAX` the row is wider than any `u16` width anyway: one blank.
    let used = name_width.saturating_add(stats_len).saturating_add(reserve);
    let w = width as usize;
    let pad_len = if used < w && w - used > 1 {
        w - used
    } else {
        1
    };
    let mut pad = String::new();
    let mut k: usize = 0;
    while k < pad_len
        invariant
            k <= pad_len,
            pad@ == Seq::new(k as nat, |i: int| ' '),
        decreases pad_len - k,
    {
        pad.push(' ');
        assert(pad@ =~= Seq::new((k + 1) as nat, |i: int| ' '));
        k = k + 1;
    }
    let mut spans: Vec<Span> = Vec::new();
    spans.push(span(str_to_string(name), Style::plain()));
    spans.push(span(pad, Style::plain()));
    spans.push(span(plus, Style::plain().fg(Color::Green)));
    spans.push(span(minus, Style::plain().fg(Color::Red)));
    let row = text_line(spans);
    assert(row@ =~= stat_row_spans(name@, name_width as nat, added, removed, width, reserve));
    assert(row@[1].content.len() == pad_len);
    row
}

/// The title of the diff pane: the selected file's path, or `no changes`; with more
/// than one project, the selected project's name (or `?`) before it, then a dash.
pub open spec fn diff_title(a: App) -> Seq<char> {
    let sp = a.selected_project;
    let file = if sp < a.projects@.len() && a.selected_file < a.projects@[sp as int].files@.len() {
        a.projects@[sp as int].files@[a.selected_file as int].path@
    } else {
        "no changes"@
    };
    if a.projects@.len() > 1 {
        let project = if sp < a.projects@.len() {
            a.projects@[sp as int].name@
        } else {
            "?"@
        };
        project + " \u{2014} "@ + file
    } else {
        file
    }
}

/// The title of the diff pane.
pub fn diff_pane_title(app: &App) -> (title: String)
    ensures
        title@ == diff_title(*app),
{
    let mut file = String::new();
    match app.current_file() {
        Some(f) => push_text(&mut file, f.path.as_str()),
        None => push_text(&mut file, "no changes"),
    }
    if app.projects.len() > 1 {
        let mut title = String::new();
        match app.current_project() {
            Some(p) => push_text(&mut title, p.name.as_str()),
            None => push_text(&mut title, "?"),
        }
        push_text(&mut title, " \u{2014} ");
        push_text(&mut title, file.as_str());
        title
    } else {
        file
    }
}

/// The rows of `files`: each one's path with its added and removed lines.
pub open spec fn file_rows_spec(files: Seq<FileDiff>, width: u16, reserve: usize) -> Seq<Seq<SpanV>> {
    Seq::new(
        files.len(),
        |i: int|
            stat_row_spans(
                files[i].path@,
                display_width(files[i].path@),
                hunks_count(files[i]@.hunks, LineKind::Added) as usize,
                hunks_count(files[i]@.hunks, LineKind::Removed) as usize,
                width,
                reserve,
            ),
    )
}

/// The rows of a list of files, as the Files sidebar (`reserve` 2, for its selection
/// marker) and the Home preview (`reserve` 0) show them.
pub fn file_rows(files: &Vec<FileDiff>, width: u16, reserve: usize) -> (rows: Vec<TextLine>)
    requires
        forall|i: int| 0 <= i < files@.len() ==> total_lines(#[trigger] files@[i]@.hunks) <= usize::MAX,
    ensures
        text_lines_view(rows@) == file_rows_spec(files@, width, reserve),
{
    let mut rows: Vec<TextLine> = Vec::new();
    let mut i: usize = 0;
    while i < files.len()
        invariant
            i <= files@.len(),
            forall|k: int| 0 <= k < files@.len() ==> total_lines(#[trigger] files@[k]@.hunks) <= usize::MAX,
            text_lines_view(rows@) == file_rows_spec(files@, width, reserve).take(i as int),
        decreases files@.len() - i,
    {
        let f = &files[i];
        assert(total_lines(files@[i as int]@.hunks) <= usize::MAX);
        let (added, removed) = file_stats(f);
        let row = stat_row(f.path.as_str(), added, removed, width, reserve);
        let ghost before = text_lines_view(rows@);
        rows.push(row);
        assert(text_lines_view(rows@) =~= before.push(row@));
        assert(file_rows_spec(files@, width, reserve).take(i + 1) =~= file_rows_spec(files@, width, reserve).take(i as int).push(row@));
        i = i + 1;
    }
    assert(file_rows_spec(files@, width, reserve).take(i as int) =~= file_rows_spec(files@, width, reserve));
    rows
}

/// The rows of the Home screen's project list: for each match, in order, the project's
/// name with its added and removed lines, set aside 2 columns for the selection marker.
pub open spec fn project_rows_spec(projects: Seq<ProjectView>, matches: Seq<usize>, width: u16) -> Seq<Seq<SpanV>> {
    Seq::new(
        matches.len(),
        |i: int|
            stat_row_spans(
                projects[matches[i] as int].name@,
                display_width(projects[matches[i] as int].name@),
                projects[matches[i] as int].added,
                projects[matches[i] as int].removed,
                width,
                2,
            ),
    )
}

/// The rows of the Home screen's project list.
pub fn project_list_rows(projects: &Vec<ProjectView>, matches: &Vec<usize>, width: u16) -> (rows: Vec<TextLine>)
    requires
        forall|i: int| 0 <= i < matches@.len() ==> #[trigger] matches@[i] < projects@.len(),
    ensures
        text_lines_view(rows@) == project_rows_spec(projects@, matches@, width),
{
    let mut rows: Vec<TextLine> = Vec::new();
    let mut i: usize = 0;
    while i < matches.len()
        invariant
            i <= matches@.len(),
            forall|k: int| 0 <= k < matches@.len() ==> #[trigger] matches@[k] < projects@.len(),
            text_lines_view(rows@) == project_rows_spec(projects@, matches@, width).take(i as int),
        decreases matches@.len() - i,
    {
        assert(matches@[i as int] < projects@.len());
        let p = &projects[matches[i]];
        let row = stat_row(p.name.as_str(), p.added, p.removed, width, 2);
        let ghost before = text_lines_view(rows@);
        rows.push(row);
        assert(text_lines_view(rows@) =~= before.push(row@));
        assert(project_rows_spec(projects@, matches@, width).take(i + 1) =~= project_rows_spec(projects@, matches@, width).take(i as int).push(row@));
        i = i + 1;
    }
    assert(project_rows_spec(projects@, matches@, width).take(i as int) =~= project_rows_spec(projects@, matches@, width));
    rows
}

/// The rows of the Home screen's preview: the selected project's files, or none.
pub fn preview_rows(sel: Option<&ProjectView>, width: u16) -> (rows: Vec<TextLine>)
    requires
        sel matches Some(p) ==> forall|i: int|
            0 <= i < p.files@.len() ==> total_lines(#[trigger] p.files@[i]@.hunks) <= usize::MAX,
    ensures
        text_lines_view(rows@) == match sel {
            Some(p) => file_rows_spec(p.files@, width, 0),
            None => Seq::<Seq<SpanV>>::empty(),
        },
{
    match sel {
        Some(p) => file_rows(&p.files, width, 0),
        None => {
            let rows: Vec<TextLine> = Vec::new();
            assert(text_lines_view(rows@) =~= Seq::<Seq<SpanV>>::empty());
            rows
        },
    }
}

/// The title of the Home screen's preview: the selected project's name, or `Preview`.
pub fn preview_title(sel: Option<&ProjectView>) -> (t: String)
    ensures
        t@ == match sel {
            Some(p) => p.name@,
            None => "Preview"@,
        },
{
    let mut t = String::new();
    match sel {
        Some(p) => push_text(&mut t, p.name.as_str()),
        None => push_text(&mut t, "Preview"),
    }
    t
}

/// The Diff screen's footer: with more than one project, the selected project's name
/// and the hints to switch projects and to go Home; then the hints to go Home and quit.
pub open spec fn footer_spec(a: App) -> Seq<SpanV> {
    let sep = SpanV { content: hint_separator(), style: dim_style() };
    let projects = if a.projects@.len() > 1 {
        let name = if a.selected_project < a.projects@.len() {
            seq![
                SpanV { content: a.projects@[a.selected_project as int].name@, style: dim_style() },
                sep,
            ]
        } else {
            seq![]
        };
        name + hint_spans(seq![("{ }"@, "switch"@), ("space space"@, "all projects"@)]) + seq![sep]
    } else {
        seq![]
    };
    projects + hint_spans(seq![("\u{2190}"@, "home"@), ("q"@, "quit"@)])
}

/// The spans of the Diff screen's footer.
pub fn footer_spans(app: &App) -> (spans: Vec<Span>)
    ensures
        spans@.map_values(|s: Span| s@) == footer_spec(*app),
{
    let mut spans: Vec<Span> = Vec::new();
    let ghost sep = SpanV { content: hint_separator(), style: dim_style() };
    let ghost a = *app;
    if app.projects.len() > 1 {
        match app.current_project() {
            Some(p) => {
                let mut name = String::new();
                push_text(&mut name, p.name.as_str());
                spans.push(span(name, Style::plain().fg(Color::DarkGray)));
                spans.push(separator_span());
            },
            None => {},
        }
        let switch = [("{ }", "switch"), ("space space", "all projects")];
        let hints = key_hint_spans(&switch);
        assert(pairs_view(switch@) =~= seq![("{ }"@, "switch"@), ("space space"@, "all projects"@)]);
        let ghost named = spans@.map_values(|s: Span| s@);
        assert(named =~= if a.selected_project < a.projects@.len() {
            seq![SpanV { content: a.projects@[a.selected_project as int].name@, style: dim_style() }, sep]
        } else {
            seq![]
        });
        append_spans(&mut spans, hints);
        let ghost hinted = spans@.map_values(|s: Span| s@);
        spans.push(separator_span());
        assert(spans@.map_values(|s: Span| s@) =~= hinted.push(sep));
    } else {
        assert(spans@.map_values(|s: Span| s@) =~= Seq::<SpanV>::empty());
    }
    let home = [("\u{2190}", "home"), ("q", "quit")];
    let hints = key_hint_spans(&home);
    assert(pairs_view(home@) =~= seq![("\u{2190}"@, "home"@), ("q"@, "quit"@)]);
    append_spans(&mut spans, hints);
    assert(spans@.map_values(|s: Span| s@) =~= footer_spec(*app));
    spans
}

/// Appends `more` to `spans`.
fn append_spans(spans: &mut Vec<Span>, more: Vec<Span>)
    ensures
        final(spans)@.map_values(|s: Span| s@) == old(spans)@.map_values(|s: Span| s@) + more@.map_values(|s: Span| s@),
{
    let mut more = more;
    let ghost m = more@;
    let ghost start = spans@.map_values(|s: Span| s@);
    let total = more.len();
    let mut taken: usize = 0;
    while more.len() > 0
        invariant
            more@ == m.skip(taken as int),
            taken + more@.len() == m.len(),
            m.len() == total,
            spans@.map_values(|s: Span| s@) == start + m.take(taken as int).map_values(|s: Span| s@),
        decreases more@.len(),
    {
        let ghost before = spans@.map_values(|s: Span| s@);
        assert(more@[0] == m[taken as int]);
        let s = more.remove(0);
        spans.push(s);
        assert(spans@.map_values(|s: Span| s@) =~= before.push(s@));
        assert(m.take(taken + 1).map_values(|s: Span| s@) =~= m.take(taken as int).map_values(|s: Span| s@).push(s@));
        assert(more@ =~= m.skip(taken + 1));
        taken = taken + 1;
    }
    assert(m.take(taken as int) =~= m);
}

// ---------------------------------------------------------------------------
// The summary of the projects with changes
// ---------------------------------------------------------------------------

/// Appends the text `lit`.
fn push_text(s: &mut String, lit: &str)
    ensures
        final(s)@ == old(s)@ + lit@,
{
    let cs = crate::text::chars_of(lit);
    let mut i: usize = 0;
    while i < cs.len()
        invariant
            i <= cs@.len(),
            s@ == old(s)@ + cs@.take(i as int),
        decreases cs@.len() - i,
    {
        s.push(cs[i]);
        assert(cs@.take(i + 1) == cs@.take(i as int).push(cs@[i as int]));
        i = i + 1;
    }
    assert(cs@.take(i as int) == cs@);
}

/// The total of one column of per-project `(files, added, removed)` counts.
pub open spec fn column_total(stats: Seq<(usize, usize, usize)>, col: int) -> nat
    decreases stats.len(),
{
    if stats.len() == 0 {
        0
    } else {
        column_total(stats.drop_last(), col) + (if col == 0 {
            stats.last().0
        } else if col == 1 {
            stats.last().1
        } else {
            stats.last().2
        }) as nat
    }
}

proof fn lemma_column_total_prefix(stats: Seq<(usize, usize, usize)>, col: int, i: int)
    requires
        0 <= i <= stats.len(),
    ensures
        column_total(stats.take(i), col) <= column_total(stats, col),
    decreases stats.len(),
{
    if i < stats.len() {
        assert(stats.drop_last().take(i) == stats.take(i));
        lemma_column_total_prefix(stats.drop_last(), col, i);
    } else {
        assert(stats.take(i) == stats);
    }
}

/// `one` when `n` is 1, else `many`.
pub open spec fn noun(n: nat, one: Seq<char>, many: Seq<char>) -> Seq<char> {
    if n == 1 {
        one
    } else {
        many
    }
}

/// The summary line of the projects with changes, given each one's `(files, added,
/// removed)` counts: how many projects, how many files, and the added and removed
/// lines over all of them; or a note that there are none.
pub open spec fn summary_spans(stats: Seq<(usize, usize, usize)>) -> Seq<SpanV> {
    if stats.len() == 0 {
        seq![SpanV { content: "No projects with changes found here."@, style: dim_style() }]
    } else {
        let files = column_total(stats, 0);
        seq![
            SpanV {
                content: decimal(stats.len()) + seq![' '] + noun(stats.len(), "project"@, "projects"@)
                    + " with changes"@,
                style: dim_style(),
            },
            SpanV { content: hint_separator(), style: dim_style() },
            SpanV {
                content: decimal(files) + seq![' '] + noun(files, "file"@, "files"@),
                style: dim_style(),
            },
            SpanV { content: hint_separator(), style: dim_style() },
            SpanV {
                content: seq!['+'] + decimal(column_total(stats, 1)) + seq![' '],
                style: Style { fg: Some(Color::Green), ..Style::plain_spec() },
            },
            SpanV {
                content: seq!['-'] + decimal(column_total(stats, 2)),
                style: Style { fg: Some(Color::Red), ..Style::plain_spec() },
            },
        ]
    }
}

fn separator_span() -> (s: Span)
    ensures
        s@ == (SpanV { content: hint_separator(), style: dim_style() }),
{
    let mut sep = String::new();
    sep.push(' ');
    sep.push(' ');
    sep.push('\u{2022}');
    sep.push(' ');
    sep.push(' ');
    assert(sep@ =~= hint_separator());
    span(sep, Style::plain().fg(Color::DarkGray))
}

/// The summary line over projects' `(files, added, removed)` counts.
pub fn summary_line(stats: &[(usize, usize, usize)]) -> (line: TextLine)
    requires
        column_total(stats@, 0) <= usize::MAX,
        column_total(stats@, 1) <= usize::MAX,
        column_total(stats@, 2) <= usize::MAX,
    ensures
        line@ == summary_spans(stats@),
{
    let dim = Style::plain().fg(Color::DarkGray);
    let mut spans: Vec<Span> = Vec::new();
    if stats.len() == 0 {
        let mut s = String::new();
        push_text(&mut s, "No projects with changes found here.");
        spans.push(span(s, dim));
        let line = text_line(spans);
        assert(line@ =~= summary_spans(stats@));
        return line;
    }
    let mut files: usize = 0;
    let mut added: usize = 0;
    let mut removed: usize = 0;
    let mut i: usize = 0;
    while i < stats.len()
        invariant
            i <= stats@.len(),
            column_total(stats@, 0) <= usize::MAX,
            column_total(stats@, 1) <= usize::MAX,
            column_total(stats@, 2) <= usize::MAX,
            files == column_total(stats@.take(i as int), 0),
            added == column_total(stats@.take(i as int), 1),
            removed == column_total(stats@.take(i as int), 2),
        decreases stats@.len() - i,
    {
        proof {
            assert(stats@.take(i + 1).drop_last() == stats@.take(i as int));
            lemma_column_total_prefix(stats@, 0, i + 1);
            lemma_column_total_prefix(stats@, 1, i + 1);
            lemma_column_total_prefix(stats@, 2, i + 1);
        }
        let (f, a, r) = stats[i];
        files = files + f;
        added = added + a;
        removed = removed + r;
        i = i + 1;
    }
    assert(stats@.take(i as int) == stats@);

    let mut projects = String::new();
    push_decimal(&mut projects, stats.len() as u64);
    projects.push(' ');
    if stats.len() == 1 {
        push_text(&mut projects, "project");
    } else {
        push_text(&mut projects, "projects");
    }
    push_text(&mut projects, " with changes");
    assert(projects@ == decimal(stats@.len()) + seq![' '] + noun(stats@.len(), "project"@, "projects"@)
        + " with changes"@);
    spans.push(span(projects, dim));
    spans.push(separator_span());

    let mut file_count = String::new();
    push_decimal(&mut file_count, files as u64);
    file_count.push(' ');
    if files == 1 {
        push_text(&mut file_count, "file");
    } else {
        push_text(&mut file_count, "files");
    }
    assert(file_count@ == decimal(column_total(stats@, 0)) + seq![' '] + noun(column_total(stats@, 0), "file"@, "files"@));
    spans.push(span(file_count, dim));
    spans.push(separator_span());

    let mut plus = String::new();
    plus.push('+');
    push_decimal(&mut plus, added as u64);
    plus.push(' ');
    assert(plus@ =~= seq!['+'] + decimal(column_total(stats@, 1)) + seq![' ']);
    spans.push(span(plus, Style::plain().fg(Color::Green)));

    let mut minus = String::new();
    minus.push('-');
    push_decimal(&mut minus, removed as u64);
    spans.push(span(minus, Style::plain().fg(Color::Red)));

    let line = text_line(spans);
    proof {
        let sv = summary_spans(stats@);
        assert(line@.len() == sv.len());
        assert(line@[0] == sv[0]);
        assert(line@[1] == sv[1]);
        assert(line@[2] == sv[2]);
        assert(line@[3] == sv[3]);
        assert(line@[4] == sv[4]);
        assert(line@[5] == sv[5]);
    }
    assert(line@ =~= summary_spans(stats@));
    line
}

} // verus!
