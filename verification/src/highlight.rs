//! Syntax highlighting of diff content through `syntect`.

use vstd::prelude::*;

use syntect::easy::HighlightLines;
use syntect::highlighting::{Theme, ThemeSet};
use syntect::parsing::{SyntaxReference, SyntaxSet};

use crate::style::{Color, Span, SpanV, Style, spans_text};
use crate::text::{chars_of, string_of};

verus! {

/// `syntect`'s set of syntax definitions, held opaque.
#[verifier::external_type_specification]
#[verifier::external_body]
pub struct ExSyntaxSet(SyntaxSet);

/// One of `syntect`'s syntax definitions, held opaque.
#[verifier::external_type_specification]
#[verifier::external_body]
pub struct ExSyntaxReference(SyntaxReference);

/// A `syntect` colour theme, held opaque.
#[verifier::external_type_specification]
#[verifier::external_body]
pub struct ExTheme(Theme);

/// `syntect`'s set of colour themes, held opaque.
#[verifier::external_type_specification]
#[verifier::external_body]
pub struct ExThemeSet(ThemeSet);

/// `syntect`'s line-by-line highlighter, with the parse state it carries from line to
/// line, held opaque.
#[verifier::external_type_specification]
#[verifier::external_body]
pub struct ExHighlightLines<'a>(HighlightLines<'a>);

/// A `syntect` token style as plain values: the foreground colour and the font-style
/// bits (`1` bold, `2` underline, `4` italic).
#[derive(Debug, Clone, Copy, PartialEq, Eq, Structural)]
pub struct TokenStyle {
    pub r: u8,
    pub g: u8,
    pub b: u8,
    pub font_bits: u8,
}

/// The text of `pieces`, end to end.
pub open spec fn concat(pieces: Seq<Seq<char>>) -> Seq<char>
    decreases pieces.len(),
{
    if pieces.len() == 0 {
        seq![]
    } else {
        concat(pieces.drop_last()) + pieces.last()
    }
}

/// The texts of highlighted tokens.
pub open spec fn token_texts(tokens: Seq<(TokenStyle, String)>) -> Seq<Seq<char>> {
    tokens.map_values(|t: (TokenStyle, String)| t.1@)
}

/// Highlighted tokens as plain values.
pub open spec fn tokens_view(tokens: Seq<(TokenStyle, String)>) -> Seq<(TokenStyle, Seq<char>)> {
    tokens.map_values(|t: (TokenStyle, String)| (t.0, t.1@))
}

/// Whether `syntect`'s default syntax set holds a syntax of that name.
pub uninterp spec fn syntax_exists(name: Seq<char>) -> bool;

/// Whether `syntect`'s default theme set holds a theme of that name.
pub uninterp spec fn theme_exists(name: Seq<char>) -> bool;

/// The tokens that `syntect` makes of `line`, in the default theme set's theme `theme`
/// and the default syntax set's last syntax named `syntax` (the one that
/// `find_syntax_by_name` gives), after the lines `fed` were
/// highlighted, in order, by the same highlighter; `None` where it fails.
pub uninterp spec fn highlight_result(
    theme: Seq<char>,
    syntax: Seq<char>,
    fed: Seq<Seq<char>>,
    line: Seq<char>,
) -> Option<Seq<(TokenStyle, Seq<char>)>>;

/// A syntax of the default set, found by its name.
pub struct Syntax<'a> {
    inner: &'a SyntaxReference,
    set: &'a SyntaxSet,
    name: Ghost<Seq<char>>,
}

impl<'a> View for Syntax<'a> {
    type V = Seq<char>;

    /// The name it was found by.
    closed spec fn view(&self) -> Seq<char> {
        self.name@
    }
}

/// A theme of the default set, found by its name.
pub struct NamedTheme<'a> {
    inner: &'a Theme,
    name: Ghost<Seq<char>>,
}

impl<'a> View for NamedTheme<'a> {
    type V = Seq<char>;

    /// The name it was found by.
    closed spec fn view(&self) -> Seq<char> {
        self.name@
    }
}

/// What a line highlighter is: its theme's and syntax's names, and the lines it has
/// highlighted so far, in order.
pub struct HighlighterModel {
    pub theme: Seq<char>,
    pub syntax: Seq<char>,
    pub fed: Seq<Seq<char>>,
}

/// A `syntect` highlighter for successive lines of one syntax in one theme.
pub struct LineHighlighter<'a> {
    inner: HighlightLines<'a>,
    set: &'a SyntaxSet,
    theme: Ghost<Seq<char>>,
    syntax: Ghost<Seq<char>>,
    fed: Ghost<Seq<Seq<char>>>,
}

impl<'a> View for LineHighlighter<'a> {
    type V = HighlighterModel;

    closed spec fn view(&self) -> HighlighterModel {
        HighlighterModel { theme: self.theme@, syntax: self.syntax@, fed: self.fed@ }
    }
}

/// `SyntaxSet::load_defaults_newlines`: the syntax definitions that ship with `syntect`,
/// for lines that end in a newline. Nothing is stated of the set.
#[verifier::external_body]
fn load_default_syntaxes() -> SyntaxSet {
    SyntaxSet::load_defaults_newlines()
}

/// `ThemeSet::load_defaults`: the colour themes that ship with `syntect`. Nothing is
/// stated of the set.
#[verifier::external_body]
fn load_default_themes() -> ThemeSet {
    ThemeSet::load_defaults()
}

/// The name of the syntax that `SyntaxSet::find_syntax_by_extension` finds in the
/// default syntax set for `ext` (the last whose file extensions hold it, compared
/// without ASCII case).
pub uninterp spec fn syntax_by_extension(ext: Seq<char>) -> Option<Seq<char>>;

/// The file name of the path `p` (`Path::file_name`), or nothing where it has none.
pub uninterp spec fn file_name_of(p: Seq<char>) -> Seq<char>;

/// The extension of the path `p` (`Path::extension`), or nothing where it has none.
pub uninterp spec fn extension_of(p: Seq<char>) -> Seq<char>;

/// `Path::file_name` of `path`, as text; empty where there is none.
#[verifier::external_body]
fn file_name_text(path: &str) -> (r: String)
    ensures
        r@ == file_name_of(path@),
{
    std::path::Path::new(path).file_name().and_then(|n| n.to_str()).unwrap_or("").to_string()
}

/// `Path::extension` of `path`, as text; empty where there is none.
#[verifier::external_body]
fn extension_text(path: &str) -> (r: String)
    ensures
        r@ == extension_of(path@),
{
    std::path::Path::new(path).extension().and_then(|n| n.to_str()).unwrap_or("").to_string()
}

/// `SyntaxSet::find_syntax_by_extension`, the found syntax's name read out. The name is
/// that of a syntax of the set.
#[verifier::external_body]
fn syntax_name_by_extension(set: &SyntaxSet, ext: &str) -> (r: Option<String>)
    ensures
        (match r {
            Some(n) => Some(n@),
            None => None,
        }) == syntax_by_extension(ext@),
        r matches Some(n) ==> syntax_exists(n@),
{
    set.find_syntax_by_extension(ext).map(|s| s.name.clone())
}

/// `SyntaxSet::find_syntax_for_file`, the found syntax's name read out, and a failed
/// read of the file taken as no match. It looks first by the path's file name and then
/// by its extension; only where neither matches does it read the file's first line on
/// disk, so nothing more is stated of what it finds than that it is a syntax of the set.
#[verifier::external_body]
fn find_syntax_name_for_file(set: &SyntaxSet, path: &str) -> (r: Option<String>)
    ensures
        r matches Some(n) ==> syntax_exists(n@),
{
    set.find_syntax_for_file(path).ok().flatten().map(|s| s.name.clone())
}

/// `SyntaxSet::find_syntax_by_name` on the default syntax set: the last syntax of that
/// name in the set, if it holds one.
#[verifier::external_body]
fn syntax_named<'a>(set: &'a SyntaxSet, name: &str) -> (r: Option<Syntax<'a>>)
    ensures
        r is Some <==> syntax_exists(name@),
        r matches Some(s) ==> s@ == name@,
{
    set.find_syntax_by_name(name).map(|inner| Syntax { inner, set, name: Ghost(name@) })
}

/// The theme of that name in the default theme set (`ThemeSet::themes`), if it holds one.
#[verifier::external_body]
fn theme_named<'a>(themes: &'a ThemeSet, name: &str) -> (r: Option<NamedTheme<'a>>)
    ensures
        r is Some <==> theme_exists(name@),
        r matches Some(t) ==> t@ == name@,
{
    themes.themes.get(name).map(|inner| NamedTheme { inner, name: Ghost(name@) })
}

/// `HighlightLines::new`: a highlighter for successive lines of one syntax and theme,
/// that has highlighted no line yet.
#[verifier::external_body]
fn new_highlight_lines<'a>(syntax: &Syntax<'a>, theme: &NamedTheme<'a>) -> (h: LineHighlighter<'a>)
    ensures
        h@ == (HighlighterModel { theme: theme@, syntax: syntax@, fed: seq![] }),
{
    LineHighlighter {
        inner: HighlightLines::new(syntax.inner, theme.inner),
        set: syntax.set,
        theme: Ghost(theme@),
        syntax: Ghost(syntax@),
        fed: Ghost(seq![]),
    }
}

/// `HighlightLines::highlight_line` with the syntax set the highlighter's syntax came
/// from, each token's style read out as plain values and an error taken as `None`. The
/// tokens are `highlight_result` of the highlighter's theme, syntax and earlier lines;
/// as `syntect` documents, their texts make up the line, end to end; the line joins the
/// highlighter's earlier lines.
#[verifier::external_body]
fn highlight_tokens(
    highlighter: &mut LineHighlighter,
    line: &str,
) -> (tokens: Option<Vec<(TokenStyle, String)>>)
    ensures
        (match tokens {
            Some(ts) => Some(tokens_view(ts@)),
            None => None,
        }) == highlight_result(old(highlighter)@.theme, old(highlighter)@.syntax, old(highlighter)@.fed, line@),
        tokens matches Some(ts) ==> concat(token_texts(ts@)) == line@,
        final(highlighter)@ == (HighlighterModel {
            fed: old(highlighter)@.fed.push(line@),
            ..old(highlighter)@
        }),
{
    let set = highlighter.set;
    let ranges = highlighter.inner.highlight_line(line, set);
    highlighter.fed = Ghost(highlighter.fed@.push(line@));
    let token = |(s, t): (syntect::highlighting::Style, &str)| {
        let c = s.foreground;
        (TokenStyle { r: c.r, g: c.g, b: c.b, font_bits: s.font_style.bits() }, t.to_string())
    };
    Some(ranges.ok()?.into_iter().map(token).collect())
}

/// `s` without its trailing newlines.
pub open spec fn trim_newlines(s: Seq<char>) -> Seq<char>
    decreases s.len(),
{
    if s.len() > 0 && s.last() == '\n' {
        trim_newlines(s.drop_last())
    } else {
        s
    }
}

/// The terminal style of a token: its colour as the foreground, bold and italic as its
/// font style says.
pub open spec fn token_style_spec(t: TokenStyle) -> Style {
    Style {
        fg: Some(Color::Rgb(t.r, t.g, t.b)),
        bg: None,
        bold: t.font_bits & 1 == 1,
        italic: t.font_bits & 4 == 4,
    }
}

/// The terminal style of a highlighted token.
pub fn token_style(t: TokenStyle) -> (s: Style)
    ensures
        s == token_style_spec(t),
{
    let mut s = Style::plain().fg(Color::Rgb(t.r, t.g, t.b));
    if t.font_bits & 1 == 1 {
        s = s.bold();
    }
    if t.font_bits & 4 == 4 {
        s = s.italic();
    }
    s
}

/// The span that a highlighted token gives.
pub open spec fn token_span(t: (TokenStyle, Seq<char>)) -> SpanV {
    SpanV { content: trim_newlines(t.1), style: token_style_spec(t.0) }
}

/// The spans of highlighted tokens: each token's text without trailing newlines, in the
/// token's terminal style.
pub fn spans_from_tokens(tokens: Vec<(TokenStyle, String)>) -> (spans: Vec<Span>)
    ensures
        spans@.len() == tokens@.len(),
        forall|i: int| 0 <= i < tokens@.len() ==> #[trigger] spans@[i]@ == token_span(tokens_view(tokens@)[i]),
{
    let mut spans: Vec<Span> = Vec::new();
    let mut i: usize = 0;
    while i < tokens.len()
        invariant
            i <= tokens@.len(),
            spans@.len() == i,
            forall|j: int| 0 <= j < i ==> #[trigger] spans@[j]@ == token_span(tokens_view(tokens@)[j]),
        decreases tokens@.len() - i,
    {
        let style = token_style(tokens[i].0);
        let cs = chars_of(tokens[i].1.as_str());
        let mut end = cs.len();
        assert(cs@.take(end as int) == cs@);
        while end > 0 && cs[end - 1] == '\n'
            invariant
                end <= cs@.len(),
                trim_newlines(cs@) == trim_newlines(cs@.take(end as int)),
            decreases end,
        {
            assert(cs@.take(end as int).drop_last() == cs@.take(end - 1));
            end = end - 1;
        }
        assert(cs@.take(end as int) == cs@.subrange(0, end as int));
        let content = string_of(&cs, 0, end);
        spans.push(Span { content, style });
        i = i + 1;
    }
    spans
}

pub open spec fn no_newline(s: Seq<char>) -> bool {
    forall|i: int| 0 <= i < s.len() ==> s[i] != '\n'
}

proof fn lemma_trim_no_newline(s: Seq<char>)
    requires
        no_newline(s),
    ensures
        trim_newlines(s) == s,
{
    if s.len() > 0 {
        assert(s[s.len() - 1] != '\n');
    }
}

proof fn lemma_concat_pieces_no_newline(ps: Seq<Seq<char>>, i: int)
    requires
        no_newline(concat(ps)),
        0 <= i < ps.len(),
    ensures
        no_newline(ps[i]),
    decreases ps.len(),
{
    let rest = ps.drop_last();
    assert(concat(ps) == concat(rest) + ps.last());
    if i == ps.len() - 1 {
        assert forall|j: int| 0 <= j < ps[i].len() implies ps[i][j] != '\n' by {
            assert(concat(ps)[concat(rest).len() + j] == ps[i][j]);
        }
    } else {
        assert forall|j: int| 0 <= j < concat(rest).len() implies concat(rest)[j] != '\n' by {
            assert(concat(ps)[j] == concat(rest)[j]);
        }
        lemma_concat_pieces_no_newline(rest, i);
        assert(rest[i] == ps[i]);
    }
}

/// Spans that hold the pieces of a text without their trailing newlines.
pub open spec fn trimmed_pieces(spans: Seq<SpanV>, ps: Seq<Seq<char>>) -> bool {
    &&& spans.len() == ps.len()
    &&& forall|i: int| 0 <= i < ps.len() ==> #[trigger] spans[i].content == trim_newlines(ps[i])
}

proof fn lemma_trimmed_unchanged(spans: Seq<SpanV>, ps: Seq<Seq<char>>)
    requires
        trimmed_pieces(spans, ps),
        no_newline(concat(ps)),
    ensures
        spans_text(spans) == concat(ps),
    decreases ps.len(),
{
    if ps.len() > 0 {
        let rest = ps.drop_last();
        assert(concat(ps) == concat(rest) + ps.last());
        assert forall|j: int| 0 <= j < concat(rest).len() implies concat(rest)[j] != '\n' by {
            assert(concat(ps)[j] == concat(rest)[j]);
        }
        assert(trimmed_pieces(spans.drop_last(), rest)) by {
            assert forall|i: int| 0 <= i < rest.len() implies #[trigger] spans.drop_last()[i].content
                == trim_newlines(rest[i]) by {
                assert(spans[i].content == trim_newlines(ps[i]));
            }
        }
        lemma_trimmed_unchanged(spans.drop_last(), rest);
        lemma_concat_pieces_no_newline(ps, ps.len() - 1);
        lemma_trim_no_newline(ps.last());
        assert(spans[spans.len() - 1].content == trim_newlines(ps[ps.len() - 1]));
    }
}

/// Trimming each piece of `c` followed by one newline gives back `c`.
proof fn lemma_trimmed_line(spans: Seq<SpanV>, ps: Seq<Seq<char>>, c: Seq<char>)
    requires
        trimmed_pieces(spans, ps),
        no_newline(c),
        concat(ps) == c.push('\n'),
    ensures
        spans_text(spans) == c,
    decreases ps.len(),
{
    if ps.len() == 0 {
        assert(concat(ps).len() == 0);
    } else {
        let rest = ps.drop_last();
        let last = ps.last();
        let srest = spans.drop_last();
        assert(concat(ps) == concat(rest) + last);
        assert(trimmed_pieces(srest, rest)) by {
            assert forall|i: int| 0 <= i < rest.len() implies #[trigger] srest[i].content
                == trim_newlines(rest[i]) by {
                assert(spans[i].content == trim_newlines(ps[i]));
            }
        }
        assert(spans[spans.len() - 1].content == trim_newlines(ps[ps.len() - 1]));
        if last.len() == 0 {
            assert(concat(rest) + last == concat(rest));
            lemma_trimmed_line(srest, rest, c);
        } else {
            let q = last.drop_last();
            assert(last.last() == '\n') by {
                assert(concat(ps)[concat(ps).len() - 1] == last[last.len() - 1]);
            }
            assert(concat(rest) + q == c) by {
                assert((concat(rest) + last).drop_last() == concat(rest) + q);
            }
            assert forall|j: int| 0 <= j < q.len() implies q[j] != '\n' by {
                assert(c[concat(rest).len() + j] == q[j]);
            }
            assert forall|j: int| 0 <= j < concat(rest).len() implies concat(rest)[j] != '\n' by {
                assert(c[j] == concat(rest)[j]);
            }
            lemma_trim_no_newline(q);
            assert(trim_newlines(last) == q);
            lemma_trimmed_unchanged(srest, rest);
        }
    }
}

/// The spans of a line `content` that highlighting gave `r` for: each token's text
/// without trailing newlines in the token's style; where highlighting failed, the whole
/// line in one plain span.
pub open spec fn highlighted(r: Option<Seq<(TokenStyle, Seq<char>)>>, content: Seq<char>) -> Seq<SpanV> {
    match r {
        Some(ts) => ts.map_values(|t: (TokenStyle, Seq<char>)| token_span(t)),
        None => seq![SpanV { content, style: Style::plain_spec() }],
    }
}

/// The name of the theme the viewer highlights in.
pub open spec fn theme_name() -> Seq<char> {
    "base16-ocean.dark"@
}

/// The name of the syntax for files that no syntax matches.
pub open spec fn plain_syntax() -> Seq<char> {
    "Plain Text"@
}

/// The syntax to highlight a file in: the one found for it, else plain text.
pub open spec fn picked_syntax(found: Option<Seq<char>>) -> Seq<char> {
    match found {
        Some(n) => n,
        None => plain_syntax(),
    }
}

/// The syntax to highlight a file in, from the one found for it, if any.
pub fn pick_syntax(found: Option<String>) -> (name: String)
    ensures
        name@ == picked_syntax(match found {
            Some(n) => Some(n@),
            None => None,
        }),
{
    match found {
        Some(n) => n,
        None => {
            let cs = chars_of("Plain Text");
            string_of(&cs, 0, cs.len())
        },
    }
}

/// The syntax that a path gives without reading the file: the syntax for its file name
/// as an extension, else for its extension.
pub open spec fn syntax_by_path(path: Seq<char>) -> Option<Seq<char>> {
    match syntax_by_extension(file_name_of(path)) {
        Some(n) => Some(n),
        None => syntax_by_extension(extension_of(path)),
    }
}

/// `name` is a syntax to highlight the file at `path` in: the one its name or extension
/// gives where there is one; else one of the set (found from the file's first line on
/// disk) or plain text.
pub open spec fn syntax_for(path: Seq<char>, name: Seq<char>) -> bool {
    match syntax_by_path(path) {
        Some(n) => name == n,
        None => name == plain_syntax() || syntax_exists(name),
    }
}

/// What a line highlighter for `syntax` in the viewer's theme starts as, if the default
/// sets hold both: no line highlighted yet.
pub open spec fn fresh_highlighter(syntax: Seq<char>) -> Option<HighlighterModel> {
    if syntax_exists(syntax) && theme_exists(theme_name()) {
        Some(HighlighterModel { theme: theme_name(), syntax, fed: seq![] })
    } else {
        None
    }
}

/// The highlighter `m` after highlighting one more line, `content` and a newline.
pub open spec fn advanced(m: HighlighterModel, content: Seq<char>) -> HighlighterModel {
    HighlighterModel { fed: m.fed.push(content.push('\n')), ..m }
}

/// The spans that the highlighter `m` gives the line `content`.
pub open spec fn highlight_spec(m: HighlighterModel, content: Seq<char>) -> Seq<SpanV> {
    highlighted(highlight_result(m.theme, m.syntax, m.fed, content.push('\n')), content)
}

/// Syntax highlighting with `syntect`'s default syntaxes and themes.
pub struct Highlighter {
    syntax_set: SyntaxSet,
    themes: ThemeSet,
}

impl Highlighter {
    /// Loads `syntect`'s default syntaxes and themes.
    pub fn new() -> Self {
        let syntax_set = load_default_syntaxes();
        let themes = load_default_themes();
        Highlighter { syntax_set, themes }
    }

    /// The name of the syntax for a file path, found by its name or extension or else
    /// its first line on disk; "Plain Text" when none matches.
    pub fn syntax_for_path(&self, path: &str) -> (name: String)
        ensures
            syntax_for(path@, name@),
    {
        let file_name = file_name_text(path);
        match syntax_name_by_extension(&self.syntax_set, file_name.as_str()) {
            Some(n) => return n,
            None => {},
        }
        let ext = extension_text(path);
        match syntax_name_by_extension(&self.syntax_set, ext.as_str()) {
            Some(n) => return n,
            None => {},
        }
        // Neither matches: the lookup reads the file's first line.
        pick_syntax(find_syntax_name_for_file(&self.syntax_set, path))
    }

    /// A highlighter for successive lines in the syntax named `syntax`, in the
    /// `base16-ocean.dark` theme, that has highlighted no line yet; none where the
    /// default sets lack either.
    pub fn line_highlighter<'a>(&'a self, syntax: &str) -> (h: Option<LineHighlighter<'a>>)
        ensures
            match h {
                Some(h) => fresh_highlighter(syntax@) == Some(h@),
                None => fresh_highlighter(syntax@) is None,
            },
    {
        let found = syntax_named(&self.syntax_set, syntax);
        let theme = theme_named(&self.themes, "base16-ocean.dark");
        match (found, theme) {
            (Some(s), Some(t)) => Some(new_highlight_lines(&s, &t)),
            _ => None,
        }
    }

    /// Highlights a single line of source (no trailing newline) into spans: `syntect` is
    /// given the line and a newline, and the spans are its tokens, or the whole line in
    /// one plain span where it fails. The spans hold the line's text, end to end.
    pub fn highlight(&self, highlighter: &mut LineHighlighter, content: &str) -> (spans: Vec<Span>)
        ensures
            spans@.map_values(|s: Span| s@) == highlight_spec(old(highlighter)@, content@),
            final(highlighter)@ == advanced(old(highlighter)@, content@),
            no_newline(content@) ==> spans_text(spans@.map_values(|s: Span| s@)) == content@,
    {
        // syntect expects a trailing newline for correct state tracking.
        let cs = chars_of(content);
        let mut owned = string_of(&cs, 0, cs.len());
        owned.push('\n');
        assert(owned@ == content@.push('\n'));
        match highlight_tokens(highlighter, owned.as_str()) {
            Some(tokens) => {
                let ghost ps = token_texts(tokens@);
                let ghost tv = tokens_view(tokens@);
                let spans = spans_from_tokens(tokens);
                proof {
                    let sv = spans@.map_values(|s: Span| s@);
                    assert(sv =~= tv.map_values(|t: (TokenStyle, Seq<char>)| token_span(t)));
                    assert(trimmed_pieces(sv, ps)) by {
                        assert forall|i: int| 0 <= i < ps.len() implies #[trigger] sv[i].content
                            == trim_newlines(ps[i]) by {
                            assert(spans@[i]@ == token_span(tv[i]));
                        }
                    }
                    if no_newline(content@) {
                        lemma_trimmed_line(sv, ps, content@);
                    }
                }
                spans
            },
            None => {
                let mut spans: Vec<Span> = Vec::new();
                let text = string_of(&cs, 0, cs.len());
                assert(cs@.subrange(0, cs@.len() as int) =~= content@);
                spans.push(crate::style::span(text, Style::plain()));
                proof {
                    let sv = spans@.map_values(|s: Span| s@);
                    assert(sv =~= seq![SpanV { content: content@, style: Style::plain_spec() }]);
                    assert(sv.drop_last() =~= Seq::<SpanV>::empty());
                    assert(spans_text(sv) == spans_text(sv.drop_last()) + content@);
                    assert(spans_text(Seq::<SpanV>::empty()) == Seq::<char>::empty());
                    assert(spans_text(sv) =~= content@);
                }
                spans
            },
        }
    }
}

} // verus!

verus! {

/// A highlighted token's span takes the token's colour from `syntect` channel for channel
/// as its foreground, no background, bold and italic as the token's font bits say.
pub proof fn law_token_style_keeps_the_colour(t: TokenStyle)
    ensures
        token_style_spec(t).fg == Some(Color::Rgb(t.r, t.g, t.b)),
        token_style_spec(t).bg is None,
        token_style_spec(t).bold <==> t.font_bits & 1 == 1,
        token_style_spec(t).italic <==> t.font_bits & 4 == 4,
{
}

/// Where `syntect` highlights a line, its spans are its tokens in order: each holds the
/// token's text (trailing newline dropped) with exactly the token's colour as
/// foreground and no background; where it fails, the line is one plain span.
pub proof fn law_highlighted_spans_are_the_tokens(m: HighlighterModel, content: Seq<char>)
    ensures
        highlight_result(m.theme, m.syntax, m.fed, content.push('\n')) matches Some(ts) ==> {
            let spans = highlight_spec(m, content);
            &&& spans.len() == ts.len()
            &&& forall|i: int|
                0 <= i < ts.len() ==> {
                    &&& (#[trigger] spans[i]).style.fg == Some(
                        Color::Rgb(ts[i].0.r, ts[i].0.g, ts[i].0.b),
                    )
                    &&& spans[i].style.bg is None
                    &&& spans[i].content == trim_newlines(ts[i].1)
                }
        },
        highlight_result(m.theme, m.syntax, m.fed, content.push('\n')) is None ==> highlight_spec(
            m,
            content,
        ) == seq![SpanV { content, style: Style::plain_spec() }],
{
}

} // verus!
