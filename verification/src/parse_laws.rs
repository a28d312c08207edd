//! Properties that every parse of a diff has.

use vstd::prelude::*;

use crate::diffmodel::{
    b_separator, clean_ab_path_spec, diff_git_marker, extract_path_spec, header_end, hunk_header_spec, hunk_marker, hunk_push, index_marker, init_state, scan_header, start_of_piece,
    new_path_marker, old_path_marker, parse_lines, parse_spec, run_from, step, finish, flush_file,
    flush_hunk, count_kind, hunks_count, FileDiffV, HunkV, LineKind, LineV, ParseState,
};
use crate::text::{find_from, has_prefix, lines_of, split_on};

verus! {

// ---------------------------------------------------------------------------
// Every `diff --git ` line gives exactly one file
// ---------------------------------------------------------------------------

/// The number of `diff --git ` lines in `ls`.
pub open spec fn count_file_headers(ls: Seq<Seq<char>>) -> nat
    decreases ls.len(),
{
    if ls.len() == 0 {
        0
    } else {
        (if has_prefix(ls[0], diff_git_marker()) {
            1nat
        } else {
            0nat
        }) + count_file_headers(ls.drop_first())
    }
}

/// The files that a state holds, the open one included.
pub open spec fn open_file_count(st: ParseState) -> nat {
    st.files.len() + if st.current is Some {
        1nat
    } else {
        0nat
    }
}

proof fn lemma_step_file_count(st: ParseState, l: Seq<char>)
    requires
        step(st, l) is Some,
    ensures
        open_file_count(step(st, l).unwrap()) == open_file_count(st) + if has_prefix(
            l,
            diff_git_marker(),
        ) {
            1nat
        } else {
            0nat
        },
        has_prefix(l, diff_git_marker()) ==> step(st, l).unwrap().current is Some,
        st.current is Some ==> step(st, l).unwrap().current is Some,
{
}

proof fn lemma_run_file_count(st: ParseState, ls: Seq<Seq<char>>)
    requires
        run_from(st, ls) is Some,
    ensures
        open_file_count(run_from(st, ls).unwrap()) == open_file_count(st) + count_file_headers(
            ls,
        ),
        count_file_headers(ls) > 0 ==> run_from(st, ls).unwrap().current is Some,
        st.current is Some ==> run_from(st, ls).unwrap().current is Some,
    decreases ls.len(),
{
    if ls.len() > 0 {
        lemma_step_file_count(st, ls[0]);
        lemma_run_file_count(step(st, ls[0]).unwrap(), ls.drop_first());
    }
}

/// Every file in a multi-file diff is captured: a parse gives exactly one file per
/// `diff --git ` line of the text, whatever lies between them.
pub proof fn law_one_file_per_header(t: Seq<char>)
    requires
        parse_spec(t) is Some,
    ensures
        parse_spec(t).unwrap().len() == count_file_headers(lines_of(t)),
{
    let ls = lines_of(t);
    lemma_run_file_count(init_state(), ls);
}

// ---------------------------------------------------------------------------
// Lines that the parser does not act on change nothing
// ---------------------------------------------------------------------------

/// A line that the parser passes over wherever it stands: any line that opens no file
/// or hunk and is no `+`/`-`/` ` line (such as `\ No newline at end of file`,
/// `index ...`, `new file mode ...`, `rename from ...`, `Binary files ... differ`).
pub open spec fn is_passed_over(m: Seq<char>) -> bool {
    &&& !has_prefix(m, diff_git_marker())
    &&& !has_prefix(m, hunk_marker())
    &&& !(m.len() > 0 && (m[0] == '+' || m[0] == '-' || m[0] == ' '))
}

pub proof fn lemma_run_concat(st: ParseState, a: Seq<Seq<char>>, b: Seq<Seq<char>>)
    ensures
        run_from(st, a + b) == match run_from(st, a) {
            Some(s) => run_from(s, b),
            None => None,
        },
    decreases a.len(),
{
    if a.len() == 0 {
        assert(a + b == b);
    } else {
        assert((a + b)[0] == a[0]);
        assert((a + b).drop_first() == a.drop_first() + b);
        match step(st, a[0]) {
            Some(s2) => lemma_run_concat(s2, a.drop_first(), b),
            None => {},
        }
    }
}

/// Lines that the parser passes over (the `\ No newline at end of file` marker among
/// them) can be added anywhere without changing the result.
pub proof fn law_passed_over_lines_change_nothing(
    a: Seq<Seq<char>>,
    m: Seq<char>,
    b: Seq<Seq<char>>,
)
    requires
        is_passed_over(m),
    ensures
        parse_lines(a + seq![m] + b) == parse_lines(a + b),
{
    let st0 = init_state();
    lemma_run_concat(st0, a + seq![m], b);
    lemma_run_concat(st0, a, seq![m]);
    lemma_run_concat(st0, a, b);
    match run_from(st0, a) {
        Some(s) => {
            assert(step(s, m) == Some(s));
            assert(seq![m][0] == m);
            assert(seq![m].drop_first() == Seq::<Seq<char>>::empty());
            assert(run_from(s, Seq::<Seq<char>>::empty()) == Some(s));
            assert(run_from(s, seq![m]) == Some(s));
        },
        None => {},
    }
}

// ---------------------------------------------------------------------------
// Line numbers count up from the hunk header
// ---------------------------------------------------------------------------

/// The number of lines in `ls` that exist on the old side (removed or context).
pub open spec fn old_side_count(ls: Seq<LineV>) -> nat
    decreases ls.len(),
{
    if ls.len() == 0 {
        0
    } else {
        old_side_count(ls.drop_last()) + if ls.last().kind != LineKind::Added {
            1nat
        } else {
            0nat
        }
    }
}

/// The number of lines in `ls` that exist on the new side (added or context).
pub open spec fn new_side_count(ls: Seq<LineV>) -> nat
    decreases ls.len(),
{
    if ls.len() == 0 {
        0
    } else {
        new_side_count(ls.drop_last()) + if ls.last().kind != LineKind::Removed {
            1nat
        } else {
            0nat
        }
    }
}

/// `l` carries the line numbers that its kind calls for: `old` on the old side,
/// `new` on the new side, and none on a side where it does not exist.
pub open spec fn numbered_as(l: LineV, old: int, new: int) -> bool {
    &&& (l.kind == LineKind::Added) == (l.old_lineno is None)
    &&& (l.kind == LineKind::Removed) == (l.new_lineno is None)
    &&& (l.old_lineno matches Some(o) ==> o == old)
    &&& (l.new_lineno matches Some(n) ==> n == new)
}

/// The lines of `ls` are numbered consecutively from `old` and `new`.
pub open spec fn lines_numbered_from(ls: Seq<LineV>, old: int, new: int) -> bool {
    forall|i: int|
        0 <= i < ls.len() ==> numbered_as(
            #[trigger] ls[i],
            old + old_side_count(ls.take(i)),
            new + new_side_count(ls.take(i)),
        )
}

/// A hunk as the parser builds it: a `@@ ` header, and line numbers that count up from
/// the start lines that the header gives.
pub open spec fn hunk_numbered(h: HunkV) -> bool {
    &&& has_prefix(h.header, hunk_marker())
    &&& lines_numbered_from(
        h.lines,
        hunk_header_spec(h.header.skip(3)).0 as int,
        hunk_header_spec(h.header.skip(3)).1 as int,
    )
}

pub open spec fn file_numbered(f: FileDiffV) -> bool {
    forall|j: int| 0 <= j < f.hunks.len() ==> hunk_numbered(#[trigger] f.hunks[j])
}

pub open spec fn files_numbered(fs: Seq<FileDiffV>) -> bool {
    forall|i: int| 0 <= i < fs.len() ==> file_numbered(#[trigger] fs[i])
}

/// What holds of a parser state between lines.
pub open spec fn state_numbered(st: ParseState) -> bool {
    &&& files_numbered(st.files)
    &&& (st.current matches Some(f) ==> file_numbered(f))
    &&& (st.hunk matches Some(h) ==> {
        &&& hunk_numbered(h)
        &&& st.old_line == hunk_header_spec(h.header.skip(3)).0 + old_side_count(h.lines)
        &&& st.new_line == hunk_header_spec(h.header.skip(3)).1 + new_side_count(h.lines)
    })
}

proof fn lemma_flush_numbered(st: ParseState)
    requires
        state_numbered(st),
    ensures
        flush_hunk(st.current, st.hunk) matches Some(f) ==> file_numbered(f),
        files_numbered(flush_file(st.files, flush_hunk(st.current, st.hunk))),
{
    match st.current {
        Some(f) => match st.hunk {
            Some(h) => {
                let f2 = FileDiffV { path: f.path, hunks: f.hunks.push(h) };
                assert forall|j: int| 0 <= j < f2.hunks.len() implies hunk_numbered(
                    #[trigger] f2.hunks[j],
                ) by {
                    if j < f.hunks.len() {
                        assert(f2.hunks[j] == f.hunks[j]);
                    }
                }
            },
            None => {},
        },
        None => {},
    }
    let fs = flush_file(st.files, flush_hunk(st.current, st.hunk));
    assert forall|i: int| 0 <= i < fs.len() implies file_numbered(#[trigger] fs[i]) by {
        if i < st.files.len() {
            assert(fs[i] == st.files[i]);
        }
    }
}

proof fn lemma_push_numbered(h: HunkV, l: LineV, old: int, new: int)
    requires
        lines_numbered_from(h.lines, old, new),
        numbered_as(l, old + old_side_count(h.lines), new + new_side_count(h.lines)),
    ensures
        lines_numbered_from(hunk_push(h, l).lines, old, new),
        old_side_count(hunk_push(h, l).lines) == old_side_count(h.lines) + if l.kind
            != LineKind::Added {
            1nat
        } else {
            0nat
        },
        new_side_count(hunk_push(h, l).lines) == new_side_count(h.lines) + if l.kind
            != LineKind::Removed {
            1nat
        } else {
            0nat
        },
{
    let ls = h.lines;
    let ls2 = ls.push(l);
    assert(ls2.drop_last() == ls);
    assert forall|i: int| 0 <= i < ls2.len() implies numbered_as(
        #[trigger] ls2[i],
        old + old_side_count(ls2.take(i)),
        new + new_side_count(ls2.take(i)),
    ) by {
        if i < ls.len() {
            assert(ls2.take(i) == ls.take(i));
            assert(ls2[i] == ls[i]);
        } else {
            assert(ls2.take(i) == ls);
        }
    }
}

proof fn lemma_step_numbered(st: ParseState, l: Seq<char>)
    requires
        state_numbered(st),
        step(st, l) is Some,
    ensures
        state_numbered(step(st, l).unwrap()),
{
    lemma_flush_numbered(st);
    if has_prefix(l, diff_git_marker()) {
    } else if st.hunk is None && has_prefix(l, new_path_marker()) {
    } else if st.hunk is None && (has_prefix(l, old_path_marker()) || has_prefix(l, index_marker())) {
    } else if has_prefix(l, hunk_marker()) {
        let h = HunkV { header: l, lines: seq![] };
        assert(h.lines.take(0) == Seq::<LineV>::empty());
    } else {
        match st.hunk {
            None => {},
            Some(h) => {
                let o = hunk_header_spec(h.header.skip(3)).0 as int;
                let n = hunk_header_spec(h.header.skip(3)).1 as int;
                if l.len() > 0 && l[0] == '+' {
                    lemma_push_numbered(
                        h,
                        LineV {
                            kind: LineKind::Added,
                            old_lineno: None,
                            new_lineno: Some(st.new_line),
                            content: l.skip(1),
                        },
                        o,
                        n,
                    );
                } else if l.len() > 0 && l[0] == '-' {
                    lemma_push_numbered(
                        h,
                        LineV {
                            kind: LineKind::Removed,
                            old_lineno: Some(st.old_line),
                            new_lineno: None,
                            content: l.skip(1),
                        },
                        o,
                        n,
                    );
                } else if l.len() > 0 && l[0] == ' ' {
                    lemma_push_numbered(
                        h,
                        LineV {
                            kind: LineKind::Context,
                            old_lineno: Some(st.old_line),
                            new_lineno: Some(st.new_line),
                            content: l.skip(1),
                        },
                        o,
                        n,
                    );
                }
            },
        }
    }
}

proof fn lemma_run_numbered(st: ParseState, ls: Seq<Seq<char>>)
    requires
        state_numbered(st),
        run_from(st, ls) is Some,
    ensures
        state_numbered(run_from(st, ls).unwrap()),
    decreases ls.len(),
{
    if ls.len() > 0 {
        lemma_step_numbered(st, ls[0]);
        lemma_run_numbered(step(st, ls[0]).unwrap(), ls.drop_first());
    }
}

/// The dual line-number gutter is consistent: in every hunk of a parse, added lines
/// carry only a new line number, removed lines only an old one, context lines both,
/// and each side counts up by one per line from the start that the `@@` header gives.
pub proof fn law_line_numbers_count_from_header(t: Seq<char>)
    requires
        parse_spec(t) is Some,
    ensures
        files_numbered(parse_spec(t).unwrap()),
{
    let st0 = init_state();
    assert(files_numbered(st0.files));
    lemma_run_numbered(st0, lines_of(t));
    lemma_flush_numbered(run_from(st0, lines_of(t)).unwrap());
}

} // verus!

verus! {

// ---------------------------------------------------------------------------
// Each file keeps its own hunks and lines, in input order
// ---------------------------------------------------------------------------

/// A hunk as the text gives it: its header line, and its lines' kinds and contents.
pub type HunkShape = (Seq<char>, Seq<(LineKind, Seq<char>)>);

/// The kind of a content line by its first character.
pub open spec fn kind_of(c: char) -> LineKind {
    if c == '+' {
        LineKind::Added
    } else if c == '-' {
        LineKind::Removed
    } else {
        LineKind::Context
    }
}

/// A line that starts with `+`, `-` or a blank.
pub open spec fn is_content_line(l: Seq<char>) -> bool {
    l.len() > 0 && (l[0] == '+' || l[0] == '-' || l[0] == ' ')
}

/// The files' hunks after one more line `l`: a `diff --git ` line starts a file with no
/// hunks; a `@@ ` line starts a hunk, headed by that line, in the file last started; a
/// `+`, `-` or blank line adds a line of that kind, its text the rest of the line, to
/// the hunk last started in that file; any other line, and any line with no file or
/// hunk to go to, adds nothing.
pub open spec fn add_line(before: Seq<Seq<HunkShape>>, l: Seq<char>) -> Seq<Seq<HunkShape>> {
    if has_prefix(l, diff_git_marker()) {
        before.push(seq![])
    } else if has_prefix(l, hunk_marker()) {
        if before.len() > 0 {
            before.update(before.len() - 1, before.last().push((l, seq![])))
        } else {
            before
        }
    } else if is_content_line(l) && before.len() > 0 && before.last().len() > 0 {
        let f = before.last();
        let h = f.last();
        before.update(
            before.len() - 1,
            f.update(f.len() - 1, (h.0, h.1.push((kind_of(l[0]), l.skip(1))))),
        )
    } else {
        before
    }
}

/// The files, hunks and lines that the lines `ls` describe, in input order.
pub open spec fn file_hunks(ls: Seq<Seq<char>>) -> Seq<Seq<HunkShape>>
    decreases ls.len(),
{
    if ls.len() == 0 {
        seq![]
    } else {
        add_line(file_hunks(ls.drop_last()), ls.last())
    }
}

pub open spec fn hunk_shape(h: HunkV) -> HunkShape {
    (h.header, h.lines.map_values(|x: LineV| (x.kind, x.content)))
}

/// A parsed file's hunks, as the text gives them.
pub open spec fn file_shape(f: FileDiffV) -> Seq<HunkShape> {
    f.hunks.map_values(|h: HunkV| hunk_shape(h))
}

spec fn state_shape(st: ParseState) -> Seq<Seq<HunkShape>> {
    let done = st.files.map_values(|f: FileDiffV| file_shape(f));
    match st.current {
        Some(f) => done.push(
            file_shape(f) + match st.hunk {
                Some(h) => seq![hunk_shape(h)],
                None => Seq::<HunkShape>::empty(),
            },
        ),
        None => done,
    }
}

/// Files are closed only when a later one opens, and an open file has hunks only once
/// one is open.
spec fn state_ok(st: ParseState) -> bool {
    &&& st.files.len() > 0 ==> st.current is Some
    &&& st.current matches Some(f) ==> (st.hunk is None ==> f.hunks.len() == 0)
}

proof fn lemma_prefix_first(l: Seq<char>, p: Seq<char>)
    requires
        p.len() > 0,
        has_prefix(l, p),
    ensures
        l[0] == p[0],
{
    assert(l.subrange(0, p.len() as int)[0] == l[0]);
}

proof fn lemma_flushed_shape(f: FileDiffV, hunk: Option<HunkV>)
    ensures
        file_shape(flush_hunk(Some(f), hunk).unwrap()) == file_shape(f) + match hunk {
            Some(h) => seq![hunk_shape(h)],
            None => Seq::<HunkShape>::empty(),
        },
{
    let g = flush_hunk(Some(f), hunk).unwrap();
    match hunk {
        Some(h) => {
            assert(file_shape(g) =~= file_shape(f) + seq![hunk_shape(h)]);
        },
        None => {
            assert(file_shape(g) =~= file_shape(f) + Seq::<HunkShape>::empty());
        },
    }
}

proof fn lemma_flush_shape(st: ParseState)
    ensures
        finish(st).map_values(|f: FileDiffV| file_shape(f)) == state_shape(st),
{
    let done = st.files.map_values(|f: FileDiffV| file_shape(f));
    match st.current {
        Some(f) => {
            let g = flush_hunk(st.current, st.hunk).unwrap();
            lemma_flushed_shape(f, st.hunk);
            assert(st.files.push(g).map_values(|f: FileDiffV| file_shape(f)) =~= done.push(
                file_shape(g),
            ));
        },
        None => {},
    }
}

proof fn lemma_step_shape(st: ParseState, l: Seq<char>)
    requires
        state_ok(st),
        step(st, l) is Some,
    ensures
        state_ok(step(st, l).unwrap()),
        state_shape(step(st, l).unwrap()) == add_line(state_shape(st), l),
{
    let s2 = step(st, l).unwrap();
    let before = state_shape(st);
    if has_prefix(l, diff_git_marker()) {
        lemma_flush_shape(st);
        assert(s2.files == finish(st));
        assert(file_shape(s2.current.unwrap()) =~= Seq::<HunkShape>::empty());
        assert(state_shape(s2) =~= before.push(seq![]));
    } else if has_prefix(l, hunk_marker()) {
        lemma_prefix_first(l, hunk_marker());
        if has_prefix(l, new_path_marker()) {
            lemma_prefix_first(l, new_path_marker());
        }
        if has_prefix(l, old_path_marker()) {
            lemma_prefix_first(l, old_path_marker());
        }
        if has_prefix(l, index_marker()) {
            lemma_prefix_first(l, index_marker());
        }
        match st.current {
            Some(f) => {
                let g = flush_hunk(st.current, st.hunk).unwrap();
                lemma_flushed_shape(f, st.hunk);
                assert(s2.current == Some(g));
                assert(s2.hunk == Some(HunkV { header: l, lines: seq![] }));
                assert(hunk_shape(HunkV { header: l, lines: seq![] }) =~= (l, Seq::<(LineKind, Seq<char>)>::empty()));
                assert(file_shape(g) + seq![hunk_shape(s2.hunk.unwrap())] =~= before.last().push((l, seq![])));
                assert(state_shape(s2) =~= before.update(
                    before.len() - 1,
                    before.last().push((l, seq![])),
                ));
            },
            None => {
                assert(before.len() == 0);
                assert(state_shape(s2) =~= before);
            },
        }
    } else {
        match st.current {
            Some(f) => {
                match st.hunk {
                    Some(h) => {
                        assert(before.last() == file_shape(f) + seq![hunk_shape(h)]);
                        if is_content_line(l) {
                            let k = kind_of(l[0]);
                            let h2 = s2.hunk.unwrap();
                            assert(s2.current == st.current);
                            assert(h2 == hunk_push(h, h2.lines.last()));
                            assert(h2.lines.last().kind == k);
                            assert(h2.lines.last().content == l.skip(1));
                            assert(hunk_shape(h2) =~= (h.header, hunk_shape(h).1.push((k, l.skip(1)))));
                            let fl = before.last();
                            assert(file_shape(f) + seq![hunk_shape(h2)] =~= fl.update(
                                fl.len() - 1,
                                (fl.last().0, fl.last().1.push((k, l.skip(1)))),
                            ));
                            assert(state_shape(s2) =~= add_line(before, l));
                        } else {
                            assert(s2 == st);
                        }
                    },
                    None => {
                        assert(file_shape(f) =~= Seq::<HunkShape>::empty());
                        assert(before.last() =~= Seq::<HunkShape>::empty());
                        let f2 = s2.current.unwrap();
                        assert(s2.hunk is None);
                        assert(f2.hunks == f.hunks);
                        assert(file_shape(f2) =~= file_shape(f));
                        assert(state_shape(s2) =~= before);
                    },
                }
            },
            None => {
                assert(state_shape(s2) =~= before);
            },
        }
    }
}

proof fn lemma_run_shape(ls: Seq<Seq<char>>)
    requires
        run_from(init_state(), ls) is Some,
    ensures
        state_ok(run_from(init_state(), ls).unwrap()),
        state_shape(run_from(init_state(), ls).unwrap()) == file_hunks(ls),
    decreases ls.len(),
{
    let st0 = init_state();
    if ls.len() == 0 {
        assert(state_shape(st0) =~= Seq::<Seq<HunkShape>>::empty());
    } else {
        let a = ls.drop_last();
        let l = ls.last();
        assert(a + seq![l] == ls);
        lemma_run_concat(st0, a, seq![l]);
        let s = run_from(st0, a).unwrap();
        lemma_run_shape(a);
        assert(seq![l][0] == l);
        assert(seq![l].drop_first() == Seq::<Seq<char>>::empty());
        match step(s, l) {
            Some(s2) => {
                assert(run_from(s2, Seq::<Seq<char>>::empty()) == Some(s2));
            },
            None => {},
        }
        assert(run_from(s, seq![l]) == step(s, l));
        lemma_step_shape(s, l);
    }
}

/// Each file keeps its own hunks and lines, in input order: file by file, the hunks of
/// a parse are headed by the `@@ ` lines that follow its `diff --git ` line up to the
/// next one, and each hunk's lines are, in order, the `+`, `-` and blank lines that
/// follow its header up to the next `@@ ` or `diff --git ` line, as added, removed and
/// context lines holding the rest of the line (`--- ...` and `+++ ...` lines among
/// them). Lines before the first `diff --git ` line add nothing.
pub proof fn law_files_hunks_and_lines_follow_the_text(t: Seq<char>)
    requires
        parse_spec(t) is Some,
    ensures
        parse_spec(t).unwrap().map_values(|f: FileDiffV| file_shape(f)) == file_hunks(
            lines_of(t),
        ),
{
    let ls = lines_of(t);
    lemma_run_shape(ls);
    lemma_flush_shape(run_from(init_state(), ls).unwrap());
}

} // verus!

verus! {

// ---------------------------------------------------------------------------
// Change counts add up
// ---------------------------------------------------------------------------

/// The lines of a kind in two runs of lines together are those of each run added up.
pub proof fn law_line_counts_add_up(a: Seq<LineV>, b: Seq<LineV>, k: LineKind)
    ensures
        count_kind(a + b, k) == count_kind(a, k) + count_kind(b, k),
    decreases b.len(),
{
    if b.len() == 0 {
        assert(a + b == a);
    } else {
        assert((a + b).drop_last() == a + b.drop_last());
        assert((a + b).last() == b.last());
        law_line_counts_add_up(a, b.drop_last(), k);
    }
}

/// A file's change counts add up over its hunks: the counts of two runs of hunks
/// together are those of each run added up, and no hunks count nothing.
pub proof fn law_file_stats_add_up(a: Seq<HunkV>, b: Seq<HunkV>, k: LineKind)
    ensures
        hunks_count(a + b, k) == hunks_count(a, k) + hunks_count(b, k),
        hunks_count(Seq::<HunkV>::empty(), k) == 0,
    decreases b.len(),
{
    if b.len() == 0 {
        assert(a + b == a);
    } else {
        assert((a + b).drop_last() == a + b.drop_last());
        assert((a + b).last() == b.last());
        law_file_stats_add_up(a, b.drop_last(), k);
    }
}

/// A file's change counts do not depend on the order of its hunks, nor on the order of
/// the lines within a hunk.
pub proof fn law_file_stats_ignore_order(
    a: Seq<HunkV>,
    b: Seq<HunkV>,
    la: Seq<LineV>,
    lb: Seq<LineV>,
    k: LineKind,
)
    ensures
        hunks_count(a + b, k) == hunks_count(b + a, k),
        count_kind(la + lb, k) == count_kind(lb + la, k),
{
    law_file_stats_add_up(a, b, k);
    law_file_stats_add_up(b, a, k);
    law_line_counts_add_up(la, lb, k);
    law_line_counts_add_up(lb, la, k);
}

} // verus!

verus! {

// ---------------------------------------------------------------------------
// The start lines of a hunk header
// ---------------------------------------------------------------------------

/// `p` starts with `c`.
pub open spec fn starts_with(p: Seq<char>, c: char) -> bool {
    p.len() > 0 && p[0] == c
}

/// `e` is where the header's pieces end: the first piece that is `@@`, or past the last.
pub open spec fn ends_at(parts: Seq<Seq<char>>, e: int) -> bool {
    &&& 0 <= e <= parts.len()
    &&& e < parts.len() ==> parts[e] == header_end()
    &&& forall|j: int| 0 <= j < e ==> #[trigger] parts[j] != header_end()
}

/// `i` is the last piece before `e` that starts with `c`.
pub open spec fn last_before(parts: Seq<Seq<char>>, c: char, i: int, e: int) -> bool {
    &&& 0 <= i < e
    &&& starts_with(parts[i], c)
    &&& forall|j: int| i < j < e ==> !starts_with(#[trigger] parts[j], c)
}

/// No piece before `e` starts with `c`.
pub open spec fn none_before(parts: Seq<Seq<char>>, c: char, e: int) -> bool {
    forall|j: int| 0 <= j < e ==> !starts_with(#[trigger] parts[j], c)
}

proof fn lemma_ends_at_rest(parts: Seq<Seq<char>>, e: int)
    requires
        ends_at(parts, e),
        e > 0,
    ensures
        ends_at(parts.drop_first(), e - 1),
        parts[0] != header_end(),
{
    assert forall|j: int| 0 <= j < e - 1 implies #[trigger] parts.drop_first()[j] != header_end() by {
        assert(parts.drop_first()[j] == parts[j + 1]);
    }
}

proof fn lemma_scan_none(parts: Seq<Seq<char>>, old: u32, new: u32, e: int)
    requires
        ends_at(parts, e),
    ensures
        none_before(parts, '-', e) ==> scan_header(parts, old, new).0 == old,
        none_before(parts, '+', e) ==> scan_header(parts, old, new).1 == new,
    decreases parts.len(),
{
    if parts.len() > 0 {
        if e == 0 {
            assert(parts[0] == header_end());
            assert(!starts_with(parts[0], '-') && !starts_with(parts[0], '+'));
        } else {
            lemma_ends_at_rest(parts, e);
            let p = parts[0];
            let rest = parts.drop_first();
            if none_before(parts, '-', e) {
                assert forall|j: int| 0 <= j < e - 1 implies !starts_with(#[trigger] rest[j], '-') by {
                    assert(rest[j] == parts[j + 1]);
                }
                assert(!starts_with(parts[0], '-'));
            }
            if none_before(parts, '+', e) {
                assert forall|j: int| 0 <= j < e - 1 implies !starts_with(#[trigger] rest[j], '+') by {
                    assert(rest[j] == parts[j + 1]);
                }
                assert(!starts_with(parts[0], '+'));
            }
            lemma_scan_none(rest, start_of_piece(p), new, e - 1);
            lemma_scan_none(rest, old, start_of_piece(p), e - 1);
            lemma_scan_none(rest, old, new, e - 1);
        }
    }
}

proof fn lemma_scan_last(parts: Seq<Seq<char>>, old: u32, new: u32, e: int, i: int)
    requires
        ends_at(parts, e),
    ensures
        last_before(parts, '-', i, e) ==> scan_header(parts, old, new).0 == start_of_piece(parts[i]),
        last_before(parts, '+', i, e) ==> scan_header(parts, old, new).1 == start_of_piece(parts[i]),
    decreases parts.len(),
{
    if parts.len() > 0 && 0 <= i < e {
        lemma_ends_at_rest(parts, e);
        let p = parts[0];
        let rest = parts.drop_first();
        if i == 0 {
            if last_before(parts, '-', i, e) {
                assert forall|j: int| 0 <= j < e - 1 implies !starts_with(#[trigger] rest[j], '-') by {
                    assert(rest[j] == parts[j + 1]);
                }
                lemma_scan_none(rest, start_of_piece(p), new, e - 1);
            }
            if last_before(parts, '+', i, e) {
                assert forall|j: int| 0 <= j < e - 1 implies !starts_with(#[trigger] rest[j], '+') by {
                    assert(rest[j] == parts[j + 1]);
                }
                assert(!starts_with(p, '-'));
                lemma_scan_none(rest, old, start_of_piece(p), e - 1);
            }
        } else {
            assert(rest[i - 1] == parts[i]);
            if last_before(parts, '-', i, e) {
                assert forall|j: int| i - 1 < j < e - 1 implies !starts_with(#[trigger] rest[j], '-') by {
                    assert(rest[j] == parts[j + 1]);
                }
                assert(last_before(rest, '-', i - 1, e - 1));
            }
            if last_before(parts, '+', i, e) {
                assert forall|j: int| i - 1 < j < e - 1 implies !starts_with(#[trigger] rest[j], '+') by {
                    assert(rest[j] == parts[j + 1]);
                }
                assert(last_before(rest, '+', i - 1, e - 1));
            }
            lemma_scan_last(rest, start_of_piece(p), new, e - 1, i - 1);
            lemma_scan_last(rest, old, start_of_piece(p), e - 1, i - 1);
            lemma_scan_last(rest, old, new, e - 1, i - 1);
        }
    }
}

/// A hunk header's old start line is that of the last space-separated piece starting
/// with `-` before the first piece `@@` (the number before its first `,`, or `1` when
/// that is no number), and `1` where there is no such piece; the new start line is
/// found the same way from the pieces starting with `+`. Pieces after `@@` are ignored.
pub proof fn law_hunk_header_takes_the_last_pieces(rest: Seq<char>, e: int, i: int)
    requires
        ends_at(split_on(rest, ' '), e),
    ensures
        last_before(split_on(rest, ' '), '-', i, e) ==> hunk_header_spec(rest).0 == start_of_piece(
            split_on(rest, ' ')[i],
        ),
        none_before(split_on(rest, ' '), '-', e) ==> hunk_header_spec(rest).0 == 1,
        last_before(split_on(rest, ' '), '+', i, e) ==> hunk_header_spec(rest).1 == start_of_piece(
            split_on(rest, ' ')[i],
        ),
        none_before(split_on(rest, ' '), '+', e) ==> hunk_header_spec(rest).1 == 1,
{
    lemma_scan_last(split_on(rest, ' '), 1, 1, e, i);
    lemma_scan_none(split_on(rest, ' '), 1, 1, e);
}

} // verus!

verus! {

// ---------------------------------------------------------------------------
// Each file's path
// ---------------------------------------------------------------------------

/// The files' paths after one more line `l`, given the files' hunks before it: a
/// `diff --git ` line starts a file with the path that follows ` b/` on it; a `+++ `
/// line before the last file's first hunk renames that file to the path it names
/// (unless it names `/dev/null`); any other line changes no path.
pub open spec fn add_path(before: Seq<Seq<char>>, hunks: Seq<Seq<HunkShape>>, l: Seq<char>) -> Seq<Seq<char>> {
    if has_prefix(l, diff_git_marker()) {
        before.push(extract_path_spec(l.skip(11)))
    } else if has_prefix(l, new_path_marker()) && before.len() > 0 && hunks.len() > 0
        && hunks.last().len() == 0 {
        match clean_ab_path_spec(l.skip(4)) {
            Some(p) => before.update(before.len() - 1, p),
            None => before,
        }
    } else {
        before
    }
}

/// The paths of the files that the lines `ls` describe, in input order.
pub open spec fn file_paths(ls: Seq<Seq<char>>) -> Seq<Seq<char>>
    decreases ls.len(),
{
    if ls.len() == 0 {
        seq![]
    } else {
        add_path(file_paths(ls.drop_last()), file_hunks(ls.drop_last()), ls.last())
    }
}

spec fn state_paths(st: ParseState) -> Seq<Seq<char>> {
    let done = st.files.map_values(|f: FileDiffV| f.path);
    match st.current {
        Some(f) => done.push(f.path),
        None => done,
    }
}

proof fn lemma_flush_paths(st: ParseState)
    ensures
        finish(st).map_values(|f: FileDiffV| f.path) == state_paths(st),
{
    match st.current {
        Some(f) => {
            let g = flush_hunk(st.current, st.hunk).unwrap();
            assert(g.path == f.path);
            assert(st.files.push(g).map_values(|f: FileDiffV| f.path) =~= st.files.map_values(
                |f: FileDiffV| f.path,
            ).push(g.path));
        },
        None => {},
    }
}

proof fn lemma_step_paths(st: ParseState, l: Seq<char>)
    requires
        state_ok(st),
        step(st, l) is Some,
    ensures
        state_paths(step(st, l).unwrap()) == add_path(state_paths(st), state_shape(st), l),
{
    let s2 = step(st, l).unwrap();
    let before = state_paths(st);
    let shape = state_shape(st);
    if has_prefix(l, diff_git_marker()) {
        lemma_flush_paths(st);
        assert(s2.files == finish(st));
        assert(state_paths(s2) =~= before.push(extract_path_spec(l.skip(11))));
    } else if has_prefix(l, new_path_marker()) {
        lemma_prefix_first(l, new_path_marker());
        if has_prefix(l, hunk_marker()) {
            lemma_prefix_first(l, hunk_marker());
        }
        match st.current {
            Some(f) => {
                assert(shape.len() > 0);
                assert(shape.last() == file_shape(f) + match st.hunk {
                    Some(h) => seq![hunk_shape(h)],
                    None => Seq::<HunkShape>::empty(),
                });
                if st.hunk is None {
                    assert(file_shape(f) =~= Seq::<HunkShape>::empty());
                    assert(shape.last() =~= Seq::<HunkShape>::empty());
                    match clean_ab_path_spec(l.skip(4)) {
                        Some(p) => {
                            assert(state_paths(s2) =~= before.update(before.len() - 1, p));
                        },
                        None => {
                            assert(state_paths(s2) =~= before);
                        },
                    }
                } else {
                    assert(shape.last().len() > 0);
                    assert(s2.current.unwrap().path == f.path);
                    assert(state_paths(s2) =~= before);
                }
            },
            None => {
                assert(before.len() == 0);
                assert(state_paths(s2) =~= before);
            },
        }
    } else {
        match st.current {
            Some(f) => {
                assert(s2.current.unwrap().path == f.path);
                assert(s2.files == st.files);
                assert(state_paths(s2) =~= before);
            },
            None => {
                assert(state_paths(s2) =~= before);
            },
        }
    }
}

proof fn lemma_run_paths(ls: Seq<Seq<char>>)
    requires
        run_from(init_state(), ls) is Some,
    ensures
        state_paths(run_from(init_state(), ls).unwrap()) == file_paths(ls),
    decreases ls.len(),
{
    let st0 = init_state();
    if ls.len() == 0 {
        assert(state_paths(st0) =~= Seq::<Seq<char>>::empty());
    } else {
        let a = ls.drop_last();
        let l = ls.last();
        assert(a + seq![l] == ls);
        lemma_run_concat(st0, a, seq![l]);
        let s = run_from(st0, a).unwrap();
        lemma_run_paths(a);
        lemma_run_shape(a);
        assert(seq![l][0] == l);
        assert(seq![l].drop_first() == Seq::<Seq<char>>::empty());
        match step(s, l) {
            Some(s2) => {
                assert(run_from(s2, Seq::<Seq<char>>::empty()) == Some(s2));
            },
            None => {},
        }
        assert(run_from(s, seq![l]) == step(s, l));
        lemma_step_paths(s, l);
    }
}

/// Each file's path comes from its own `diff --git ` line, in input order: what
/// follows ` b/` on it, unless a `+++ ` line before the file's first hunk names another
/// path (`/dev/null` names none, and then the path stays).
pub proof fn law_each_file_named_by_its_header(t: Seq<char>)
    requires
        parse_spec(t) is Some,
    ensures
        parse_spec(t).unwrap().map_values(|f: FileDiffV| f.path) == file_paths(lines_of(t)),
{
    let ls = lines_of(t);
    lemma_run_paths(ls);
    lemma_flush_paths(run_from(init_state(), ls).unwrap());
}

} // verus!

verus! {

// ---------------------------------------------------------------------------
// The path on a `diff --git` line
// ---------------------------------------------------------------------------

/// The three characters ` b/` stand in `s` at `k`.
pub open spec fn blank_b_slash_at(s: Seq<char>, k: int) -> bool {
    s.subrange(k, k + 3) == seq![' ', 'b', '/']
}

/// `p` occurs in `s` at `j`.
pub open spec fn occurs_at(s: Seq<char>, p: Seq<char>, j: int) -> bool {
    s.subrange(j, j + p.len()) == p
}

proof fn lemma_find_at(s: Seq<char>, p: Seq<char>, k: int, target: int)
    requires
        0 <= k <= target,
        target + p.len() <= s.len(),
        s.subrange(target, target + p.len()) == p,
        forall|j: int| k <= j < target ==> !#[trigger] occurs_at(s, p, j),
    ensures
        find_from(s, p, k) == Some(target),
    decreases target - k,
{
    if k < target {
        assert(!occurs_at(s, p, k));
        lemma_find_at(s, p, k + 1, target);
    }
}

/// A `diff --git a/P b/P` line names the file `P`, for any path `P` that does not itself
/// hold ` b/`: the path is what follows the first ` b/` of the line, never a part of
/// the `a/` path; a diff of that line alone is one file, so named, with no hunks.
pub proof fn law_diff_git_line_names_its_path(p: Seq<char>)
    requires
        forall|k: int| 0 <= k && k + 3 <= p.len() ==> !#[trigger] blank_b_slash_at(p, k),
    ensures
        extract_path_spec(seq!['a', '/'] + p + seq![' ', 'b', '/'] + p) == p,
        parse_lines(
            seq![
                seq!['d', 'i', 'f', 'f', ' ', '-', '-', 'g', 'i', 't', ' ', 'a', '/'] + p + seq![
                    ' ',
                    'b',
                    '/',
                ] + p,
            ],
        ) == Some(seq![FileDiffV { path: p, hunks: seq![] }]),
{
    let sep = seq![' ', 'b', '/'];
    let n = p.len() as int;
    let rest = seq!['a', '/'] + p + sep + p;
    assert(rest.len() == 2 * n + 5);
    assert forall|i: int| 2 <= i < n + 2 implies rest[i] == p[i - 2] by {}
    assert(rest[n + 2] == ' ' && rest[n + 3] == 'b' && rest[n + 4] == '/');
    assert(rest.subrange(n + 2, n + 5) =~= sep);
    assert forall|j: int| 0 <= j < n + 2 implies !#[trigger] occurs_at(rest, sep, j) by {
        let w = rest.subrange(j, j + 3);
        if j == 0 {
            assert(w[0] == 'a');
        } else if j == 1 {
            assert(w[0] == '/');
        } else if j + 3 <= n + 2 {
            assert(w =~= p.subrange(j - 2, j + 1));
            assert(!blank_b_slash_at(p, j - 2));
        } else if j == n {
            assert(w[2] == rest[n + 2]);
        } else {
            assert(j == n + 1);
            assert(w[1] == rest[n + 2]);
        }
    }
    lemma_find_at(rest, sep, 0, n + 2);
    assert(b_separator() == sep);
    assert(rest.skip(n + 5) =~= p);
    let line = seq!['d', 'i', 'f', 'f', ' ', '-', '-', 'g', 'i', 't', ' ', 'a', '/'] + p + sep + p;
    assert(line =~= diff_git_marker() + rest);
    assert(has_prefix(line, diff_git_marker())) by {
        assert(line.subrange(0, 11) =~= diff_git_marker());
    }
    assert(line.skip(11) =~= rest);
    let st = step(init_state(), line).unwrap();
    assert(st.current == Some(FileDiffV { path: p, hunks: seq![] }));
    assert(seq![line][0] == line);
    assert(seq![line].drop_first() =~= Seq::<Seq<char>>::empty());
    assert(run_from(st, Seq::<Seq<char>>::empty()) == Some(st));
    assert(run_from(init_state(), seq![line]) == Some(st));
    assert(finish(st) =~= seq![FileDiffV { path: p, hunks: seq![] }]);
}

} // verus!

verus! {

/// The path on a `diff --git a/P b/Q` line is everything after the first ` b/`: where
/// `P` holds no ` b/`, it is `Q`, whatever `Q` holds (a later ` b/` included).
pub proof fn law_diff_git_path_follows_the_first_b(p: Seq<char>, q: Seq<char>)
    requires
        forall|k: int| 0 <= k && k + 3 <= p.len() ==> !#[trigger] blank_b_slash_at(p, k),
    ensures
        extract_path_spec(seq!['a', '/'] + p + seq![' ', 'b', '/'] + q) == q,
{
    let sep = seq![' ', 'b', '/'];
    let n = p.len() as int;
    let rest = seq!['a', '/'] + p + sep + q;
    assert(rest.len() == n + q.len() + 5);
    assert forall|i: int| 2 <= i < n + 2 implies rest[i] == p[i - 2] by {}
    assert(rest[n + 2] == ' ' && rest[n + 3] == 'b' && rest[n + 4] == '/');
    assert(rest.subrange(n + 2, n + 5) =~= sep);
    assert forall|j: int| 0 <= j < n + 2 implies !#[trigger] occurs_at(rest, sep, j) by {
        let w = rest.subrange(j, j + 3);
        if j == 0 {
            assert(w[0] == 'a');
        } else if j == 1 {
            assert(w[0] == '/');
        } else if j + 3 <= n + 2 {
            assert(w =~= p.subrange(j - 2, j + 1));
            assert(!blank_b_slash_at(p, j - 2));
        } else if j == n {
            assert(w[2] == rest[n + 2]);
        } else {
            assert(j == n + 1);
            assert(w[1] == rest[n + 2]);
        }
    }
    lemma_find_at(rest, sep, 0, n + 2);
    assert(b_separator() == sep);
    assert(rest.skip(n + 5) =~= q);
}

} // verus!
