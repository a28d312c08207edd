use dv::app::{decorate_line, key_action, render_file, render_file_in, Action, App, Key, Screen};
use dv::diffmodel::{parse, FileDiff, Hunk, Line, LineKind};
use dv::highlight::{pick_syntax, Highlighter};
use dv::project::{project_from_files, Project};
use dv::style::{Color, Span, Style};
use dv::watch::Update;
use std::path::PathBuf;

const DIFF: &str = "\
diff --git a/a.rs b/a.rs
@@ -10,2 +10,2 @@
-let x = 1;
+let x = 2;
 fn main() {}
diff --git a/b.txt b/b.txt
@@ -1 +1 @@
-old
+new
";

const OTHER: &str = "\
diff --git a/c.md b/c.md
@@ -1 +1,2 @@
 # title
+more
";

fn text(line: &dv::style::TextLine) -> String {
    line.spans.iter().map(|s| s.content.as_str()).collect()
}

fn project(name: &str, diff: &str) -> Project {
    project_from_files(name.to_string(), PathBuf::from(format!("/w/{name}")), parse(diff)).unwrap()
}

fn two_projects() -> App {
    App::new(vec![project("alpha", DIFF), project("beta", OTHER)])
}

#[test]
fn render_file_draws_header_gutter_marker_and_content() {
    let files = parse(DIFF);
    let h = Highlighter::new();
    let lines = render_file(&files[0], &h);
    assert_eq!(lines.len(), 4);
    assert_eq!(lines[0].spans.len(), 1);
    assert_eq!(lines[0].spans[0].content, "@@ -10,2 +10,2 @@");
    assert_eq!(lines[0].spans[0].style.fg, Some(Color::Cyan));
    assert!(lines[0].spans[0].style.bold);

    assert_eq!(lines[1].spans[0].content, "  10      ");
    assert_eq!(lines[1].spans[0].style.fg, Some(Color::DarkGray));
    assert_eq!(lines[1].spans[1].content, "- ");
    assert_eq!(lines[1].spans[1].style.fg, Some(Color::Red));
    assert_eq!(text(&lines[1]), "  10      - let x = 1;");
    for s in &lines[1].spans[2..] {
        assert_eq!(s.style.bg, Some(Color::Rgb(45, 20, 22)));
    }

    assert_eq!(lines[2].spans[0].content, "       10 ");
    assert_eq!(lines[2].spans[1].content, "+ ");
    for s in &lines[2].spans[2..] {
        assert_eq!(s.style.bg, Some(Color::Rgb(20, 40, 22)));
    }

    assert_eq!(lines[3].spans[0].content, "  11   11 ");
    assert_eq!(lines[3].spans[1].content, "  ");
    assert_eq!(text(&lines[3]), "  11   11   fn main() {}");
    for s in &lines[3].spans[2..] {
        assert_eq!(s.style.bg, None);
    }
}

#[test]
fn decorate_line_tints_the_given_content() {
    let line = Line {
        kind: LineKind::Added,
        old_lineno: None,
        new_lineno: Some(7),
        content: "ab".to_string(),
    };
    let red = Style { fg: Some(Color::Rgb(200, 0, 0)), bg: None, bold: true, italic: false };
    let content = vec![
        Span { content: "a".to_string(), style: red },
        Span { content: "b".to_string(), style: Style { fg: None, bg: None, bold: false, italic: false } },
    ];
    let out = decorate_line(&line, content);
    assert_eq!(out.spans.len(), 4);
    assert_eq!(out.spans[0].content, "        7 ");
    assert_eq!(out.spans[1].content, "+ ");
    assert_eq!(out.spans[1].style.fg, Some(Color::Green));
    assert_eq!(out.spans[2].content, "a");
    assert_eq!(out.spans[2].style.fg, Some(Color::Rgb(200, 0, 0)));
    assert!(out.spans[2].style.bold);
    assert_eq!(out.spans[2].style.bg, Some(Color::Rgb(20, 40, 22)));
    assert_eq!(out.spans[3].style.bg, Some(Color::Rgb(20, 40, 22)));

    let ctx = Line { kind: LineKind::Context, old_lineno: Some(3), new_lineno: Some(4), content: "a".to_string() };
    let out = decorate_line(&ctx, vec![Span { content: "a".to_string(), style: red }]);
    assert_eq!(out.spans[1].content, "  ");
    assert_eq!(out.spans[2].style, red);
}

#[test]
fn highlight_keeps_the_line_text() {
    let h = Highlighter::new();
    let syntax = h.syntax_for_path("x.rs");
    assert_eq!(syntax, "Rust");
    let mut hl = h.line_highlighter(&syntax).unwrap();
    let spans = h.highlight(&mut hl, "fn main() { let a = \"s\"; }");
    assert!(spans.len() > 1);
    let joined: String = spans.iter().map(|s| s.content.as_str()).collect();
    assert_eq!(joined, "fn main() { let a = \"s\"; }");
    for s in &spans {
        assert!(matches!(s.style.fg, Some(Color::Rgb(_, _, _))));
        assert_eq!(s.style.bg, None);
        assert!(!s.content.contains('\n'));
    }
    assert_eq!(h.syntax_for_path("no-extension-here"), "Plain Text");
    assert_eq!(h.syntax_for_path("src/main.rs"), "Rust");
    assert_eq!(h.syntax_for_path("/nowhere/notes.md"), "Markdown");
    assert!(h.line_highlighter("No Such Syntax").is_none());
}

#[test]
fn pick_syntax_falls_back_to_plain_text() {
    assert_eq!(pick_syntax(Some("Rust".to_string())), "Rust");
    assert_eq!(pick_syntax(None), "Plain Text");
}

#[test]
fn render_file_draws_a_removed_line_on_its_tint() {
    let h = Highlighter::new();
    let file = FileDiff {
        path: "a.txt".to_string(),
        hunks: vec![Hunk {
            header: "@@ -12 +0,0 @@".to_string(),
            lines: vec![Line { kind: LineKind::Removed, old_lineno: Some(12), new_lineno: None, content: "x".to_string() }],
        }],
    };
    let r = render_file(&file, &h);
    assert_eq!(r.len(), 2);
    assert_eq!(r[0].spans[0].content, "@@ -12 +0,0 @@");
    assert_eq!(r[1].spans[0].content, "  12      ");
    assert_eq!(r[1].spans[0].style.fg, Some(Color::DarkGray));
    assert_eq!(r[1].spans[1].content, "- ");
    assert_eq!(r[1].spans[1].style.fg, Some(Color::Red));
    let rest: String = r[1].spans[2..].iter().map(|s| s.content.as_str()).collect();
    assert_eq!(rest, "x");
    for s in &r[1].spans[2..] {
        assert_eq!(s.style.bg, Some(Color::Rgb(45, 20, 22)));
    }
}

#[test]
fn render_file_in_an_unknown_syntax_draws_plain_content() {
    let h = Highlighter::new();
    let files = parse(DIFF);
    let r = render_file_in(&files[0], &h, "No Such Syntax");
    assert_eq!(r.len(), 4);
    assert_eq!(r[1].spans.len(), 3);
    assert_eq!(r[1].spans[2].content, "let x = 1;");
    assert_eq!(r[1].spans[2].style.fg, None);
    assert_eq!(r[1].spans[2].style.bg, Some(Color::Rgb(45, 20, 22)));
    assert_eq!(r[3].spans[2].style, Style { fg: None, bg: None, bold: false, italic: false });
}

#[test]
fn a_new_viewer_starts_home_with_nothing_rendered() {
    let app = two_projects();
    assert_eq!(app.screen, Screen::Home);
    assert_eq!(app.projects.len(), 2);
    assert_eq!(app.projects[0].name, "alpha");
    assert_eq!((app.projects[0].added, app.projects[0].removed), (2, 2));
    assert_eq!((app.projects[1].added, app.projects[1].removed), (1, 0));
    assert!(app.projects.iter().all(|p| p.rendered.is_none()));
    assert!(app.highlighter.is_none());
    assert_eq!(app.matches, vec![0, 1]);
    assert!(app.current_rendered().is_empty());
    assert_eq!(app.preview_project().unwrap().name, "alpha");
}

#[test]
fn opening_a_project_renders_it_once() {
    let mut app = two_projects();
    app.home_move_down();
    assert_eq!(app.matched_selected, 1);
    app.home_confirm();
    assert_eq!(app.screen, Screen::Diff);
    assert_eq!(app.selected_project, 1);
    assert!(app.projects[0].rendered.is_none());
    assert_eq!(app.projects[1].rendered.as_ref().unwrap().len(), 1);
    assert_eq!(app.current_rendered().len(), 3);
    assert_eq!(app.current_file().unwrap().path, "c.md");
    assert!(app.highlighter.is_some());

    app.scroll_down(2);
    app.next_project();
    assert_eq!(app.selected_project, 0);
    assert_eq!(app.scroll, 0);
    assert_eq!(app.current_rendered().len(), 4);
    let first = app.projects[0].rendered.clone().unwrap();
    app.prev_project();
    assert_eq!(app.selected_project, 1);
    app.prev_project();
    assert_eq!(app.selected_project, 0);
    assert_eq!(app.projects[0].rendered.as_ref().unwrap(), &first);
}

#[test]
fn navigation_stays_within_the_files_and_resets_scroll() {
    let mut app = two_projects();
    app.home_confirm();
    assert_eq!(app.selected_file, 0);
    assert_eq!(app.current_file().unwrap().path, "a.rs");
    assert_eq!(app.current_rendered().len(), 4);

    app.scroll_down(5);
    assert_eq!(app.scroll, 5);
    app.prev_file();
    assert_eq!(app.selected_file, 0);
    assert_eq!(app.scroll, 5);

    app.next_file();
    assert_eq!(app.selected_file, 1);
    assert_eq!(app.scroll, 0);
    assert_eq!(app.current_file().unwrap().path, "b.txt");
    assert_eq!(app.current_rendered().len(), 3);

    app.scroll_down(3);
    app.next_file();
    assert_eq!(app.selected_file, 1);
    assert_eq!(app.scroll, 3);

    app.prev_file();
    assert_eq!(app.selected_file, 0);
    assert_eq!(app.scroll, 0);
}

#[test]
fn scrolling_saturates_at_both_ends() {
    let mut app = App::new(Vec::new());
    assert!(app.current_file().is_none());
    assert!(app.current_rendered().is_empty());
    app.scroll_up(3);
    assert_eq!(app.scroll, 0);
    app.scroll_down(u16::MAX - 1);
    app.scroll_down(15);
    assert_eq!(app.scroll, u16::MAX);
    app.scroll_up(15);
    assert_eq!(app.scroll, u16::MAX - 15);
    app.scroll_down(7);
    app.scroll_up(7);
    assert_eq!(app.scroll, u16::MAX - 15);
}

#[test]
fn switching_projects_with_none_changes_nothing() {
    let mut app = App::new(Vec::new());
    app.next_project();
    app.prev_project();
    app.home_confirm();
    assert_eq!(app.screen, Screen::Home);
    assert_eq!(app.selected_project, 0);
}

#[test]
fn quit_sets_the_flag() {
    let mut app = App::new(Vec::new());
    assert!(!app.should_quit);
    app.quit();
    assert!(app.should_quit);
}

#[test]
fn the_filter_matches_in_order_without_case() {
    let mut app = App::new(vec![project("alpha", DIFF), project("beta", OTHER), project("Gamma", OTHER)]);
    app.home_type('A');
    assert_eq!(app.query, "A");
    assert_eq!(app.matches, vec![0, 1, 2]);
    app.home_type('m');
    assert_eq!(app.matches, vec![2]);
    assert_eq!(app.matched_selected, 0);
    app.home_backspace();
    assert_eq!(app.query, "A");
    app.home_backspace();
    app.home_type('e');
    assert_eq!(app.matches, vec![1]);
    app.home_type('x');
    assert!(app.matches.is_empty());
    assert!(app.preview_project().is_none());
    app.home_confirm();
    assert_eq!(app.screen, Screen::Home);
    app.home_backspace();
    app.home_backspace();
    assert_eq!(app.query, "");
    app.home_backspace();
    assert_eq!(app.matches, vec![0, 1, 2]);
}

#[test]
fn keys_drive_the_viewer() {
    let mut app = two_projects();
    assert_eq!(key_action(Screen::Diff, Key::Char('x')), Action::Nothing);
    assert_eq!(key_action(Screen::Home, Key::Char('x')), Action::Type('x'));
    app.handle_key(Key::Char('b'));
    assert_eq!(app.matches, vec![1]);
    app.handle_key(Key::Backspace);
    app.handle_key(Key::Down);
    app.handle_key(Key::Up);
    app.handle_key(Key::Enter);
    assert_eq!(app.screen, Screen::Diff);
    assert_eq!(app.selected_project, 0);

    app.handle_key(Key::Char('d'));
    assert_eq!(app.scroll, 15);
    app.handle_key(Key::Up);
    assert_eq!(app.scroll, 14);
    app.handle_key(Key::Char('g'));
    assert_eq!(app.scroll, 0);
    app.handle_key(Key::Char('j'));
    app.handle_key(Key::Tab);
    assert_eq!(app.selected_file, 1);
    assert_eq!(app.scroll, 0);
    app.handle_key(Key::Left);
    assert_eq!(app.selected_file, 0);
    app.handle_key(Key::Char('}'));
    assert_eq!(app.selected_project, 1);
    app.handle_key(Key::Char('{'));
    assert_eq!(app.selected_project, 0);

    app.handle_key(Key::Char(' '));
    assert!(app.space_pending);
    app.handle_key(Key::Char('j'));
    assert!(!app.space_pending);
    app.handle_key(Key::Char(' '));
    app.handle_key(Key::Char(' '));
    assert_eq!(app.screen, Screen::Home);
    assert!(!app.space_pending);

    assert!(!app.should_quit);
    app.handle_key(Key::Char('q'));
    assert!(app.should_quit);
}

#[test]
fn watch_updates_merge_into_the_matching_project() {
    let mut app = two_projects();
    app.home_confirm();
    app.next_file();
    assert_eq!(app.selected_file, 1);

    // A fresh diff of the open project: one file left, rendered anew, selection kept in it.
    app.apply_watch_update(Update { root: PathBuf::from("/w/alpha"), project: Some(project("alpha", OTHER)) });
    assert_eq!(app.projects[0].files.len(), 1);
    assert_eq!((app.projects[0].added, app.projects[0].removed), (1, 0));
    assert_eq!(app.selected_file, 0);
    assert_eq!(app.current_rendered().len(), 3);
    assert_eq!(app.projects[0].name, "alpha");

    // Changes committed away, an unknown root, or the same diff: nothing changes.
    app.apply_watch_update(Update { root: PathBuf::from("/w/alpha"), project: None });
    assert_eq!(app.projects.len(), 2);
    assert_eq!(app.projects[0].files.len(), 1);
    app.apply_watch_update(Update { root: PathBuf::from("/w/zeta"), project: Some(project("zeta", DIFF)) });
    assert_eq!(app.projects.len(), 2);
    app.apply_watch_update(Update { root: PathBuf::from("/w/beta"), project: Some(project("beta", OTHER)) });
    assert!(app.projects[1].rendered.is_none());

    // A project not on show drops its rendering until it is opened again.
    app.next_project();
    assert!(app.projects[1].rendered.is_some());
    app.prev_project();
    app.apply_watch_update(Update { root: PathBuf::from("/w/beta"), project: Some(project("beta", DIFF)) });
    assert!(app.projects[1].rendered.is_none());
    assert_eq!(app.projects[1].files.len(), 2);
}
