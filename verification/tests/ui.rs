use dv::app::App;
use dv::diffmodel::parse;
use dv::git::diff_args;
use dv::project::{project_from_files, project_stats, Project};
use dv::style::{Color, TextLine};
use dv::ui::{
    diff_pane_title, file_rows, footer_spans, key_hint_line, key_hint_spans, preview_rows,
    preview_title, project_list_rows, stat_row, summary_line,
};
use std::path::PathBuf;

fn parts(row: &TextLine) -> Vec<&str> {
    row.spans.iter().map(|s| s.content.as_str()).collect()
}

fn project(name: &str, diff: &str) -> Project {
    project_from_files(name.to_string(), PathBuf::from(format!("/w/{name}")), parse(diff)).unwrap()
}

const TWO_FILES: &str = "diff --git a/x b/x\n@@ -1 +1,2 @@\n-a\n+b\n+c\ndiff --git a/y b/y\n@@ -1 +0,0 @@\n-z\n";

#[test]
fn stat_row_right_aligns_the_counts() {
    let row = stat_row("src/a.rs", 12, 3, 20, 2);
    let parts: Vec<&str> = row.spans.iter().map(|s| s.content.as_str()).collect();
    // 8 + len("+12 -3") = 6 + 2 reserved = 16 used, 4 left.
    assert_eq!(parts, vec!["src/a.rs", "    ", "+12 ", "-3"]);
    assert_eq!(row.spans[2].style.fg, Some(Color::Green));
    assert_eq!(row.spans[3].style.fg, Some(Color::Red));
}

#[test]
fn stat_row_keeps_one_blank_when_out_of_room() {
    let row = stat_row("a-very-long-file-name.txt", 0, 0, 10, 0);
    assert_eq!(row.spans[1].content, " ");
    let row = stat_row("abc", 1, 1, 9, 0);
    // 3 + 5 = 8 used, 1 left.
    assert_eq!(row.spans[1].content, " ");
    let row = stat_row("ab", 1, 1, 10, 0);
    assert_eq!(row.spans[1].content, "   ");
}

#[test]
fn key_hints_alternate_keys_and_descriptions() {
    let spans = key_hint_spans(&[("\u{2190}", "home"), ("q", "quit")]);
    let parts: Vec<&str> = spans.iter().map(|s| s.content.as_str()).collect();
    assert_eq!(parts, vec!["\u{2190}", " home", "  \u{2022}  ", "q", " quit"]);
    assert_eq!(spans[0].style.fg, Some(Color::Rgb(97, 175, 239)));
    assert!(spans[0].style.bold);
    assert_eq!(spans[1].style.fg, Some(Color::DarkGray));
    assert_eq!(key_hint_line(&[]).spans.len(), 0);
}

#[test]
fn diff_pane_title_names_the_selected_file() {
    let mut app = App::new(vec![project("p", "diff --git a/one b/one\n")]);
    assert_eq!(diff_pane_title(&app), "one");
    app.home_confirm();
    assert_eq!(diff_pane_title(&app), "one");
    let empty = App::new(Vec::new());
    assert_eq!(diff_pane_title(&empty), "no changes");
}

#[test]
fn diff_pane_title_names_the_project_when_there_are_several() {
    let mut app = App::new(vec![project("p", "diff --git a/one b/one\n"), project("q", TWO_FILES)]);
    assert_eq!(diff_pane_title(&app), "p \u{2014} one");
    app.next_project();
    app.next_file();
    assert_eq!(diff_pane_title(&app), "q \u{2014} y");
}

#[test]
fn stat_row_counts_an_accented_letter_as_one_column() {
    let row = stat_row("\u{e9}.rs", 1, 1, 20, 0);
    // 4 + len("+1 -1") = 5 = 9 used, 11 left.
    assert_eq!(parts(&row), vec!["\u{e9}.rs", "           ", "+1 ", "-1"]);
    let width: usize = parts(&row).iter().map(|p| p.chars().count()).sum();
    assert_eq!(width, 20);
}

#[test]
fn stat_row_counts_wide_characters_as_two_columns() {
    // The ideograph takes two columns: 5 + len("+1 -1") = 10 used, 10 left.
    let row = stat_row("\u{6f22}.rs", 1, 1, 20, 0);
    assert_eq!(parts(&row), vec!["\u{6f22}.rs", "          ", "+1 ", "-1"]);
    let row = stat_row("\u{6f22}.rs", 1, 1, 20, 2);
    assert_eq!(row.spans[1].content.len(), 8);
    let row = stat_row("\u{6f22}\u{6f22}\u{6f22}", 10, 10, 12, 0);
    assert_eq!(row.spans[1].content, " ");
}

#[test]
fn project_list_rows_follow_the_matches() {
    let mut app = App::new(vec![project("p", "diff --git a/one b/one\n"), project("q", TWO_FILES)]);
    let rows = project_list_rows(&app.projects, &app.matches, 14);
    assert_eq!(rows.len(), 2);
    // 1 + 5 + 2 reserved = 8 used, 6 left.
    assert_eq!(parts(&rows[0]), vec!["p", "      ", "+0 ", "-0"]);
    assert_eq!(parts(&rows[1]), vec!["q", "      ", "+2 ", "-2"]);
    app.home_type('q');
    let rows = project_list_rows(&app.projects, &app.matches, 14);
    assert_eq!(rows.len(), 1);
    assert_eq!(parts(&rows[0])[0], "q");
}

#[test]
fn preview_shows_the_selected_projects_files() {
    let app = App::new(vec![project("q", TWO_FILES)]);
    let sel = app.preview_project();
    assert_eq!(preview_title(sel), "q");
    let rows = preview_rows(sel, 10);
    assert_eq!(rows.len(), 2);
    // 1 + 5 = 6 used, 4 left.
    assert_eq!(parts(&rows[0]), vec!["x", "    ", "+2 ", "-1"]);
    assert_eq!(parts(&rows[1]), vec!["y", "    ", "+0 ", "-1"]);
    assert_eq!(preview_title(None), "Preview");
    assert!(preview_rows(None, 10).is_empty());
    let sidebar = file_rows(&app.projects[0].files, 10, 2);
    assert_eq!(parts(&sidebar[0]), vec!["x", "  ", "+2 ", "-1"]);
}

#[test]
fn footer_offers_project_keys_only_with_several_projects() {
    let one = App::new(vec![project("p", TWO_FILES)]);
    let spans = footer_spans(&one);
    let texts: Vec<&str> = spans.iter().map(|s| s.content.as_str()).collect();
    assert_eq!(texts, vec!["\u{2190}", " home", "  \u{2022}  ", "q", " quit"]);

    let two = App::new(vec![project("p", TWO_FILES), project("r", TWO_FILES)]);
    let spans = footer_spans(&two);
    let texts: Vec<&str> = spans.iter().map(|s| s.content.as_str()).collect();
    assert_eq!(
        texts,
        vec![
            "p", "  \u{2022}  ", "{ }", " switch", "  \u{2022}  ", "space space", " all projects",
            "  \u{2022}  ", "\u{2190}", " home", "  \u{2022}  ", "q", " quit",
        ]
    );
    assert_eq!(spans[0].style.fg, Some(Color::DarkGray));
    assert_eq!(spans[2].style.fg, Some(Color::Rgb(97, 175, 239)));
}

#[test]
fn project_needs_changed_files() {
    assert!(project_from_files("p".to_string(), PathBuf::from("/p"), Vec::new()).is_none());
    let files = parse("diff --git a/one b/one\n");
    let p = project_from_files("p".to_string(), PathBuf::from("/p"), files).unwrap();
    assert_eq!(p.name, "p");
    assert_eq!(p.root, PathBuf::from("/p"));
    assert_eq!(p.files.len(), 1);
}

#[test]
fn git_diff_arguments() {
    assert_eq!(diff_args(false), vec!["diff", "--no-color", "--no-ext-diff"]);
    assert_eq!(diff_args(true), vec!["diff", "--no-color", "--no-ext-diff", "--staged"]);
}

#[test]
fn summary_line_totals_the_projects() {
    let line = summary_line(&[(2, 5, 1), (1, 0, 3)]);
    let parts: Vec<&str> = line.spans.iter().map(|s| s.content.as_str()).collect();
    assert_eq!(
        parts,
        vec!["2 projects with changes", "  \u{2022}  ", "3 files", "  \u{2022}  ", "+5 ", "-4"]
    );
    let one = summary_line(&[(1, 1, 0)]);
    assert_eq!(one.spans[0].content, "1 project with changes");
    assert_eq!(one.spans[2].content, "1 file");
    let none = summary_line(&[]);
    assert_eq!(none.spans.len(), 1);
    assert_eq!(none.spans[0].content, "No projects with changes found here.");
}

#[test]
fn project_stats_counts_files_and_lines() {
    let p = project_from_files("p".to_string(), PathBuf::from("/p"), parse(TWO_FILES)).unwrap();
    assert_eq!(project_stats(&p), (2, 2, 2));
}
