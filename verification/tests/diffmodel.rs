use dv::diffmodel::{file_stats, parse, parse_checked, same_files, FileDiff, LineKind};

// Fixtures below are real `git diff` output (captured via a scratch repo), not
// hand-written -- so they reflect git's actual formatting quirks rather than a
// guess at them.

const MIXED: &str = "\
diff --git a/added.txt b/added.txt
new file mode 100644
index 0000000..b698677
--- /dev/null
+++ b/added.txt
@@ -0,0 +1 @@
+brand new file
diff --git a/deleted.txt b/deleted.txt
deleted file mode 100644
index 4202011..0000000
--- a/deleted.txt
+++ /dev/null
@@ -1 +0,0 @@
-to be deleted
diff --git a/modified.txt b/modified.txt
index 83db48f..adc4dce 100644
--- a/modified.txt
+++ b/modified.txt
@@ -1,3 +1,4 @@
-line1
+line1 CHANGED
 line2
 line3
+line4 NEW
diff --git a/no_trailing_newline.txt b/no_trailing_newline.txt
index 2802503..a27014a 100644
--- a/no_trailing_newline.txt
+++ b/no_trailing_newline.txt
@@ -1 +1 @@
-no newline at end
\\ No newline at end of file
+no newline at end CHANGED
\\ No newline at end of file
diff --git a/renamed_new.txt b/renamed_new.txt
new file mode 100644
index 0000000..cc719ed
--- /dev/null
+++ b/renamed_new.txt
@@ -0,0 +1,2 @@
+new content
+extra line
diff --git a/renamed_old.txt b/renamed_old.txt
deleted file mode 100644
index 33194a0..0000000
--- a/renamed_old.txt
+++ /dev/null
@@ -1 +0,0 @@
-old content
";

fn find<'a>(files: &'a [FileDiff], path: &str) -> &'a FileDiff {
    files
        .iter()
        .find(|f| f.path == path)
        .unwrap_or_else(|| panic!("no file with path {path} found in {files:?}"))
}

#[test]
fn parses_new_file() {
    let files = parse(MIXED);
    let f = find(&files, "added.txt");
    assert_eq!(file_stats(f), (1, 0));
    assert_eq!(f.hunks[0].lines[0].kind, LineKind::Added);
    assert_eq!(f.hunks[0].lines[0].content, "brand new file");
}

#[test]
fn parses_deleted_file_keeping_the_old_path() {
    let files = parse(MIXED);
    // The `b/` side is /dev/null for a deletion; the path must come from `a/`.
    let f = find(&files, "deleted.txt");
    assert_eq!(file_stats(f), (0, 1));
}

#[test]
fn parses_modification_with_mixed_add_remove_context() {
    let files = parse(MIXED);
    let f = find(&files, "modified.txt");
    assert_eq!(file_stats(f), (2, 1));
    let kinds: Vec<LineKind> = f.hunks[0].lines.iter().map(|l| l.kind).collect();
    assert_eq!(
        kinds,
        vec![
            LineKind::Removed,
            LineKind::Added,
            LineKind::Context,
            LineKind::Context,
            LineKind::Added,
        ]
    );
}

#[test]
fn no_newline_at_end_of_file_marker_does_not_produce_a_line() {
    let files = parse(MIXED);
    let f = find(&files, "no_trailing_newline.txt");
    // Exactly one removed + one added line; the "\ No newline..." marker lines
    // must not be parsed as content lines.
    assert_eq!(f.hunks[0].lines.len(), 2);
    assert_eq!(file_stats(f), (1, 1));
}

#[test]
fn every_file_in_a_multi_file_diff_is_captured() {
    let files = parse(MIXED);
    let mut paths: Vec<&str> = files.iter().map(|f| f.path.as_str()).collect();
    paths.sort();
    assert_eq!(
        paths,
        vec![
            "added.txt",
            "deleted.txt",
            "modified.txt",
            "no_trailing_newline.txt",
            "renamed_new.txt",
            "renamed_old.txt",
        ]
    );
}

#[test]
fn parses_pure_rename_with_no_content_change_as_zero_hunks() {
    // A rename git considers 100% similar has no `---`/`+++`/`@@` lines at all --
    // just `rename from`/`rename to`. We still record the file (using the `b/`
    // path from the `diff --git` header), just with no hunks to render.
    let diff = "\
diff --git a/renamed_old.txt b/renamed_new2.txt
similarity index 100%
rename from renamed_old.txt
rename to renamed_new2.txt
";
    let files = parse(diff);
    assert_eq!(files.len(), 1);
    assert_eq!(files[0].path, "renamed_new2.txt");
    assert!(files[0].hunks.is_empty());
}

#[test]
fn parses_rename_with_content_change() {
    let diff = "\
diff --git a/big.txt b/big_renamed.txt
similarity index 57%
rename from big.txt
rename to big_renamed.txt
index 6f195b4..5a317f8 100644
--- a/big.txt
+++ b/big_renamed.txt
@@ -1,5 +1,5 @@
 aaa
-bbb
+bbb CHANGED
 ccc
 ddd
 eee
";
    let files = parse(diff);
    assert_eq!(files.len(), 1);
    assert_eq!(files[0].path, "big_renamed.txt");
    assert_eq!(file_stats(&files[0]), (1, 1));
}

#[test]
fn binary_file_diff_degrades_to_zero_hunks_without_crashing() {
    // No `---`/`+++`/`@@` lines for true binary content -- just a "Binary files
    // ... differ" line. We can't render a binary diff, but parsing it must not
    // panic or drop the file entirely.
    let diff = "\
diff --git a/image.bin b/image.bin
new file mode 100644
index 0000000..f5d691f
Binary files /dev/null and b/image.bin differ
";
    let files = parse(diff);
    assert_eq!(files.len(), 1);
    assert_eq!(files[0].path, "image.bin");
    assert!(files[0].hunks.is_empty());
}

#[test]
fn empty_diff_produces_no_files() {
    assert!(parse("").is_empty());
}

// ---------------------------------------------------------------------------
// Further cases
// ---------------------------------------------------------------------------

#[test]
fn line_numbers_count_up_from_the_hunk_header() {
    let diff = "\
diff --git a/m.txt b/m.txt
--- a/m.txt
+++ b/m.txt
@@ -10,3 +20,4 @@ fn context()
 keep
-gone
+new one
+new two
 tail
";
    let files = parse(diff);
    let lines = &files[0].hunks[0].lines;
    assert_eq!(files[0].hunks[0].header, "@@ -10,3 +20,4 @@ fn context()");
    let numbers: Vec<(Option<u32>, Option<u32>)> =
        lines.iter().map(|l| (l.old_lineno, l.new_lineno)).collect();
    assert_eq!(
        numbers,
        vec![
            (Some(10), Some(20)),
            (Some(11), None),
            (None, Some(21)),
            (None, Some(22)),
            (Some(12), Some(23)),
        ]
    );
    assert_eq!(lines[0].content, "keep");
    assert_eq!(lines[2].content, "new one");
}

#[test]
fn malformed_hunk_header_falls_back_to_line_one() {
    let diff = "\
diff --git a/m.txt b/m.txt
@@ -x,3 +y @@
-a
+b
";
    let files = parse(diff);
    let lines = &files[0].hunks[0].lines;
    assert_eq!(lines[0].old_lineno, Some(1));
    assert_eq!(lines[1].new_lineno, Some(1));
}

#[test]
fn several_hunks_in_one_file_are_kept_apart() {
    let diff = "\
diff --git a/m.txt b/m.txt
@@ -1 +1 @@
-a
+b
@@ -50 +50,2 @@
 c
+d
";
    let files = parse(diff);
    assert_eq!(files.len(), 1);
    assert_eq!(files[0].hunks.len(), 2);
    assert_eq!(files[0].hunks[1].lines[1].new_lineno, Some(51));
    assert_eq!(file_stats(&files[0]), (2, 1));
}

#[test]
fn crlf_line_endings_are_dropped_from_content() {
    let diff = "diff --git a/w.txt b/w.txt\r\n@@ -1 +1 @@\r\n-old\r\n+new\r\n";
    let files = parse(diff);
    assert_eq!(files[0].path, "w.txt");
    assert_eq!(files[0].hunks[0].lines[0].content, "old");
    assert_eq!(files[0].hunks[0].lines[1].content, "new");
}

#[test]
fn hunk_lines_before_any_file_header_are_dropped() {
    let diff = "\
@@ -1 +1 @@
-stray
diff --git a/x b/x
";
    let files = parse(diff);
    assert_eq!(files.len(), 1);
    assert!(files[0].hunks.is_empty());
}

#[test]
fn plus_plus_plus_path_is_trimmed_and_overrides_the_header_path() {
    let diff = "\
diff --git a/odd name b/odd name
--- a/odd name
+++ b/odd name\t
";
    let files = parse(diff);
    assert_eq!(files[0].path, "odd name");
}

#[test]
fn line_number_overflow_is_refused() {
    let diff = "\
diff --git a/x b/x
@@ -1 +4294967295 @@
+a
";
    assert!(parse_checked(diff).is_none());
    let ok = "\
diff --git a/x b/x
@@ -1 +4294967294 @@
+a
";
    let files = parse_checked(ok).expect("fits");
    assert_eq!(files[0].hunks[0].lines[0].new_lineno, Some(4294967294));
}

#[test]
fn header_like_lines_inside_a_hunk_are_lines() {
    let files = parse(
        "diff --git a/sql b/sql\n--- a/sql\n+++ b/sql\n@@ -1,2 +1,2 @@\n--- old comment\n+++ new comment\n ctx\n",
    );
    assert_eq!(files.len(), 1);
    assert_eq!(files[0].path, "sql");
    let lines = &files[0].hunks[0].lines;
    assert_eq!(lines.len(), 3);
    assert_eq!(lines[0].kind, LineKind::Removed);
    assert_eq!(lines[0].content, "-- old comment");
    assert_eq!(lines[1].kind, LineKind::Added);
    assert_eq!(lines[1].content, "++ new comment");
    assert_eq!(lines[2].kind, LineKind::Context);
}

#[test]
fn same_files_compares_whole_diffs() {
    let a = parse("diff --git a/x b/x\n@@ -1 +1 @@\n-a\n+b\n");
    let b = parse("diff --git a/x b/x\n@@ -1 +1 @@\n-a\n+b\n");
    let c = parse("diff --git a/x b/x\n@@ -1 +1 @@\n-a\n+c\n");
    assert!(same_files(&a, &b));
    assert!(!same_files(&a, &c));
    assert!(!same_files(&a, &Vec::new()));
}

#[test]
fn file_stats_add_up_over_hunks() {
    let whole = parse("diff --git a/x b/x\n@@ -1 +1 @@\n-a\n+b\n@@ -5 +5,2 @@\n+c\n ctx\n");
    let first = parse("diff --git a/x b/x\n@@ -1 +1 @@\n-a\n+b\n");
    let second = parse("diff --git a/x b/x\n@@ -5 +5,2 @@\n+c\n ctx\n");
    let (a, r) = file_stats(&whole[0]);
    let (a1, r1) = file_stats(&first[0]);
    let (a2, r2) = file_stats(&second[0]);
    assert_eq!((a, r), (2, 1));
    assert_eq!((a, r), (a1 + a2, r1 + r2));
    let empty = FileDiff { path: "x".to_string(), hunks: Vec::new() };
    assert_eq!(file_stats(&empty), (0, 0));
}

#[test]
fn a_plus_plus_plus_line_renames_only_before_the_first_hunk() {
    let files = parse(
        "diff --git a/old b/old\n+++ b/new\n@@ -1 +1 @@\n+++ b/not-a-path\ndiff --git a/z b/z\n+++ /dev/null\n",
    );
    assert_eq!(files.len(), 2);
    assert_eq!(files[0].path, "new");
    assert_eq!(files[0].hunks[0].lines[0].content, "++ b/not-a-path");
    assert_eq!(files[1].path, "z");
}
