use dv::diffmodel::{clean_ab_path, extract_path, parse_hunk_header};

fn cs(s: &str) -> Vec<char> {
    s.chars().collect()
}

#[test]
fn extract_path_takes_what_follows_b_slash() {
    assert_eq!(extract_path(&cs("a/some/path b/some/path")), "some/path");
    assert_eq!(extract_path(&cs("no separator here")), "no separator here");
    assert_eq!(extract_path(&cs("a/x b/y b/z")), "y b/z");
}

#[test]
fn clean_ab_path_strips_prefix_and_rejects_dev_null() {
    assert_eq!(clean_ab_path(&cs("b/src/main.rs")), Some("src/main.rs".to_string()));
    assert_eq!(clean_ab_path(&cs("a/src/main.rs")), Some("src/main.rs".to_string()));
    assert_eq!(clean_ab_path(&cs("  plain.txt \t")), Some("plain.txt".to_string()));
    assert_eq!(clean_ab_path(&cs("/dev/null")), None);
    assert_eq!(clean_ab_path(&cs(" /dev/null ")), None);
    assert_eq!(clean_ab_path(&cs("b/")), Some(String::new()));
    assert_eq!(clean_ab_path(&cs(" \u{3000}b/x\u{a0}")), Some("x".to_string()));
}

#[test]
fn hunk_header_start_lines() {
    assert_eq!(parse_hunk_header(&cs("-12,7 +12,8 @@ optional context")), (12, 12));
    assert_eq!(parse_hunk_header(&cs("-3 +40 @@")), (3, 40));
    assert_eq!(parse_hunk_header(&cs("-0,0 +1 @@")), (0, 1));
    assert_eq!(parse_hunk_header(&cs("-+7,1 +9 @@")), (7, 9));
    assert_eq!(parse_hunk_header(&cs("-a +b @@")), (1, 1));
    assert_eq!(parse_hunk_header(&cs("@@ -5 +6")), (1, 1));
    assert_eq!(parse_hunk_header(&cs("-99999999999 +2 @@")), (1, 2));
    assert_eq!(parse_hunk_header(&cs("")), (1, 1));
}

#[test]
fn hunk_header_takes_the_last_pieces_before_the_end() {
    assert_eq!(parse_hunk_header(&cs("-1 -5 +2 +3,4 @@ -9 +9")), (5, 3));
    assert_eq!(parse_hunk_header(&cs("+2 @@ -9")), (1, 2));
}
