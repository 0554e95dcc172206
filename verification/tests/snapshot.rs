use giter::git::snapshot::count_comment_lines;
use giter::model::SnapshotRecord;

fn make_tree_entry_snapshot(lines: &[&str], ext: &str) -> SnapshotRecord {
    let blank = lines.iter().filter(|l| l.trim().is_empty()).count() as u32;
    let comment = count_comment_lines(lines, ext);
    let code = lines.len() as u32 - blank - comment;
    SnapshotRecord {
        commit_hash: String::new(),
        file_path: format!("file.{}", ext),
        code_lines: code,
        comment_lines: comment,
        blank_lines: blank,
    }
}

#[test]
fn test_rust_no_comments() {
    let lines = vec!["fn main() {", "    println!(\"hello\");", "}"];
    let snap = make_tree_entry_snapshot(&lines, "rs");
    assert_eq!(snap.code_lines, 3);
    assert_eq!(snap.comment_lines, 0);
    assert_eq!(snap.blank_lines, 0);
}

#[test]
fn test_rust_with_comments() {
    let lines = vec![
        "//! Module doc comment",
        "",
        "fn main() {",
        "    // inline comment",
        "    println!(\"hello\");",
        "}",
    ];
    let snap = make_tree_entry_snapshot(&lines, "rs");
    assert_eq!(snap.blank_lines, 1);
    assert_eq!(snap.comment_lines, 2);
    assert_eq!(snap.code_lines, 3);
}

#[test]
fn test_python_with_comments() {
    let lines = vec!["# This is a comment", "def hello():", "    # another comment", "    print('hi')", ""];
    let snap = make_tree_entry_snapshot(&lines, "py");
    assert_eq!(snap.blank_lines, 1);
    assert_eq!(snap.comment_lines, 2);
    assert_eq!(snap.code_lines, 2);
}

#[test]
fn test_multi_line_block_comment() {
    let lines = vec![
        "/*",
        " * This is a block comment",
        " * spanning multiple lines",
        " */",
        "fn main() {}",
    ];
    let snap = make_tree_entry_snapshot(&lines, "rs");
    assert_eq!(snap.comment_lines, 4);
    assert_eq!(snap.code_lines, 1);
    assert_eq!(snap.blank_lines, 0);
}

#[test]
fn test_html_comments() {
    let lines = vec!["<!--", "  HTML comment block", "-->", "<html></html>"];
    let snap = make_tree_entry_snapshot(&lines, "html");
    assert_eq!(snap.comment_lines, 3);
    assert_eq!(snap.code_lines, 1);
}

#[test]
fn test_empty_file() {
    let lines: Vec<&str> = vec![];
    let snap = make_tree_entry_snapshot(&lines, "rs");
    assert_eq!(snap.code_lines, 0);
    assert_eq!(snap.comment_lines, 0);
    assert_eq!(snap.blank_lines, 0);
}

#[test]
fn test_all_blank() {
    let lines = vec!["", "  ", "   ", ""];
    let snap = make_tree_entry_snapshot(&lines, "rs");
    assert_eq!(snap.code_lines, 0);
    assert_eq!(snap.comment_lines, 0);
    assert_eq!(snap.blank_lines, 4);
}

#[test]
fn code_before_block_comment_is_code() {
    assert_eq!(count_comment_lines(&["let x = 1; /* note */"], "rs"), 0);
    assert_eq!(count_comment_lines(&["/* a */ let x = 1;"], "rs"), 0);
    assert_eq!(count_comment_lines(&["/* a */"], "rs"), 1);
    assert_eq!(count_comment_lines(&["  /* a */  "], "rs"), 1);
}

#[test]
fn code_after_block_end_is_code() {
    let lines = ["/* start", "middle", "*/ let y = 2;", "/* one", "*/"];
    assert_eq!(count_comment_lines(&lines, "rs"), 4);
    let html = ["<p>x</p> <!-- note", "still comment", "-->"];
    assert_eq!(count_comment_lines(&html, "html"), 2);
}

#[test]
fn single_line_marker_before_block_start_counts() {
    // The line is all comment; the block it opens stays open on the next line.
    let lines = ["// see /* here", "inside", "*/"];
    assert_eq!(count_comment_lines(&lines, "rs"), 3);
    // A start marker inside a string literal opens nothing.
    assert_eq!(count_comment_lines(&["let s = \"/*\";", "x"], "rs"), 0);
}
