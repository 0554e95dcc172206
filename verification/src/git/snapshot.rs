//! Line classification for source snapshots: blank lines, comment lines
//! (single-line markers and block comments chosen by file extension) and
//! code lines.

use vstd::prelude::*;
use crate::text::{
    chars_of, contains, contains_chars, count_char, count_char_in_prefix, find, find_chars,
    is_blank, slice_chars, starts_with, starts_with_chars, str_eq, str_is_blank, trim,
    trim_chars, str_views, lines_of,
    text_lines, utf8_text, lower_extension, lower_extension_of, lemma_find_matches,
};
use crate::model::SnapshotRecord;
use crate::path::portable_path;

verus! {

broadcast use vstd::string::group_string_axioms;

/// Extensions whose line comments start with `//`.
pub open spec fn is_slash_ext(ext: Seq<char>) -> bool {
    ext == "rs"@
    || ext == "go"@
    || ext == "zig"@
    || ext == "c"@
    || ext == "cpp"@
    || ext == "cc"@
    || ext == "cxx"@
    || ext == "h"@
    || ext == "hpp"@
    || ext == "hxx"@
    || ext == "java"@
    || ext == "js"@
    || ext == "jsx"@
    || ext == "mjs"@
    || ext == "ts"@
    || ext == "tsx"@
    || ext == "swift"@
    || ext == "kt"@
    || ext == "kts"@
    || ext == "scala"@
    || ext == "dart"@
    || ext == "cs"@
}

fn ext_is_slash(ext: &str) -> (r: bool)
    ensures
        r == is_slash_ext(ext@),
{
    str_eq(ext, "rs")
        || str_eq(ext, "go")
        || str_eq(ext, "zig")
        || str_eq(ext, "c")
        || str_eq(ext, "cpp")
        || str_eq(ext, "cc")
        || str_eq(ext, "cxx")
        || str_eq(ext, "h")
        || str_eq(ext, "hpp")
        || str_eq(ext, "hxx")
        || str_eq(ext, "java")
        || str_eq(ext, "js")
        || str_eq(ext, "jsx")
        || str_eq(ext, "mjs")
        || str_eq(ext, "ts")
        || str_eq(ext, "tsx")
        || str_eq(ext, "swift")
        || str_eq(ext, "kt")
        || str_eq(ext, "kts")
        || str_eq(ext, "scala")
        || str_eq(ext, "dart")
        || str_eq(ext, "cs")
}

/// Extensions whose line comments start with `--`.
pub open spec fn is_dash_ext(ext: Seq<char>) -> bool {
    ext == "sql"@
    || ext == "lua"@
    || ext == "hs"@
    || ext == "sqlite"@
    || ext == "ada"@
}

fn ext_is_dash(ext: &str) -> (r: bool)
    ensures
        r == is_dash_ext(ext@),
{
    str_eq(ext, "sql")
        || str_eq(ext, "lua")
        || str_eq(ext, "hs")
        || str_eq(ext, "sqlite")
        || str_eq(ext, "ada")
}

/// Extensions whose line comments start with `;`.
pub open spec fn is_semicolon_ext(ext: Seq<char>) -> bool {
    ext == "lisp"@
    || ext == "clj"@
    || ext == "cljs"@
    || ext == "cljc"@
    || ext == "edn"@
    || ext == "el"@
}

fn ext_is_semicolon(ext: &str) -> (r: bool)
    ensures
        r == is_semicolon_ext(ext@),
{
    str_eq(ext, "lisp")
        || str_eq(ext, "clj")
        || str_eq(ext, "cljs")
        || str_eq(ext, "cljc")
        || str_eq(ext, "edn")
        || str_eq(ext, "el")
}

/// Extensions whose line comments start with `%`.
pub open spec fn is_percent_ext(ext: Seq<char>) -> bool {
    ext == "tex"@
    || ext == "sty"@
    || ext == "cls"@
    || ext == "bib"@
}

fn ext_is_percent(ext: &str) -> (r: bool)
    ensures
        r == is_percent_ext(ext@),
{
    str_eq(ext, "tex")
        || str_eq(ext, "sty")
        || str_eq(ext, "cls")
        || str_eq(ext, "bib")
}

/// Extensions whose line comments start with `(*`.
pub open spec fn is_ocaml_ext(ext: Seq<char>) -> bool {
    ext == "ml"@
    || ext == "mli"@
    || ext == "mll"@
    || ext == "mly"@
}

fn ext_is_ocaml(ext: &str) -> (r: bool)
    ensures
        r == is_ocaml_ext(ext@),
{
    str_eq(ext, "ml")
        || str_eq(ext, "mli")
        || str_eq(ext, "mll")
        || str_eq(ext, "mly")
}

/// Extensions whose line comments start with `rem ` or `REM `.
pub open spec fn is_batch_ext(ext: Seq<char>) -> bool {
    ext == "bat"@
    || ext == "cmd"@
}

fn ext_is_batch(ext: &str) -> (r: bool)
    ensures
        r == is_batch_ext(ext@),
{
    str_eq(ext, "bat")
        || str_eq(ext, "cmd")
}

/// Extensions listed as using `#` line comments.
pub open spec fn is_hash_ext(ext: Seq<char>) -> bool {
    ext == "py"@
    || ext == "pyw"@
    || ext == "rb"@
    || ext == "sh"@
    || ext == "bash"@
    || ext == "zsh"@
    || ext == "pl"@
    || ext == "pm"@
    || ext == "r"@
    || ext == "rake"@
    || ext == "gemspec"@
    || ext == "yaml"@
    || ext == "yml"@
    || ext == "toml"@
    || ext == "ini"@
    || ext == "cfg"@
    || ext == "conf"@
    || ext == "makefile"@
    || ext == "dockerfile"@
    || ext == "gitignore"@
    || ext == "env"@
    || ext == "nu"@
    || ext == "nuspec"@
    || ext == "ps1"@
}

fn ext_is_hash(ext: &str) -> (r: bool)
    ensures
        r == is_hash_ext(ext@),
{
    str_eq(ext, "py")
        || str_eq(ext, "pyw")
        || str_eq(ext, "rb")
        || str_eq(ext, "sh")
        || str_eq(ext, "bash")
        || str_eq(ext, "zsh")
        || str_eq(ext, "pl")
        || str_eq(ext, "pm")
        || str_eq(ext, "r")
        || str_eq(ext, "rake")
        || str_eq(ext, "gemspec")
        || str_eq(ext, "yaml")
        || str_eq(ext, "yml")
        || str_eq(ext, "toml")
        || str_eq(ext, "ini")
        || str_eq(ext, "cfg")
        || str_eq(ext, "conf")
        || str_eq(ext, "makefile")
        || str_eq(ext, "dockerfile")
        || str_eq(ext, "gitignore")
        || str_eq(ext, "env")
        || str_eq(ext, "nu")
        || str_eq(ext, "nuspec")
        || str_eq(ext, "ps1")
}

/// Extensions with `/* */` block comments.
pub open spec fn is_c_block_ext(ext: Seq<char>) -> bool {
    ext == "rs"@
    || ext == "go"@
    || ext == "zig"@
    || ext == "c"@
    || ext == "cpp"@
    || ext == "cc"@
    || ext == "cxx"@
    || ext == "h"@
    || ext == "hpp"@
    || ext == "hxx"@
    || ext == "java"@
    || ext == "js"@
    || ext == "jsx"@
    || ext == "mjs"@
    || ext == "ts"@
    || ext == "tsx"@
    || ext == "swift"@
    || ext == "kt"@
    || ext == "kts"@
    || ext == "scala"@
    || ext == "dart"@
    || ext == "cs"@
    || ext == "css"@
    || ext == "scss"@
    || ext == "sass"@
    || ext == "less"@
    || ext == "php"@
    || ext == "php3"@
    || ext == "php4"@
    || ext == "php5"@
    || ext == "phtml"@
    || ext == "sql"@
    || ext == "rust"@
    || ext == "graphql"@
}

fn ext_is_c_block(ext: &str) -> (r: bool)
    ensures
        r == is_c_block_ext(ext@),
{
    str_eq(ext, "rs")
        || str_eq(ext, "go")
        || str_eq(ext, "zig")
        || str_eq(ext, "c")
        || str_eq(ext, "cpp")
        || str_eq(ext, "cc")
        || str_eq(ext, "cxx")
        || str_eq(ext, "h")
        || str_eq(ext, "hpp")
        || str_eq(ext, "hxx")
        || str_eq(ext, "java")
        || str_eq(ext, "js")
        || str_eq(ext, "jsx")
        || str_eq(ext, "mjs")
        || str_eq(ext, "ts")
        || str_eq(ext, "tsx")
        || str_eq(ext, "swift")
        || str_eq(ext, "kt")
        || str_eq(ext, "kts")
        || str_eq(ext, "scala")
        || str_eq(ext, "dart")
        || str_eq(ext, "cs")
        || str_eq(ext, "css")
        || str_eq(ext, "scss")
        || str_eq(ext, "sass")
        || str_eq(ext, "less")
        || str_eq(ext, "php")
        || str_eq(ext, "php3")
        || str_eq(ext, "php4")
        || str_eq(ext, "php5")
        || str_eq(ext, "phtml")
        || str_eq(ext, "sql")
        || str_eq(ext, "rust")
        || str_eq(ext, "graphql")
}

/// Extensions with `<!-- -->` block comments.
pub open spec fn is_markup_ext(ext: Seq<char>) -> bool {
    ext == "html"@
    || ext == "htm"@
    || ext == "xhtml"@
    || ext == "xml"@
    || ext == "xsd"@
    || ext == "xslt"@
    || ext == "svg"@
    || ext == "mdx"@
}

fn ext_is_markup(ext: &str) -> (r: bool)
    ensures
        r == is_markup_ext(ext@),
{
    str_eq(ext, "html")
        || str_eq(ext, "htm")
        || str_eq(ext, "xhtml")
        || str_eq(ext, "xml")
        || str_eq(ext, "xsd")
        || str_eq(ext, "xslt")
        || str_eq(ext, "svg")
        || str_eq(ext, "mdx")
}

/// Extensions with `(* *)` block comments.
pub open spec fn is_ocaml_block_ext(ext: Seq<char>) -> bool {
    ext == "ml"@
    || ext == "mli"@
    || ext == "mll"@
    || ext == "mly"@
}

fn ext_is_ocaml_block(ext: &str) -> (r: bool)
    ensures
        r == is_ocaml_block_ext(ext@),
{
    str_eq(ext, "ml")
        || str_eq(ext, "mli")
        || str_eq(ext, "mll")
        || str_eq(ext, "mly")
}

/// The single-line comment markers for an extension.
pub open spec fn single_markers(ext: Seq<char>) -> Seq<Seq<char>> {
    if is_slash_ext(ext) {
        seq!["//"@]
    } else if is_hash_ext(ext) {
        seq!["#"@]
    } else if is_dash_ext(ext) {
        seq!["--"@]
    } else if is_semicolon_ext(ext) {
        seq![";"@]
    } else if is_percent_ext(ext) {
        seq!["%"@]
    } else if is_ocaml_ext(ext) {
        seq!["(*"@]
    } else if is_batch_ext(ext) {
        seq!["rem "@, "REM "@]
    } else {
        seq!["#"@]
    }
}

/// The block comment start and end markers for an extension; both empty when
/// the extension has no block comments.
pub open spec fn multi_markers(ext: Seq<char>) -> (Seq<char>, Seq<char>) {
    if is_c_block_ext(ext) {
        ("/*"@, "*/"@)
    } else if is_markup_ext(ext) {
        ("<!--"@, "-->"@)
    } else if is_ocaml_block_ext(ext) {
        ("(*"@, "*)"@)
    } else {
        (""@, ""@)
    }
}

/// Whether `t` begins with one of `markers`.
pub open spec fn starts_with_any(t: Seq<char>, markers: Seq<Seq<char>>) -> bool {
    exists|k: int| 0 <= k < markers.len() && starts_with(t, #[trigger] markers[k])
}

/// The text of `t` after the first occurrence of `pat` in it.
pub open spec fn text_after(t: Seq<char>, pat: Seq<char>) -> Seq<char> {
    t.subrange(find(t, pat)->0 + pat.len(), t.len() as int)
}

/// One step of the comment scan: whether `line` consists entirely of comment
/// (and so counts as a comment line), and whether a block comment is open
/// after it. With `t` the line without surrounding white space, a non-blank
/// line is all comment when
/// - a block comment is open and the line does not close it, or closes it
///   with nothing after the end marker;
/// - it begins with a single-line marker;
/// - it opens a block comment (a start marker outside a string literal, that
///   is with an even number of `"` before it) with nothing before the start
///   marker and, when the block closes on the same line, nothing after the
///   end marker.
/// A block comment opened by the line stays open unless its end marker
/// follows the start marker on the same line.
pub open spec fn comment_step(line: Seq<char>, ext: Seq<char>, in_block: bool) -> (bool, bool) {
    let t = trim(line);
    let start = multi_markers(ext).0;
    let end = multi_markers(ext).1;
    let single = starts_with_any(t, single_markers(ext));
    if t.len() == 0 {
        (false, in_block)
    } else if in_block {
        if end.len() > 0 && find(t, end) is Some {
            (text_after(t, end).len() == 0, false)
        } else {
            (true, true)
        }
    } else if start.len() > 0 && find(t, start) is Some && count_char(
        t.subrange(0, find(t, start)->0),
        '"',
    ) % 2 != 1 {
        let after = text_after(t, start);
        let closes = end.len() > 0 && find(after, end) is Some;
        let whole_block = find(t, start)->0 == 0 && (!closes || text_after(after, end).len() == 0);
        (single || whole_block, !closes)
    } else {
        (single, false)
    }
}

/// The number of comment lines among `lines`, scanning with a block comment
/// open (`in_block`) or not at the start.
pub open spec fn comment_lines_from(lines: Seq<Seq<char>>, ext: Seq<char>, in_block: bool) -> nat
    decreases lines.len(),
{
    if lines.len() == 0 {
        0
    } else {
        let step = comment_step(lines[0], ext, in_block);
        (if step.0 {
            1nat
        } else {
            0nat
        }) + comment_lines_from(lines.drop_first(), ext, step.1)
    }
}

/// The number of comment lines in a file whose lines are `lines` and whose
/// (lower-case) extension is `ext`.
pub open spec fn comment_line_count(lines: Seq<Seq<char>>, ext: Seq<char>) -> nat {
    comment_lines_from(lines, ext, false)
}

/// The number of blank lines among `lines`.
pub open spec fn blank_line_count(lines: Seq<Seq<char>>) -> nat
    decreases lines.len(),
{
    if lines.len() == 0 {
        0
    } else {
        blank_line_count(lines.drop_last()) + if is_blank(lines.last()) {
            1nat
        } else {
            0nat
        }
    }
}

/// The number of lines that are not blank.
pub open spec fn non_blank_line_count(lines: Seq<Seq<char>>) -> nat
    decreases lines.len(),
{
    if lines.len() == 0 {
        0
    } else {
        non_blank_line_count(lines.drop_first()) + if is_blank(lines[0]) {
            0nat
        } else {
            1nat
        }
    }
}


/// Only non-blank lines are ever counted as comments.
pub proof fn lemma_comments_within_non_blank(lines: Seq<Seq<char>>, ext: Seq<char>, in_block: bool)
    ensures
        comment_lines_from(lines, ext, in_block) <= non_blank_line_count(lines),
    decreases lines.len(),
{
    if lines.len() > 0 {
        let step = comment_step(lines[0], ext, in_block);
        lemma_comments_within_non_blank(lines.drop_first(), ext, step.1);
    }
}

/// Every line is either blank or not.
pub proof fn lemma_blank_split(lines: Seq<Seq<char>>)
    ensures
        blank_line_count(lines) + non_blank_line_count(lines) == lines.len(),
    decreases lines.len(),
{
    if lines.len() > 0 {
        lemma_blank_split(lines.drop_last());
        lemma_blank_split(lines.drop_first());
        if lines.len() > 1 {
            lemma_blank_split(lines.drop_first().drop_last());
            assert(lines.drop_first().drop_last() =~= lines.drop_last().drop_first());
        }
        lemma_blank_last_first(lines);
    }
}

proof fn lemma_blank_last_first(lines: Seq<Seq<char>>)
    requires
        lines.len() > 0,
    ensures
        blank_line_count(lines) + non_blank_line_count(lines) == blank_line_count(lines.drop_last())
            + non_blank_line_count(lines.drop_last()) + 1,
    decreases lines.len(),
{
    if lines.len() == 1 {
        assert(lines.drop_last() =~= Seq::<Seq<char>>::empty());
        assert(lines.drop_first() =~= Seq::<Seq<char>>::empty());
    } else {
        let t = lines.drop_first();
        lemma_blank_last_first(t);
        assert(t.drop_last() =~= lines.drop_last().drop_first());
        assert(t.last() == lines.last());
        assert(lines.drop_last()[0] == lines[0]);
    }
}

/// Comment lines and blank lines together never outnumber the lines, so the
/// remaining lines can be counted as code.
pub proof fn lemma_comment_and_blank_within_lines(lines: Seq<Seq<char>>, ext: Seq<char>)
    ensures
        comment_line_count(lines, ext) + blank_line_count(lines) <= lines.len(),
{
    lemma_comments_within_non_blank(lines, ext, false);
    lemma_blank_split(lines);
}

/// The number of lines that, without surrounding white space, begin with a
/// single-line marker of the extension.
pub open spec fn single_marker_line_count(lines: Seq<Seq<char>>, ext: Seq<char>) -> nat
    decreases lines.len(),
{
    if lines.len() == 0 {
        0
    } else {
        single_marker_line_count(lines.drop_last(), ext) + if starts_with_any(
            trim(lines.last()),
            single_markers(ext),
        ) {
            1nat
        } else {
            0nat
        }
    }
}

proof fn lemma_no_block_scan(lines: Seq<Seq<char>>, ext: Seq<char>)
    requires
        multi_markers(ext).0.len() == 0,
    ensures
        comment_lines_from(lines, ext, false) == single_marker_line_count(lines, ext),
    decreases lines.len(),
{
    if lines.len() > 0 {
        let t = trim(lines[0]);
        if t.len() == 0 {
            assert(!starts_with_any(t, single_markers(ext))) by {
                assert forall|k: int| 0 <= k < single_markers(ext).len() implies !starts_with(
                    t,
                    #[trigger] single_markers(ext)[k],
                ) by {
                    reveal_strlit("//");
                    reveal_strlit("#");
                    reveal_strlit("--");
                    reveal_strlit(";");
                    reveal_strlit("%");
                    reveal_strlit("(*");
                    reveal_strlit("rem ");
                    reveal_strlit("REM ");
                    assert(single_markers(ext)[k].len() > 0);
                }
            }
        }
        lemma_no_block_scan(lines.drop_first(), ext);
        lemma_single_count_first(lines, ext);
    }
}

proof fn lemma_single_count_first(lines: Seq<Seq<char>>, ext: Seq<char>)
    requires
        lines.len() > 0,
    ensures
        single_marker_line_count(lines, ext) == single_marker_line_count(lines.drop_first(), ext) + if starts_with_any(
            trim(lines[0]),
            single_markers(ext),
        ) {
            1nat
        } else {
            0nat
        },
    decreases lines.len(),
{
    if lines.len() > 1 {
        lemma_single_count_first(lines.drop_last(), ext);
        assert(lines.drop_last().drop_first() =~= lines.drop_first().drop_last());
        assert(lines.drop_last()[0] == lines[0]);
    } else {
        assert(lines.drop_first() =~= Seq::<Seq<char>>::empty());
        assert(lines.drop_last() =~= Seq::<Seq<char>>::empty());
    }
}

/// Counting lines that begin with a single-line marker is additive over
/// joined line lists.
pub proof fn lemma_single_marker_count_additive(a: Seq<Seq<char>>, b: Seq<Seq<char>>, ext: Seq<char>)
    ensures
        single_marker_line_count(a + b, ext) == single_marker_line_count(a, ext) + single_marker_line_count(b, ext),
    decreases b.len(),
{
    if b.len() == 0 {
        assert(a + b =~= a);
    } else {
        assert((a + b).drop_last() =~= a + b.drop_last());
        lemma_single_marker_count_additive(a, b.drop_last(), ext);
    }
}

/// For an extension without block comments, the comment lines are exactly
/// the lines that begin with a single-line marker, so the count is additive
/// over joined files.
pub proof fn lemma_comment_count_without_blocks(a: Seq<Seq<char>>, b: Seq<Seq<char>>, ext: Seq<char>)
    requires
        multi_markers(ext) == (Seq::<char>::empty(), Seq::<char>::empty()),
    ensures
        comment_line_count(a, ext) == single_marker_line_count(a, ext),
        comment_line_count(a + b, ext) == comment_line_count(a, ext) + comment_line_count(b, ext),
{
    lemma_no_block_scan(a, ext);
    lemma_no_block_scan(b, ext);
    lemma_no_block_scan(a + b, ext);
    lemma_single_marker_count_additive(a, b, ext);
}

/// Whether a block comment is open after scanning `lines` from `in_block`.
pub open spec fn block_open_after(lines: Seq<Seq<char>>, ext: Seq<char>, in_block: bool) -> bool
    decreases lines.len(),
{
    if lines.len() == 0 {
        in_block
    } else {
        block_open_after(lines.drop_first(), ext, comment_step(lines[0], ext, in_block).1)
    }
}

proof fn lemma_scan_split(a: Seq<Seq<char>>, b: Seq<Seq<char>>, ext: Seq<char>, in_block: bool)
    ensures
        comment_lines_from(a + b, ext, in_block) == comment_lines_from(a, ext, in_block) + comment_lines_from(
            b,
            ext,
            block_open_after(a, ext, in_block),
        ),
        block_open_after(a + b, ext, in_block) == block_open_after(b, ext, block_open_after(a, ext, in_block)),
    decreases a.len(),
{
    if a.len() == 0 {
        assert(a + b =~= b);
    } else {
        assert((a + b)[0] == a[0]);
        assert((a + b).drop_first() =~= a.drop_first() + b);
        lemma_scan_split(a.drop_first(), b, ext, comment_step(a[0], ext, in_block).1);
    }
}

/// A blank line (nothing but white space) is never a comment line and never
/// opens or closes a block comment: leaving it out of a file, wherever it
/// stands, changes neither the comment count nor whether a block is open
/// after the file.
pub proof fn lemma_blank_line_transparent(
    a: Seq<Seq<char>>,
    blank: Seq<char>,
    b: Seq<Seq<char>>,
    ext: Seq<char>,
    in_block: bool,
)
    requires
        is_blank(blank),
    ensures
        comment_lines_from(a + seq![blank] + b, ext, in_block) == comment_lines_from(a + b, ext, in_block),
        block_open_after(a + seq![blank] + b, ext, in_block) == block_open_after(a + b, ext, in_block),
        comment_line_count(a + seq![blank] + b, ext) == comment_line_count(a + b, ext),
{
    let bb = seq![blank] + b;
    assert(a + seq![blank] + b =~= a + bb);
    lemma_scan_split(a, bb, ext, in_block);
    lemma_scan_split(a, b, ext, in_block);
    assert(bb[0] == blank);
    assert(bb.drop_first() =~= b);
    lemma_scan_split(a, bb, ext, false);
    lemma_scan_split(a, b, ext, false);
}

/// The single-line comment markers for a (lower-case) file extension.
pub fn single_line_comment_markers(ext: &str) -> (r: Vec<&'static str>)
    ensures
        r@.len() == single_markers(ext@).len(),
        forall|i: int| 0 <= i < r@.len() ==> r@[i]@ == #[trigger] single_markers(ext@)[i],
{
    let mut r: Vec<&'static str> = Vec::new();
    if ext_is_slash(ext) {
        r.push("//");
    } else if ext_is_hash(ext) {
        r.push("#");
    } else if ext_is_dash(ext) {
        r.push("--");
    } else if ext_is_semicolon(ext) {
        r.push(";");
    } else if ext_is_percent(ext) {
        r.push("%");
    } else if ext_is_ocaml(ext) {
        r.push("(*");
    } else if ext_is_batch(ext) {
        r.push("rem ");
        r.push("REM ");
    } else {
        r.push("#");
    }
    r
}

/// The block comment start and end markers for a (lower-case) file extension,
/// or `("", "")` when it has none.
pub fn multi_line_comment_markers(ext: &str) -> (r: (&'static str, &'static str))
    ensures
        r.0@ == multi_markers(ext@).0,
        r.1@ == multi_markers(ext@).1,
{
    if ext_is_c_block(ext) {
        ("/*", "*/")
    } else if ext_is_markup(ext) {
        ("<!--", "-->")
    } else if ext_is_ocaml_block(ext) {
        ("(*", "*)")
    } else {
        ("", "")
    }
}

/// The markers as character vectors.
fn markers_as_chars(markers: &Vec<&'static str>) -> (r: Vec<Vec<char>>)
    ensures
        r@.len() == markers@.len(),
        forall|i: int| 0 <= i < r@.len() ==> (#[trigger] r@[i])@ == markers@[i]@,
{
    let mut r: Vec<Vec<char>> = Vec::new();
    let mut i: usize = 0;
    while i < markers.len()
        invariant
            i <= markers@.len(),
            r@.len() == i,
            forall|k: int| 0 <= k < i ==> (#[trigger] r@[k])@ == markers@[k]@,
        decreases markers.len() - i,
    {
        r.push(chars_of(markers[i]));
        i += 1;
    }
    r
}

/// Whether `t` begins with one of `markers`.
fn starts_with_any_chars(t: &Vec<char>, markers: &Vec<Vec<char>>, Ghost(spec_markers): Ghost<Seq<Seq<char>>>) -> (r: bool)
    requires
        markers@.len() == spec_markers.len(),
        forall|i: int| 0 <= i < markers@.len() ==> (#[trigger] markers@[i])@ == spec_markers[i],
    ensures
        r == starts_with_any(t@, spec_markers),
{
    let mut k: usize = 0;
    while k < markers.len()
        invariant
            k <= markers@.len() == spec_markers.len(),
            forall|i: int| 0 <= i < markers@.len() ==> (#[trigger] markers@[i])@ == spec_markers[i],
            forall|i: int| 0 <= i < k ==> !starts_with(t@, #[trigger] spec_markers[i]),
        decreases markers.len() - k,
    {
        if starts_with_chars(t, &markers[k]) {
            return true;
        }
        k += 1;
    }
    false
}

/// Count the lines that consist entirely of comments (see `comment_step`):
/// lines that begin with a single-line marker of the extension, and lines of
/// block comments with no code before the start marker or after the end
/// marker, a block comment being opened by its start marker where it stands
/// outside a string literal (an even number of `"` before it).
pub fn count_comment_lines(lines: &[&str], ext: &str) -> (r: u32)
    requires
        lines@.len() <= u32::MAX,
    ensures
        r == comment_line_count(str_views(lines@), ext@),
{
    let single = single_line_comment_markers(ext);
    let single_chars = markers_as_chars(&single);
    let (start_str, end_str) = multi_line_comment_markers(ext);
    let start = chars_of(start_str);
    let end = chars_of(end_str);
    let ghost all = str_views(lines@);
    let ghost singles = single_markers(ext@);
    let mut count: u32 = 0;
    let mut in_block = false;
    let n = lines.len();
    let mut idx: usize = 0;
    assert(all.skip(0) =~= all);
    while idx < n
        invariant
            n == lines@.len() <= u32::MAX,
            all == str_views(lines@),
            idx <= n,
            count <= idx,
            singles == single_markers(ext@),
            single_chars@.len() == singles.len(),
            forall|i: int| 0 <= i < single_chars@.len() ==> (#[trigger] single_chars@[i])@ == singles[i],
            start@ == multi_markers(ext@).0,
            end@ == multi_markers(ext@).1,
            comment_line_count(all, ext@) == count + comment_lines_from(all.skip(idx as int), ext@, in_block),
        decreases n - idx,
    {
        let line = chars_of(lines[idx]);
        let t = trim_chars(&line);
        let ghost rest = all.skip(idx as int);
        proof {
            assert(rest[0] == line@);
            assert(rest.drop_first() =~= all.skip(idx + 1));
        }
        let ghost step = comment_step(line@, ext@, in_block);
        let mut counted = false;
        let mut next_block = false;
        if t.len() == 0 {
            next_block = in_block;
        } else if in_block {
            counted = true;
            next_block = true;
            if end.len() > 0 {
                if let Some(j) = find_chars(&t, &end) {
                    proof {
                        lemma_find_matches(t@, end@);
                    }
                    counted = j + end.len() == t.len();
                    next_block = false;
                }
            }
        } else {
            let single_hit = starts_with_any_chars(&t, &single_chars, Ghost(singles));
            let mut handled = false;
            if start.len() > 0 {
                if let Some(pos) = find_chars(&t, &start) {
                    proof {
                        lemma_find_matches(t@, start@);
                    }
                    let quotes = count_char_in_prefix(&t, pos, '"');
                    if quotes % 2 != 1 {
                        let after = slice_chars(&t, pos + start.len(), t.len());
                        let mut closes = false;
                        let mut clean_close = true;
                        if end.len() > 0 {
                            if let Some(j) = find_chars(&after, &end) {
                                proof {
                                    lemma_find_matches(after@, end@);
                                }
                                closes = true;
                                clean_close = j + end.len() == after.len();
                            }
                        }
                        counted = single_hit || (pos == 0 && clean_close);
                        next_block = !closes;
                        handled = true;
                    }
                }
            }
            if !handled {
                counted = single_hit;
                next_block = false;
            }
        }
        assert(counted == step.0 && next_block == step.1);
        if counted {
            count += 1;
        }
        in_block = next_block;
        idx += 1;
    }
    proof {
        assert(all.skip(n as int) =~= Seq::<Seq<char>>::empty());
    }
    count
}

/// The number of blank lines among `lines`.
pub fn count_blank_lines(lines: &[&str]) -> (r: u32)
    requires
        lines@.len() <= u32::MAX,
    ensures
        r == blank_line_count(str_views(lines@)),
{
    let ghost all = str_views(lines@);
    let mut blank: u32 = 0;
    let mut i: usize = 0;
    while i < lines.len()
        invariant
            i <= lines@.len() <= u32::MAX,
            all == str_views(lines@),
            blank == blank_line_count(all.take(i as int)),
            blank <= i,
        decreases lines.len() - i,
    {
        proof {
            assert(all.take(i + 1).drop_last() =~= all.take(i as int));
            assert(all.take(i + 1).last() == lines@[i as int]@);
        }
        if str_is_blank(lines[i]) {
            blank += 1;
        }
        i += 1;
    }
    proof {
        assert(all.take(lines@.len() as int) =~= all);
    }
    blank
}

/// Build the snapshot record of a file from its path, its lines and its
/// (lower-case) extension: blank lines, comment lines, and the remaining
/// lines as code lines (the snapshot is of HEAD, so no commit hash).
pub fn snapshot_record(file_path: String, lines: &[&str], ext: &str) -> (r: SnapshotRecord)
    requires
        lines@.len() <= u32::MAX,
    ensures
        r.commit_hash@ == Seq::<char>::empty(),
        r.file_path == file_path,
        r.blank_lines == blank_line_count(str_views(lines@)),
        r.comment_lines == comment_line_count(str_views(lines@), ext@),
        r.code_lines == lines@.len() - r.blank_lines - r.comment_lines,
        r.blank_lines + r.comment_lines + r.code_lines == lines@.len(),
{
    let ghost all = str_views(lines@);
    let total = lines.len() as u32;
    let blank = count_blank_lines(lines);
    proof {
        lemma_comments_within_non_blank(all, ext@, false);
        lemma_blank_split(all);
    }
    let comment = count_comment_lines(lines, ext);
    let code = total.saturating_sub(blank + comment);
    SnapshotRecord {
        commit_hash: String::new(),
        file_path,
        code_lines: code,
        comment_lines: comment,
        blank_lines: blank,
    }
}

/// The path of a tree entry: its name under the walk's `root` joined with `/`.
pub open spec fn entry_path(root: Seq<char>, name: Seq<char>) -> Seq<char> {
    if root.len() == 0 {
        name
    } else {
        root + "/"@ + name
    }
}

/// An entry met while walking the HEAD tree: the path of the tree it is in
/// (`root`, as the walk gives it), its name (`None` where it is not UTF-8),
/// whether it is a blob, and the blob's content (`None` where it could not be
/// read).
#[derive(Debug)]
pub struct RawTreeEntry {
    pub root: String,
    pub name: Option<String>,
    pub is_blob: bool,
    pub content: Option<Vec<u8>>,
}

/// The lines of an entry's content.
pub open spec fn entry_lines(e: RawTreeEntry) -> Seq<Seq<char>> {
    lines_of(vstd::utf8::decode_utf8(e.content->0@))
}

/// The entry gives a snapshot record: it has a name and is a blob whose
/// content was read and is UTF-8.
pub open spec fn has_snapshot(e: RawTreeEntry) -> bool {
    &&& e.name is Some
    &&& e.is_blob
    &&& e.content matches Some(bytes) && vstd::utf8::valid_utf8(bytes@)
}

/// The line counts of the entry's record fit a `u32` (as they do for every
/// file of fewer than 2^32 lines).
pub open spec fn line_count_fits(e: RawTreeEntry) -> bool {
    has_snapshot(e) ==> entry_lines(e).len() <= u32::MAX
}

/// `rec` is the snapshot record of entry `e`: its comment lines are those of
/// the extension of its path (stated for a path every platform reads alike;
/// for any path they are the comment lines of some extension).
pub open spec fn is_entry_snapshot(e: RawTreeEntry, rec: SnapshotRecord) -> bool {
    let path = entry_path(e.root@, e.name->0@);
    let lines = entry_lines(e);
    &&& rec.file_path@ == path
    &&& rec.commit_hash@ == Seq::<char>::empty()
    &&& rec.blank_lines == blank_line_count(lines)
    &&& portable_path(path) ==> rec.comment_lines == comment_line_count(lines, lower_extension(path))
    &&& exists|ext: Seq<char>| rec.comment_lines == #[trigger] comment_line_count(lines, ext)
    &&& rec.blank_lines + rec.comment_lines + rec.code_lines == lines.len()
}

/// The snapshot record of one entry met while walking the HEAD tree, if it
/// has one (see `has_snapshot`): entries without a name, entries that are not
/// blobs (submodules), blobs that could not be read and content that is not
/// UTF-8 (binary files) give `None`.
pub fn snapshot_of_entry(entry: &RawTreeEntry) -> (r: Option<SnapshotRecord>)
    requires
        line_count_fits(*entry),
    ensures
        r is Some <==> has_snapshot(*entry),
        r matches Some(rec) ==> is_entry_snapshot(*entry, rec),
{
    let name = match &entry.name {
        Some(n) => n.as_str(),
        None => return None,
    };
    if !entry.is_blob {
        return None;
    }
    let root = entry.root.as_str();
    let mut file_path = String::from_str(root);
    if root.unicode_len() != 0 {
        file_path.append("/");
        file_path.append(name);
    } else {
        file_path = String::from_str(name);
    }
    proof {
        reveal_strlit("/");
    }
    let bytes = match &entry.content {
        Some(b) => b.as_slice(),
        None => return None,
    };
    let text = match utf8_text(bytes) {
        Some(t) => t,
        None => return None,
    };
    let lines = text_lines(text);
    let ext = lower_extension_of(file_path.as_str());
    let rec = snapshot_record(file_path, lines.as_slice(), ext.as_str());
    assert(rec.comment_lines == comment_line_count(entry_lines(*entry), ext@));
    Some(rec)
}

/// The entries that give a snapshot record.
pub open spec fn snapshot_entries(entries: Seq<RawTreeEntry>) -> Seq<RawTreeEntry>
    decreases entries.len(),
{
    if entries.len() == 0 {
        Seq::empty()
    } else if has_snapshot(entries.last()) {
        snapshot_entries(entries.drop_last()).push(entries.last())
    } else {
        snapshot_entries(entries.drop_last())
    }
}

/// The snapshot records of the entries of a walk of the HEAD tree, in walk
/// order, for the entries that have one.
pub fn scan_snapshot(entries: &Vec<RawTreeEntry>) -> (r: Vec<SnapshotRecord>)
    requires
        forall|i: int| 0 <= i < entries@.len() ==> line_count_fits(#[trigger] entries@[i]),
    ensures
        r@.len() == snapshot_entries(entries@).len(),
        forall|i: int| 0 <= i < r@.len() ==> is_entry_snapshot(snapshot_entries(entries@)[i], #[trigger] r@[i]),
{
    let mut out: Vec<SnapshotRecord> = Vec::new();
    let mut i: usize = 0;
    while i < entries.len()
        invariant
            i <= entries@.len(),
            forall|t: int| 0 <= t < entries@.len() ==> line_count_fits(#[trigger] entries@[t]),
            out@.len() == snapshot_entries(entries@.take(i as int)).len(),
            forall|k: int|
                0 <= k < out@.len() ==> is_entry_snapshot(
                    snapshot_entries(entries@.take(i as int))[k],
                    #[trigger] out@[k],
                ),
        decreases entries.len() - i,
    {
        proof {
            assert(entries@.take(i + 1).drop_last() =~= entries@.take(i as int));
            assert(entries@.take(i + 1).last() == entries@[i as int]);
        }
        match snapshot_of_entry(&entries[i]) {
            Some(rec) => out.push(rec),
            None => {},
        }
        i += 1;
    }
    proof {
        assert(entries@.take(entries@.len() as int) =~= entries@);
    }
    out
}

} // verus!
