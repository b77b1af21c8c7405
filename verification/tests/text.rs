use herdr_agent_diff::diff::{
    parse_hunk_cursors, parse_unified_diff, render_change, DiffLine, DiffLineKind,
};
use herdr_agent_diff::diffview::{diff_stats, render_diff_line, render_diff_rows};
use herdr_agent_diff::model::{
    Change, ChangeKind, CurrentFile, FileRecord, TextEligibility, INLINE_TEXT_LIMIT,
};
use herdr_agent_diff::path::{file_name, is_absolute, join, parent, same_path, split_path};
use herdr_agent_diff::sort::sorted_indices;
use herdr_agent_diff::source::{
    highlight_file, preview_source, source_text_range, source_text_width, ColoredSpan,
    HighlightStep,
};
use herdr_agent_diff::style::{
    brighten_code_component, shows_true_color, terminal_color, Color, TextLine,
};
use herdr_agent_diff::text::decimal_text;
use herdr_agent_diff::width::{cells_of, truncate_label};
use herdr_agent_diff::error::Error;

fn change(kind: ChangeKind, blob: bool, current: bool) -> Change {
    Change {
        kind,
        path: b"src/a.txt".to_vec(),
        old_path: None,
        baseline: Some(FileRecord {
            blob: if blob { Some("0".repeat(64)) } else { None },
        }),
        current: if current {
            Some(file(TextEligibility::Text))
        } else {
            None
        },
    }
}

fn file(text: TextEligibility) -> CurrentFile {
    CurrentFile {
        relative: b"src/a.txt".to_vec(),
        absolute: b"/p/src/a.txt".to_vec(),
        size: 9,
        modified_unix_ns: None,
        text,
    }
}

fn shown(lines: &[DiffLine]) -> Vec<(DiffLineKind, &str, Option<usize>, Option<usize>)> {
    lines
        .iter()
        .map(|line| (line.kind, line.text.as_str(), line.old_line, line.new_line))
        .collect()
}

fn line_text(line: &TextLine) -> String {
    line.spans.iter().map(|span| span.text.as_str()).collect()
}

#[test]
fn a_change_is_shown_as_a_unified_diff() {
    let lines = render_change(
        &change(ChangeKind::Modified, true, true),
        Some(b"one\ntwo\nthree\n".to_vec()),
        Some(b"one\n2\nthree\n".to_vec()),
    );
    assert_eq!(
        shown(&lines),
        [
            (DiffLineKind::Header, "--- a/src/a.txt", None, None),
            (DiffLineKind::Header, "+++ b/src/a.txt", None, None),
            (DiffLineKind::Hunk, "@@ -1,3 +1,3 @@", None, None),
            (DiffLineKind::Context, " one", Some(1), Some(1)),
            (DiffLineKind::Deletion, "-two", Some(2), None),
            (DiffLineKind::Addition, "+2", None, Some(2)),
            (DiffLineKind::Context, " three", Some(3), Some(3)),
        ]
    );
    assert_eq!(diff_stats(&lines), (1, 1));
}

#[test]
fn files_that_come_and_go_are_compared_with_nothing() {
    let added = render_change(
        &change(ChangeKind::Added, false, true),
        None,
        Some(b"new\n".to_vec()),
    );
    assert_eq!(diff_stats(&added), (1, 0));
    let deleted = render_change(
        &change(ChangeKind::Deleted, true, false),
        Some(b"old\n".to_vec()),
        None,
    );
    assert_eq!(diff_stats(&deleted), (0, 1));
}

#[test]
fn a_change_without_texts_is_shown_by_its_names() {
    let notice = "metadata-only change (binary, oversized, invalid UTF-8, unreadable, or baseline text not retained)";
    let modified = change(ChangeKind::Modified, true, true);
    for (blob, content) in [
        (None, Some(b"new\n".to_vec())),
        (Some(b"old\n".to_vec()), None),
        (Some(vec![0xff]), Some(b"new\n".to_vec())),
        (
            Some(b"old\n".to_vec()),
            Some(vec![b'a'; INLINE_TEXT_LIMIT as usize + 1]),
        ),
    ] {
        let lines = render_change(&modified, blob, content);
        assert_eq!(
            shown(&lines),
            [
                (DiffLineKind::Header, "--- a/src/a.txt", None, None),
                (DiffLineKind::Header, "+++ b/src/a.txt", None, None),
                (DiffLineKind::Notice, notice, None, None),
            ]
        );
    }
    let mut renamed = change(ChangeKind::Renamed, true, true);
    renamed.old_path = Some(b"old.txt".to_vec());
    let lines = render_change(&renamed, None, None);
    assert_eq!(lines[0].text, "--- a/old.txt");
    assert_eq!(
        lines[2].text,
        "renamed old.txt → src/a.txt (exact content)"
    );
}

#[test]
fn a_unified_diff_is_read_line_by_line() {
    let lines = parse_unified_diff(
        "diff --git a/x b/x\nBinary files differ\n@@ -8,2 +10 @@ fn\n-a\n b\n+c\n\\ No newline\n@@ broken @@\n+d\n",
    );
    assert_eq!(
        shown(&lines),
        [
            (DiffLineKind::Header, "diff --git a/x b/x", None, None),
            (DiffLineKind::Notice, "Binary files differ", None, None),
            (DiffLineKind::Hunk, "@@ -8,2 +10 @@ fn", None, None),
            (DiffLineKind::Deletion, "-a", Some(8), None),
            (DiffLineKind::Context, " b", Some(9), Some(10)),
            (DiffLineKind::Addition, "+c", None, Some(11)),
            (DiffLineKind::Notice, "\\ No newline", None, None),
            (DiffLineKind::Hunk, "@@ broken @@", None, None),
            (DiffLineKind::Notice, "+d", None, None),
        ]
    );
    let cursors = |line: &str| parse_hunk_cursors(&line.chars().collect::<Vec<_>>());
    assert_eq!(cursors("@@ -3 +4,5 @@"), Some((3, 4)));
    assert_eq!(cursors("@@ -3 @@"), None);
    assert_eq!(cursors("-3 +4"), None);
}

#[test]
fn rows_of_a_diff_fill_their_width() {
    let addition = DiffLine {
        kind: DiffLineKind::Addition,
        text: "+new".to_owned(),
        old_line: None,
        new_line: Some(7),
    };
    let row = render_diff_line(&addition, 2, 20);
    assert_eq!(line_text(&row), "    7 + new         ");
    let hunk = DiffLine {
        kind: DiffLineKind::Hunk,
        text: "@@ -1 +1 @@".to_owned(),
        old_line: None,
        new_line: None,
    };
    assert_eq!(
        line_text(&render_diff_line(&hunk, 2, 30)),
        "··· unchanged lines ···       "
    );
    let rows = render_diff_rows(Some(&vec![addition, hunk]), 2, 20);
    assert_eq!(rows.len(), 2);
    let waiting = render_diff_rows(None, 1, 20);
    assert!(line_text(&waiting[0]).starts_with("Generating diff…"));
}

#[test]
fn wide_characters_take_two_cells() {
    assert_eq!(cells_of('a'), 1);
    assert_eq!(cells_of('界'), 2);
    assert_eq!(cells_of('\u{301}'), 0);
    assert_eq!(cells_of('\n'), 0);
    assert_eq!(truncate_label("main.rs", 7), "main.rs");
    assert_eq!(truncate_label("main.rs", 5), "main…");
    assert_eq!(truncate_label("世界.rs", 4), "世…");
    assert_eq!(truncate_label("main.rs", 0), "…");
    let wide = DiffLine {
        kind: DiffLineKind::Context,
        text: " 世界".to_owned(),
        old_line: Some(1),
        new_line: Some(1),
    };
    assert_eq!(line_text(&render_diff_line(&wide, 1, 12)), "1 1   世界  ");
}

#[test]
fn bytes_are_shown_as_text() {
    let mut renamed = change(ChangeKind::Renamed, true, true);
    renamed.path = b"a\xffb".to_vec();
    renamed.old_path = Some("grüße".as_bytes().to_vec());
    let lines = render_change(&renamed, None, None);
    assert_eq!(lines[0].text, "--- a/grüße");
    assert_eq!(lines[1].text, "+++ b/a\u{fffd}b");
    assert_eq!(decimal_text(0), "0");
    assert_eq!(decimal_text(u64::MAX), u64::MAX.to_string());
}

#[test]
fn paths_are_taken_apart_by_their_components() {
    assert!(is_absolute(b"/a"));
    assert!(!is_absolute(b"a"));
    assert!(same_path(b"/a/./b/", b"/a/b"));
    assert!(!same_path(b"./a", b"a"));
    assert_eq!(join(b"/a", b"b"), b"/a/b");
    assert_eq!(join(b"/a/", b"b"), b"/a/b");
    assert_eq!(join(b"/a", b"/b"), b"/b");
    assert_eq!(parent(b"/a/b"), Some(b"/a".to_vec()));
    assert_eq!(parent(b"a"), Some(Vec::new()));
    assert_eq!(parent(b"/"), None);
    assert_eq!(file_name(b"/a/b.txt"), Some(b"b.txt".to_vec()));
    assert_eq!(file_name(b"/a/.."), None);
}

#[test]
fn paths_are_sorted_as_paths() {
    let paths: [&[u8]; 4] = [b"b", b"a/z", b"a.txt", b"a/b"];
    let keys = paths.iter().map(|path| split_path(path)).collect();
    assert_eq!(sorted_indices(&keys), [3, 1, 2, 0]);
}

#[test]
fn code_is_brightened_and_fitted_to_the_terminal() {
    assert_eq!(brighten_code_component(0), 0);
    assert_eq!(brighten_code_component(204), 255);
    assert_eq!(terminal_color(100, 0, 255, true), Color::Rgb(125, 0, 255));
    assert_eq!(terminal_color(255, 255, 255, false), Color::Indexed(231));
    assert_eq!(terminal_color(0, 0, 0, false), Color::Indexed(16));
    assert_eq!(terminal_color(100, 0, 255, false), Color::Indexed(93));
    assert!(shows_true_color(Some("truecolor")));
    assert!(shows_true_color(Some("24bit")));
    assert!(!shows_true_color(Some("256color")));
    assert!(!shows_true_color(None));
    assert_eq!(Color::Hunk.rgb(), Some((149, 180, 224)));
    assert_eq!(Color::Cyan.rgb(), None);
}

#[test]
fn a_source_is_previewed_before_it_is_highlighted() {
    let lines = preview_source("fn main() {\r\n}\n");
    let texts: Vec<String> = lines
        .iter()
        .map(|line| line.iter().map(|span| span.text.as_str()).collect())
        .collect();
    assert_eq!(texts, ["fn main() {", "}"]);
    assert!(lines
        .iter()
        .flatten()
        .all(|span| span.foreground == Color::White));
}

#[test]
fn parts_of_a_line_are_picked_by_their_cells() {
    let spans = vec![
        ColoredSpan {
            text: "世a".to_owned(),
            foreground: Color::White,
        },
        ColoredSpan {
            text: "bc".to_owned(),
            foreground: Color::Cyan,
        },
    ];
    assert_eq!(source_text_width(&spans), 5);
    assert_eq!(source_text_range(&spans, 2, 4), "ab");
    assert_eq!(source_text_range(&spans, 0, 5), "世abc");
    assert_eq!(source_text_range(&spans, 5, 9), "");
}

#[test]
fn a_file_that_is_no_text_is_described() {
    let notice = |text: TextEligibility| match highlight_file(&file(text), &None, &None, true) {
        HighlightStep::Finished(lines, Some(notice)) => {
            assert!(lines.is_empty());
            notice
        }
        step => panic!("{step:?}"),
    };
    assert_eq!(
        notice(TextEligibility::Binary),
        "src/a.txt\n\nMetadata-only file: Binary, 9 bytes"
    );
    assert_eq!(
        notice(TextEligibility::InvalidUtf8),
        "src/a.txt\n\nMetadata-only file: InvalidUtf8, 9 bytes"
    );
    let read = |bytes: Result<Vec<u8>, Error>| match highlight_file(
        &file(TextEligibility::Text),
        &Some(bytes),
        &None,
        true,
    ) {
        HighlightStep::Finished(_, notice) => notice,
        step => panic!("{step:?}"),
    };
    assert_eq!(
        read(Ok(vec![0xff])).as_deref(),
        Some("file is not valid UTF-8")
    );
    assert_eq!(
        read(Err(Error::Io("gone".to_owned()))).as_deref(),
        Some("gone")
    );
}

#[test]
fn a_syntax_that_is_not_known_is_plain_text() {
    let shown = |syntax: &str| match highlight_file(
        &file(TextEligibility::Text),
        &Some(Ok(b"fn main() {}\nlet\n".to_vec())),
        &Some(syntax.to_owned()),
        true,
    ) {
        HighlightStep::Finished(lines, None) => lines,
        step => panic!("{step:?}"),
    };
    let plain = shown("no such syntax");
    assert_eq!(plain.len(), 2);
    assert!(plain
        .iter()
        .flatten()
        .all(|span| span.foreground == Color::White));
    assert!(shown("Rust")
        .iter()
        .flatten()
        .any(|span| span.foreground != Color::White));
}
