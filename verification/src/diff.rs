//! Unified diffs read into numbered lines, and the diff of a recorded change.
use vstd::prelude::*;
use vstd::utf8::{decode_utf8, valid_utf8};

use crate::model::{
    Change, ChangeKind, ChangeView, FileView, RecordView, TextEligibility, INLINE_TEXT_LIMIT,
};
use crate::seqs::{group_views, option_view, split, views};
use crate::text::{
    copy_chars, decimal, from_chars, is_digit, is_line, join3, law_lines_are_cut_apart,
    law_lines_are_read_back, law_numbers_are_read_back, lemma_decimal, lemma_words_after_space,
    lemma_words_first, lemma_words_in, line_ended, lines, lossy, lossy_text, parse_number, parsed_number,
    split_chars, split_words, starts_with, text_lines, utf8_text, words,
};

verus! {

#[derive(Clone, Copy, Debug, PartialEq, Eq, Structural)]
pub enum DiffLineKind {
    Header,
    Hunk,
    Addition,
    Deletion,
    Context,
    Notice,
}

/// One line of a diff, with its line numbers in the old and the new text.
#[derive(Debug, PartialEq, Eq)]
pub struct DiffLine {
    pub kind: DiffLineKind,
    pub text: String,
    pub old_line: Option<usize>,
    pub new_line: Option<usize>,
}

pub ghost struct DiffLineView {
    pub kind: DiffLineKind,
    pub text: Seq<char>,
    pub old_line: Option<usize>,
    pub new_line: Option<usize>,
}

impl View for DiffLine {
    type V = DiffLineView;

    open spec fn view(&self) -> DiffLineView {
        DiffLineView {
            kind: self.kind,
            text: self.text@,
            old_line: self.old_line,
            new_line: self.new_line,
        }
    }
}

impl Clone for DiffLine {
    fn clone(&self) -> (copy: Self)
        ensures
            copy@ == self@,
    {
        DiffLine {
            kind: self.kind,
            text: self.text.clone(),
            old_line: self.old_line,
            new_line: self.new_line,
        }
    }
}

/// A line without numbers.
pub open spec fn plain_line(kind: DiffLineKind, text: Seq<char>) -> DiffLineView {
    DiffLineView { kind, text, old_line: None, new_line: None }
}

impl DiffLine {
    pub fn new(kind: DiffLineKind, text: String) -> (line: Self)
        ensures
            line@ == plain_line(kind, text@),
    {
        DiffLine { kind, text, old_line: None, new_line: None }
    }

    pub fn numbered(
        kind: DiffLineKind,
        text: String,
        old_line: Option<usize>,
        new_line: Option<usize>,
    ) -> (line: Self)
        ensures
            line@ == (DiffLineView { kind, text: text@, old_line, new_line }),
    {
        DiffLine { kind, text, old_line, new_line }
    }
}

/// What stands before the first `@@`, or everything.
pub open spec fn before_marker(text: Seq<char>) -> Seq<char>
    decreases text.len(),
{
    if text.len() == 0 || (text.len() >= 2 && text[0] == '@' && text[1] == '@') {
        Seq::empty()
    } else {
        seq![text[0]] + before_marker(text.skip(1))
    }
}

/// Reads the ranges of a hunk header one by one. A minus sign sets the old
/// start, a plus sign the new one; a range without a number spoils the header.
pub open spec fn read_ranges(
    ranges: Seq<Seq<char>>,
    old_start: Option<usize>,
    new_start: Option<usize>,
) -> Option<(Option<usize>, Option<usize>)>
    decreases ranges.len(),
{
    if ranges.len() == 0 {
        Some((old_start, new_start))
    } else {
        let range = ranges[0];
        match parsed_number(split(range.skip(1), ',')[0]) {
            None => None,
            Some(start) => if range[0] == '-' {
                read_ranges(ranges.skip(1), Some(start), new_start)
            } else if range[0] == '+' {
                read_ranges(ranges.skip(1), old_start, Some(start))
            } else {
                read_ranges(ranges.skip(1), old_start, new_start)
            },
        }
    }
}

/// The first old and new line number of the hunk whose header the line is.
pub open spec fn hunk_cursors(line: Seq<char>) -> Option<(usize, usize)> {
    if !"@@"@.is_prefix_of(line) {
        None
    } else {
        match read_ranges(words(before_marker(line.skip(2))), None, None) {
            Some((Some(old_start), Some(new_start))) => Some((old_start, new_start)),
            _ => None,
        }
    }
}

/// The next number; the largest one stays.
pub open spec fn next(number: usize) -> usize {
    if number == usize::MAX {
        number
    } else {
        (number + 1) as usize
    }
}

/// How far a diff has been read: whether a hunk has begun, and the numbers of
/// the next old and new line where the hunk's header gave them.
pub ghost struct Progress {
    pub saw_hunk: bool,
    pub cursors: Option<(usize, usize)>,
}

pub open spec fn read_line(progress: Progress, line: Seq<char>) -> (DiffLineView, Progress) {
    if "@@"@.is_prefix_of(line) {
        (
            plain_line(DiffLineKind::Hunk, line),
            Progress { saw_hunk: true, cursors: hunk_cursors(line) },
        )
    } else if !progress.saw_hunk {
        if "Binary files"@.is_prefix_of(line) {
            (plain_line(DiffLineKind::Notice, line), progress)
        } else {
            (plain_line(DiffLineKind::Header, line), progress)
        }
    } else {
        match progress.cursors {
            None => (plain_line(DiffLineKind::Notice, line), progress),
            Some((old, new)) => if line.len() > 0 && line[0] == '+' {
                (
                    DiffLineView {
                        kind: DiffLineKind::Addition,
                        text: line,
                        old_line: None,
                        new_line: Some(new),
                    },
                    Progress { saw_hunk: true, cursors: Some((old, next(new))) },
                )
            } else if line.len() > 0 && line[0] == '-' {
                (
                    DiffLineView {
                        kind: DiffLineKind::Deletion,
                        text: line,
                        old_line: Some(old),
                        new_line: None,
                    },
                    Progress { saw_hunk: true, cursors: Some((next(old), new)) },
                )
            } else if line.len() > 0 && line[0] == ' ' {
                (
                    DiffLineView {
                        kind: DiffLineKind::Context,
                        text: line,
                        old_line: Some(old),
                        new_line: Some(new),
                    },
                    Progress { saw_hunk: true, cursors: Some((next(old), next(new))) },
                )
            } else {
                (plain_line(DiffLineKind::Notice, line), progress)
            },
        }
    }
}

pub open spec fn read_lines(progress: Progress, text: Seq<Seq<char>>) -> Seq<DiffLineView>
    decreases text.len(),
{
    if text.len() == 0 {
        Seq::empty()
    } else {
        let (line, after) = read_line(progress, text[0]);
        seq![line] + read_lines(after, text.skip(1))
    }
}

pub open spec fn at_start() -> Progress {
    Progress { saw_hunk: false, cursors: None }
}

/// The lines of a unified diff.
pub open spec fn unified_lines(unified: Seq<char>) -> Seq<DiffLineView> {
    read_lines(at_start(), text_lines(unified))
}

fn text_before_marker(chars: &[char], from: usize) -> (end: usize)
    requires
        from <= chars@.len(),
    ensures
        from <= end <= chars@.len(),
        chars@.subrange(from as int, end as int) == before_marker(chars@.skip(from as int)),
{
    let mut end: usize = from;
    let ghost rest = chars@.skip(from as int);
    proof {
        assert(rest.take(0) + before_marker(rest.skip(0)) =~= before_marker(rest)) by {
            assert(rest.skip(0) =~= rest);
        }
    }
    while end < chars.len() && !(chars.len() - end >= 2 && chars[end] == '@' && chars[end + 1]
        == '@')
        invariant
            from <= end <= chars@.len(),
            rest == chars@.skip(from as int),
            rest.take(end - from) + before_marker(rest.skip(end - from)) == before_marker(rest),
        decreases chars@.len() - end,
    {
        proof {
            let here = rest.skip(end - from);
            assert(here[0] == chars@[end as int]);
            assert(here.skip(1) =~= rest.skip(end + 1 - from));
            if here.len() >= 2 {
                assert(here[1] == chars@[end + 1]);
            }
            assert(rest.take(end + 1 - from) + before_marker(here.skip(1)) =~= rest.take(
                end - from,
            ) + (seq![here[0]] + before_marker(here.skip(1))));
        }
        end += 1;
    }
    proof {
        let here = rest.skip(end - from);
        if here.len() >= 2 {
            assert(here[0] == chars@[end as int]);
            assert(here[1] == chars@[end + 1]);
        }
        assert(before_marker(here) =~= Seq::empty());
        assert(rest.take(end - from) + Seq::<char>::empty() =~= rest.take(end - from));
        assert(chars@.subrange(from as int, end as int) =~= rest.take(end - from));
    }
    end
}

/// No word is empty.
proof fn lemma_words_nonempty(text: Seq<char>)
    ensures
        forall|i: int| 0 <= i < words(text).len() ==> (#[trigger] words(text)[i]).len() > 0,
    decreases text.len(),
{
    if text.len() > 0 {
        if crate::text::is_space(text[0]) {
            lemma_words_nonempty(text.skip(1));
            let rest = words(text.skip(1));
            assert forall|i: int| 0 <= i < words(text).len() implies (#[trigger] words(
                text,
            )[i]).len() > 0 by {
                assert(words(text)[i] == rest[i]);
            }
        } else {
            crate::text::lemma_word_length(text);
            let k = crate::text::word_length(text);
            lemma_words_nonempty(text.skip(k));
            let rest = words(text.skip(k));
            assert forall|i: int| 0 <= i < words(text).len() implies (#[trigger] words(
                text,
            )[i]).len() > 0 by {
                if i > 0 {
                    assert(words(text)[i] == rest[i - 1]);
                }
            }
        }
    }
}

/// The first old and new line number of the hunk whose header the line is.
pub fn parse_hunk_cursors(line: &[char]) -> (cursors: Option<(usize, usize)>)
    ensures
        cursors == hunk_cursors(line@),
{
    if !starts_with(line, "@@") {
        return None;
    }
    proof {
        reveal_strlit("@@");
    }
    let end = text_before_marker(line, 2);
    let header = copy_chars(line, 2, end);
    let ranges = split_words(&header);
    let ghost all = views(ranges@);
    proof {
        lemma_words_nonempty(header@);
        assert(all.skip(0) =~= all);
    }
    let mut old_start: Option<usize> = None;
    let mut new_start: Option<usize> = None;
    let mut i: usize = 0;
    while i < ranges.len()
        invariant
            i <= ranges@.len(),
            all == views(ranges@),
            all == words(before_marker(line@.skip(2))),
            "@@"@.is_prefix_of(line@),
            forall|j: int| 0 <= j < all.len() ==> (#[trigger] all[j]).len() > 0,
            read_ranges(all.skip(i as int), old_start, new_start) == read_ranges(all, None, None),
        decreases ranges@.len() - i,
    {
        let range = &ranges[i];
        proof {
            assert(all[i as int] == range@);
            assert(all.skip(i as int)[0] == range@);
            assert(all.skip(i as int).skip(1) =~= all.skip(i + 1));
        }
        let value = copy_chars(range, 1, range.len());
        let parts = split_chars(&value, ',');
        proof {
            assert(value@ =~= range@.skip(1));
            crate::seqs::lemma_split_nonempty(value@, ',');
            assert(views(parts@)[0] == parts@[0]@);
        }
        match parse_number(&parts[0]) {
            None => {
                return None;
            },
            Some(start) => {
                if range[0] == '-' {
                    old_start = Some(start);
                } else if range[0] == '+' {
                    new_start = Some(start);
                }
            },
        }
        i += 1;
    }
    match (old_start, new_start) {
        (Some(old), Some(new)) => Some((old, new)),
        _ => None,
    }
}

/// Reads a unified diff line by line, numbering the lines of its hunks.
pub fn parse_unified_diff(unified: &str) -> (result: Vec<DiffLine>)
    ensures
        views(result@) == unified_lines(unified@),
{
    broadcast use group_views;

    let source = lines(unified);
    let ghost all = views(source@);
    let mut result: Vec<DiffLine> = Vec::new();
    let mut cursors: Option<(usize, usize)> = None;
    let mut saw_hunk = false;
    proof {
        assert(all.skip(0) =~= all);
        assert(views(result@) + read_lines(at_start(), all) =~= read_lines(at_start(), all));
    }
    let mut i: usize = 0;
    while i < source.len()
        invariant
            i <= source@.len(),
            all == views(source@),
            views(result@) + read_lines(Progress { saw_hunk, cursors }, all.skip(i as int))
                == read_lines(at_start(), all),
        decreases source@.len() - i,
    {
        let line = &source[i];
        let ghost before = views(result@);
        let ghost progress = Progress { saw_hunk, cursors };
        let text = from_chars(line, 0, line.len());
        proof {
            assert(text@ =~= line@);
            assert(all.skip(i as int)[0] == line@);
            assert(all.skip(i as int).skip(1) =~= all.skip(i + 1));
        }
        if starts_with(line, "@@") {
            saw_hunk = true;
            cursors = parse_hunk_cursors(line);
            result.push(DiffLine::new(DiffLineKind::Hunk, text));
        } else if !saw_hunk {
            let kind = if starts_with(line, "Binary files") {
                DiffLineKind::Notice
            } else {
                DiffLineKind::Header
            };
            result.push(DiffLine::new(kind, text));
        } else {
            match cursors {
                None => {
                    result.push(DiffLine::new(DiffLineKind::Notice, text));
                },
                Some((old, new)) => {
                    if line.len() > 0 && line[0] == '+' {
                        result.push(
                            DiffLine::numbered(DiffLineKind::Addition, text, None, Some(new)),
                        );
                        cursors = Some((old, new.saturating_add(1)));
                    } else if line.len() > 0 && line[0] == '-' {
                        result.push(
                            DiffLine::numbered(DiffLineKind::Deletion, text, Some(old), None),
                        );
                        cursors = Some((old.saturating_add(1), new));
                    } else if line.len() > 0 && line[0] == ' ' {
                        result.push(
                            DiffLine::numbered(DiffLineKind::Context, text, Some(old), Some(new)),
                        );
                        cursors = Some((old.saturating_add(1), new.saturating_add(1)));
                    } else {
                        result.push(DiffLine::numbered(DiffLineKind::Notice, text, None, None));
                    }
                },
            }
        }
        proof {
            let (seen, after) = read_line(progress, line@);
            assert(views(result@) == before.push(seen));
            assert(after == Progress { saw_hunk, cursors });
            assert(views(result@) + read_lines(after, all.skip(i + 1)) =~= before + (seq![seen]
                + read_lines(after, all.skip(i + 1))));
        }
        i += 1;
    }
    proof {
        assert(views(result@) + read_lines(
            Progress { saw_hunk, cursors },
            all.skip(i as int),
        ) =~= views(result@));
    }
    result
}

/// What `similar` prints as the unified diff of two texts, line by line, with
/// `radius` lines of context and the two file names in its header.
pub uninterp spec fn unified_diff(
    old: Seq<char>,
    new: Seq<char>,
    radius: usize,
    old_name: Seq<char>,
    new_name: Seq<char>,
) -> Seq<char>;

/// `similar::TextDiff::from_lines` printed through `unified_diff`, with its
/// `context_radius` and `header`. No deadline is set, so the text is a function
/// of the arguments. Lines are counted in 32 bits, and twice the radius has to
/// fit.
#[verifier::external_body]
fn unified_text(old: &str, new: &str, radius: usize, old_name: &str, new_name: &str) -> (text:
    String)
    requires
        old@.len() + new@.len() <= u32::MAX,
        radius <= usize::MAX / 2,
    ensures
        text@ == unified_diff(old@, new@, radius, old_name@, new_name@),
{
    similar::TextDiff::from_lines(old, new)
        .unified_diff()
        .context_radius(radius)
        .header(old_name, new_name)
        .to_string()
}

/// The text that bytes hold: within the limit for inline text, and valid UTF-8.
pub open spec fn inline_text(bytes: Option<Seq<u8>>) -> Option<Seq<char>> {
    match bytes {
        Some(content) => if content.len() <= INLINE_TEXT_LIMIT && valid_utf8(content) {
            Some(decode_utf8(content))
        } else {
            None
        },
        None => None,
    }
}

/// The recorded text of a change, where a blob holds it.
pub open spec fn old_text(change: ChangeView, blob: Option<Seq<u8>>) -> Option<Seq<char>> {
    match change.baseline {
        Some(record) => if record.blob is Some {
            inline_text(blob)
        } else {
            None
        },
        None => None,
    }
}

/// The present text of a change, where the file counts as text.
pub open spec fn new_text(change: ChangeView, content: Option<Seq<u8>>) -> Option<Seq<char>> {
    match change.current {
        Some(file) => if file.text == TextEligibility::Text {
            inline_text(content)
        } else {
            None
        },
        None => None,
    }
}

/// The two texts to compare: an addition has nothing before it, a deletion
/// nothing after it, and a modification needs both.
pub open spec fn compared_texts(
    kind: ChangeKind,
    old: Option<Seq<char>>,
    new: Option<Seq<char>>,
) -> Option<(Seq<char>, Seq<char>)> {
    match kind {
        ChangeKind::Added => match new {
            Some(text) => Some((""@, text)),
            None => None,
        },
        ChangeKind::Deleted => match old {
            Some(text) => Some((text, ""@)),
            None => None,
        },
        ChangeKind::Modified => match (old, new) {
            (Some(before), Some(after)) => Some((before, after)),
            _ => None,
        },
        ChangeKind::Renamed => None,
    }
}

pub open spec fn path_before_change(change: ChangeView) -> Seq<u8> {
    match change.old_path {
        Some(path) => path,
        None => change.path,
    }
}

pub open spec fn file_headers(change: ChangeView) -> Seq<DiffLineView> {
    seq![
        plain_line(DiffLineKind::Header, "--- a/"@ + lossy(path_before_change(change))),
        plain_line(DiffLineKind::Header, "+++ b/"@ + lossy(change.path)),
    ]
}

/// The lines shown for a change. A rename has its content unchanged; a change
/// whose texts are not at hand is shown by its names alone.
pub open spec fn change_lines(
    change: ChangeView,
    blob: Option<Seq<u8>>,
    content: Option<Seq<u8>>,
) -> Seq<DiffLineView> {
    let before = lossy(path_before_change(change));
    let after = lossy(change.path);
    if change.kind == ChangeKind::Renamed {
        file_headers(change).push(
            plain_line(
                DiffLineKind::Hunk,
                "renamed "@ + before + " → "@ + after + " (exact content)"@,
            ),
        )
    } else {
        match compared_texts(change.kind, old_text(change, blob), new_text(change, content)) {
            None => file_headers(change).push(plain_line(DiffLineKind::Notice, METADATA_ONLY@)),
            Some((old, new)) => unified_lines(
                unified_diff(old, new, CONTEXT_RADIUS, "a/"@ + before, "b/"@ + after),
            ),
        }
    }
}

/// Unchanged lines shown around a change.
pub const CONTEXT_RADIUS: usize = 3;

/// What is said of a change without texts to compare.
pub const METADATA_ONLY: &'static str =
    "metadata-only change (binary, oversized, invalid UTF-8, unreadable, or baseline text not retained)";

/// The text that bytes hold, where they can be shown.
fn text_within_limit(bytes: &Option<Vec<u8>>) -> (text: Option<String>)
    ensures
        option_view(text) == inline_text(option_view(*bytes)),
        text matches Some(shown) ==> shown@.len() <= INLINE_TEXT_LIMIT,
{
    match bytes {
        Some(content) => {
            if content.len() as u64 <= INLINE_TEXT_LIMIT {
                let text = utf8_text(content);
                proof {
                    if valid_utf8(content@) {
                        crate::text::lemma_decoded_length(content@);
                    }
                }
                text
            } else {
                None
            }
        },
        None => None,
    }
}

fn header_lines(before: &str, after: &str) -> (result: Vec<DiffLine>)
    ensures
        views(result@) == seq![
            plain_line(DiffLineKind::Header, "--- a/"@ + before@),
            plain_line(DiffLineKind::Header, "+++ b/"@ + after@),
        ],
{
    broadcast use group_views;

    let mut result: Vec<DiffLine> = Vec::new();
    let mut old_header = "--- a/".to_owned();
    old_header.append(before);
    let mut new_header = "+++ b/".to_owned();
    new_header.append(after);
    result.push(DiffLine::new(DiffLineKind::Header, old_header));
    result.push(DiffLine::new(DiffLineKind::Header, new_header));
    proof {
        assert(views(result@) =~= seq![
            plain_line(DiffLineKind::Header, "--- a/"@ + before@),
            plain_line(DiffLineKind::Header, "+++ b/"@ + after@),
        ]);
    }
    result
}

/// The lines shown for a change, from the bytes of its blob and of its file as
/// far as they could be read.
pub fn render_change(change: &Change, blob: Option<Vec<u8>>, content: Option<Vec<u8>>) -> (result:
    Vec<DiffLine>)
    ensures
        views(result@) == change_lines(change@, option_view(blob), option_view(content)),
{
    broadcast use group_views;

    let before = match &change.old_path {
        Some(path) => lossy_text(path),
        None => lossy_text(&change.path),
    };
    let after = lossy_text(&change.path);
    if change.kind == ChangeKind::Renamed {
        let mut result = header_lines(before.as_str(), after.as_str());
        let mut text = join3("renamed ", before.as_str(), " → ");
        text.append(after.as_str());
        text.append(" (exact content)");
        result.push(DiffLine::new(DiffLineKind::Hunk, text));
        return result;
    }
    let old = match &change.baseline {
        Some(record) => if record.blob.is_some() {
            text_within_limit(&blob)
        } else {
            None
        },
        None => None,
    };
    let new = match &change.current {
        Some(file) => if file.text == TextEligibility::Text {
            text_within_limit(&content)
        } else {
            None
        },
        None => None,
    };
    let pair: Option<(String, String)> = match change.kind {
        ChangeKind::Added => match new {
            Some(text) => Some((String::new(), text)),
            None => None,
        },
        ChangeKind::Deleted => match old {
            Some(text) => Some((text, String::new())),
            None => None,
        },
        ChangeKind::Modified => match (old, new) {
            (Some(first), Some(second)) => Some((first, second)),
            _ => None,
        },
        ChangeKind::Renamed => None,
    };
    proof {
        reveal_strlit("");
        assert(""@ =~= Seq::empty());
    }
    match pair {
        None => {
            let mut result = header_lines(before.as_str(), after.as_str());
            result.push(DiffLine::new(DiffLineKind::Notice, METADATA_ONLY.to_owned()));
            result
        },
        Some((first, second)) => {
            let mut old_name = "a/".to_owned();
            old_name.append(before.as_str());
            let mut new_name = "b/".to_owned();
            new_name.append(after.as_str());
            let unified = unified_text(
                first.as_str(),
                second.as_str(),
                CONTEXT_RADIUS,
                old_name.as_str(),
                new_name.as_str(),
            );
            parse_unified_diff(unified.as_str())
        },
    }
}

/// Reading a diff loses no line and changes none: the texts of the result are
/// the lines of the input, in order.
pub proof fn law_diff_keeps_every_line(unified: Seq<char>)
    ensures
        unified_lines(unified).len() == text_lines(unified).len(),
        forall|i: int|
            0 <= i < text_lines(unified).len() ==> (#[trigger] unified_lines(unified)[i]).text
                == text_lines(unified)[i],
{
    lemma_read_keeps_lines(at_start(), text_lines(unified));
}

proof fn lemma_read_keeps_lines(progress: Progress, text: Seq<Seq<char>>)
    ensures
        read_lines(progress, text).len() == text.len(),
        forall|i: int|
            0 <= i < text.len() ==> (#[trigger] read_lines(progress, text)[i]).text == text[i],
    decreases text.len(),
{
    if text.len() > 0 {
        let (line, after) = read_line(progress, text[0]);
        lemma_read_keeps_lines(after, text.skip(1));
        let rest = read_lines(after, text.skip(1));
        assert forall|i: int| 0 <= i < text.len() implies (#[trigger] read_lines(
            progress,
            text,
        )[i]).text == text[i] by {
            if i > 0 {
                assert(read_lines(progress, text)[i] == rest[i - 1]);
                assert(text.skip(1)[i - 1] == text[i]);
            }
        }
    }
}

/// How many of the lines stand in the old text.
pub open spec fn old_side(text: Seq<Seq<char>>) -> nat
    decreases text.len(),
{
    if text.len() == 0 {
        0
    } else {
        let line = text.last();
        old_side(text.drop_last()) + if line.len() > 0 && (line[0] == '-' || line[0] == ' ') {
            1nat
        } else {
            0
        }
    }
}

/// How many of the lines stand in the new text.
pub open spec fn new_side(text: Seq<Seq<char>>) -> nat
    decreases text.len(),
{
    if text.len() == 0 {
        0
    } else {
        let line = text.last();
        new_side(text.drop_last()) + if line.len() > 0 && (line[0] == '+' || line[0] == ' ') {
            1nat
        } else {
            0
        }
    }
}

pub open spec fn body_of_hunk(body: Seq<Seq<char>>) -> bool {
    forall|i: int| 0 <= i < body.len() ==> !"@@"@.is_prefix_of(#[trigger] body[i])
}

/// In the body of a hunk that starts at old line `old` and new line `new`, the
/// line at `i` carries the number of old lines before it counted from `old`, and
/// of new lines before it counted from `new`, on the sides where it stands.
pub proof fn law_hunk_numbers_count_up(old: usize, new: usize, body: Seq<Seq<char>>, i: int)
    requires
        body_of_hunk(body),
        0 <= i < body.len(),
        old + body.len() <= usize::MAX,
        new + body.len() <= usize::MAX,
    ensures
        ({
            let inside = Progress { saw_hunk: true, cursors: Some((old, new)) };
            let line = read_lines(inside, body)[i];
            let first = body[i];
            &&& line.old_line == if first.len() > 0 && (first[0] == '-' || first[0] == ' ') {
                Some((old + old_side(body.take(i))) as usize)
            } else {
                None::<usize>
            }
            &&& line.new_line == if first.len() > 0 && (first[0] == '+' || first[0] == ' ') {
                Some((new + new_side(body.take(i))) as usize)
            } else {
                None::<usize>
            }
        }),
    decreases body.len(),
{
    let inside = Progress { saw_hunk: true, cursors: Some((old, new)) };
    assert(!"@@"@.is_prefix_of(body[0]));
    let (line, after) = read_line(inside, body[0]);
    lemma_read_keeps_lines(after, body.skip(1));
    if i == 0 {
        assert(body.take(0).len() == 0);
    } else {
        let rest = body.skip(1);
        assert forall|j: int| 0 <= j < rest.len() implies !"@@"@.is_prefix_of(
            #[trigger] rest[j],
        ) by {
            assert(rest[j] == body[j + 1]);
        }
        let (old_after, new_after) = after.cursors->0;
        law_hunk_numbers_count_up(old_after, new_after, rest, i - 1);
        assert(read_lines(inside, body)[i] == read_lines(after, rest)[i - 1]);
        lemma_sides_first(body.take(i));
        assert(body.take(i).skip(1) =~= rest.take(i - 1));
    }
}

/// How far a diff has been read after the lines.
spec fn progress_after(progress: Progress, text: Seq<Seq<char>>) -> Progress
    decreases text.len(),
{
    if text.len() == 0 {
        progress
    } else {
        progress_after(read_line(progress, text[0]).1, text.skip(1))
    }
}

proof fn lemma_read_apart(progress: Progress, a: Seq<Seq<char>>, b: Seq<Seq<char>>)
    ensures
        read_lines(progress, a + b) == read_lines(progress, a) + read_lines(
            progress_after(progress, a),
            b,
        ),
    decreases a.len(),
{
    if a.len() == 0 {
        assert(a + b =~= b);
        assert(read_lines(progress, a) + read_lines(progress, b) =~= read_lines(progress, b));
    } else {
        let (line, after) = read_line(progress, a[0]);
        lemma_read_apart(after, a.skip(1), b);
        assert((a + b).skip(1) =~= a.skip(1) + b);
        let end = read_lines(progress_after(progress, a), b);
        assert(seq![line] + (read_lines(after, a.skip(1)) + end) =~= seq![line] + read_lines(
            after,
            a.skip(1),
        ) + end);
    }
}

proof fn lemma_read_apart_at_hunk(a: Seq<Seq<char>>, b: Seq<Seq<char>>)
    requires
        b.len() > 0,
        "@@"@.is_prefix_of(b[0]),
    ensures
        read_lines(at_start(), a + b) == read_lines(at_start(), a) + read_lines(at_start(), b),
{
    lemma_read_apart(at_start(), a, b);
    assert(read_lines(progress_after(at_start(), a), b) == read_lines(at_start(), b));
}

/// What a hunk's lines are does not depend on what stands before the hunk: a diff and
/// a hunk behind it are read as the two are read alone, so every hunk is numbered from
/// its own header.
pub proof fn law_hunks_are_read_alone(before: Seq<char>, hunk: Seq<char>)
    requires
        before.len() > 0 ==> before.last() == '\n',
        hunk.len() >= 2,
        hunk[0] == '@',
        hunk[1] == '@',
    ensures
        unified_lines(before + hunk) == unified_lines(before) + unified_lines(hunk),
{
    law_lines_are_cut_apart(before, hunk);
    let own = text_lines(hunk);
    assert("@@"@.is_prefix_of(own[0])) by {
        reveal_strlit("@@");
        let k = crate::seqs::first_index(hunk, '\n');
        crate::seqs::lemma_first_index(hunk, '\n');
        assert(k >= 2) by {
            assert(hunk[0] != '\n' && hunk[1] != '\n');
        }
        assert(own[0][0] == '@' && own[0][1] == '@');
        assert(own[0].subrange(0, 2) =~= "@@"@);
    }
    lemma_read_apart_at_hunk(text_lines(before), own);
}

/// A range of a hunk header: its first line, and how many lines it has where that is
/// written.
pub open spec fn range_text(start: usize, count: Option<usize>) -> Seq<char> {
    match count {
        Some(lines) => decimal(start as nat) + seq![','] + decimal(lines as nat),
        None => decimal(start as nat),
    }
}

/// The header of a hunk, with what may follow it in its line.
pub open spec fn hunk_header(
    old: (usize, Option<usize>),
    new: (usize, Option<usize>),
    heading: Seq<char>,
) -> Seq<char> {
    seq!['@', '@', ' ', '-'] + range_text(old.0, old.1) + seq![' ', '+'] + range_text(new.0, new.1)
        + seq![' ', '@', '@'] + heading
}

proof fn lemma_range(start: usize, count: Option<usize>)
    ensures
        range_text(start, count).len() > 0,
        forall|i: int|
            0 <= i < range_text(start, count).len() ==> {
                let c = #[trigger] range_text(start, count)[i];
                is_digit(c) || c == ','
            },
        parsed_number(split(range_text(start, count), ',')[0]) == Some(start),
{
    let first = decimal(start as nat);
    lemma_decimal(start as nat);
    law_numbers_are_read_back(start);
    assert forall|i: int| 0 <= i < first.len() implies first[i] != ',' by {
        assert(is_digit(first[i]));
    }
    match count {
        Some(lines) => {
            let second = decimal(lines as nat);
            lemma_decimal(lines as nat);
            let all = range_text(start, count);
            assert forall|i: int| 0 <= i < all.len() implies ({
                let c = #[trigger] all[i];
                is_digit(c) || c == ','
            }) by {
                if i < first.len() {
                    assert(all[i] == first[i]);
                } else if i > first.len() {
                    assert(all[i] == second[i - first.len() - 1]);
                }
            }
            crate::seqs::lemma_split_after(first, second, ',');
        },
        None => {
            crate::seqs::lemma_split_single(first, ',');
        },
    }
}

proof fn lemma_before_marker(text: Seq<char>, rest: Seq<char>)
    requires
        forall|i: int| 0 <= i < text.len() ==> text[i] != '@',
    ensures
        before_marker(text + seq!['@', '@'] + rest) == text,
    decreases text.len(),
{
    let all = text + seq!['@', '@'] + rest;
    if text.len() == 0 {
        assert(all[0] == '@' && all[1] == '@');
        assert(before_marker(all) =~= text);
    } else {
        lemma_before_marker(text.skip(1), rest);
        assert(all.skip(1) =~= text.skip(1) + seq!['@', '@'] + rest);
        assert(all[0] == text[0]);
        assert(before_marker(all) =~= text);
    }
}

proof fn lemma_header_numbers(
    old: (usize, Option<usize>),
    new: (usize, Option<usize>),
    heading: Seq<char>,
)
    ensures
        hunk_cursors(hunk_header(old, new, heading)) == Some((old.0, new.0)),
        "@@"@.is_prefix_of(hunk_header(old, new, heading)),
{
    let header = hunk_header(old, new, heading);
    let first = seq!['-'] + range_text(old.0, old.1);
    let second = seq!['+'] + range_text(new.0, new.1);
    lemma_range(old.0, old.1);
    lemma_range(new.0, new.1);
    reveal_strlit("@@");
    assert(header.subrange(0, 2) =~= "@@"@);
    let spaced = second + seq![' '] + Seq::<char>::empty();
    let inner = seq![' '] + (first + seq![' '] + spaced);
    assert(header.skip(2) =~= inner + seq!['@', '@'] + heading);
    assert forall|i: int| 0 <= i < first.len() implies !crate::text::is_space(#[trigger] first[i])
        && first[i] != '@' by {
        if i > 0 {
            assert(first[i] == range_text(old.0, old.1)[i - 1]);
        }
    }
    assert forall|i: int| 0 <= i < second.len() implies !crate::text::is_space(
        #[trigger] second[i],
    ) && second[i] != '@' by {
        if i > 0 {
            assert(second[i] == range_text(new.0, new.1)[i - 1]);
        }
    }
    assert forall|i: int| 0 <= i < inner.len() implies inner[i] != '@' by {
        if 1 <= i < 1 + first.len() {
            assert(inner[i] == first[i - 1]);
        } else if 2 + first.len() <= i < 2 + first.len() + second.len() {
            assert(inner[i] == second[i - 2 - first.len()]);
        }
    }
    lemma_before_marker(inner, heading);
    lemma_words_after_space(first + seq![' '] + spaced);
    lemma_words_first(first, spaced);
    lemma_words_first(second, Seq::empty());
    let ranges = words(inner);
    assert(words(Seq::<char>::empty()) =~= Seq::empty());
    assert(ranges =~= seq![first, second]);
    assert(first.skip(1) =~= range_text(old.0, old.1));
    assert(second.skip(1) =~= range_text(new.0, new.1));
    assert(ranges.skip(1) =~= seq![second]);
    assert(ranges.skip(1).skip(1) =~= Seq::empty());
    assert(read_ranges(ranges.skip(1).skip(1), Some(old.0), Some(new.0)) == Some(
        (Some(old.0), Some(new.0)),
    ));
    assert(read_ranges(ranges.skip(1), Some(old.0), None) == Some((Some(old.0), Some(new.0))));
}

/// What the first character of a line in a hunk tells.
pub open spec fn sign_tells(line: Seq<char>, kind: DiffLineKind) -> bool {
    &&& kind == DiffLineKind::Addition <==> line.len() > 0 && line[0] == '+'
    &&& kind == DiffLineKind::Deletion <==> line.len() > 0 && line[0] == '-'
    &&& kind == DiffLineKind::Context <==> line.len() > 0 && line[0] == ' '
    &&& kind == DiffLineKind::Notice <==> !(line.len() > 0 && (line[0] == '+' || line[0] == '-'
        || line[0] == ' '))
}

proof fn lemma_hunk_kinds(old: usize, new: usize, body: Seq<Seq<char>>, i: int)
    requires
        body_of_hunk(body),
        0 <= i < body.len(),
    ensures
        ({
            let inside = Progress { saw_hunk: true, cursors: Some((old, new)) };
            let line = read_lines(inside, body)[i];
            sign_tells(body[i], line.kind) && line.text == body[i]
        }),
    decreases body.len(),
{
    let inside = Progress { saw_hunk: true, cursors: Some((old, new)) };
    assert(!"@@"@.is_prefix_of(body[0]));
    let (line, after) = read_line(inside, body[0]);
    lemma_read_keeps_lines(inside, body);
    lemma_read_keeps_lines(after, body.skip(1));
    if i > 0 {
        let rest = body.skip(1);
        assert forall|j: int| 0 <= j < rest.len() implies !"@@"@.is_prefix_of(
            #[trigger] rest[j],
        ) by {
            assert(rest[j] == body[j + 1]);
        }
        let (old_after, new_after) = after.cursors->0;
        lemma_hunk_kinds(old_after, new_after, rest, i - 1);
        assert(read_lines(inside, body)[i] == read_lines(after, rest)[i - 1]);
        assert(rest[i - 1] == body[i]);
    }
}

/// A hunk as it is written, a header and lines, is read into its header and, for every
/// line, the kind that its sign tells and its numbers: counted from those that the
/// header gives, on the sides on which the line stands.
pub proof fn law_hunk_is_numbered_from_its_header(
    old: (usize, Option<usize>),
    new: (usize, Option<usize>),
    heading: Seq<char>,
    body: Seq<Seq<char>>,
)
    requires
        is_line(hunk_header(old, new, heading)),
        forall|i: int| 0 <= i < body.len() ==> is_line(#[trigger] body[i]),
        body_of_hunk(body),
        old.0 + body.len() <= usize::MAX,
        new.0 + body.len() <= usize::MAX,
    ensures
        ({
            let header = hunk_header(old, new, heading);
            let read = unified_lines(line_ended(seq![header] + body));
            &&& read.len() == 1 + body.len()
            &&& read[0] == (DiffLineView {
                kind: DiffLineKind::Hunk,
                text: header,
                old_line: None,
                new_line: None,
            })
            &&& forall|i: int|
                0 <= i < body.len() ==> {
                    let line = #[trigger] read[i + 1];
                    let sign = body[i];
                    &&& line.text == body[i]
                    &&& sign_tells(body[i], line.kind)
                    &&& line.old_line == if sign.len() > 0 && (sign[0] == '-' || sign[0] == ' ') {
                        Some((old.0 + old_side(body.take(i))) as usize)
                    } else {
                        None::<usize>
                    }
                    &&& line.new_line == if sign.len() > 0 && (sign[0] == '+' || sign[0] == ' ') {
                        Some((new.0 + new_side(body.take(i))) as usize)
                    } else {
                        None::<usize>
                    }
                }
        }),
{
    let header = hunk_header(old, new, heading);
    let all = seq![header] + body;
    assert forall|i: int| 0 <= i < all.len() implies is_line(#[trigger] all[i]) by {
        if i > 0 {
            assert(all[i] == body[i - 1]);
        }
    }
    law_lines_are_read_back(all);
    lemma_header_numbers(old, new, heading);
    let inside = Progress { saw_hunk: true, cursors: Some((old.0, new.0)) };
    assert(all.skip(1) =~= body);
    lemma_read_keeps_lines(at_start(), all);
    lemma_read_keeps_lines(inside, body);
    let read = read_lines(at_start(), all);
    let own = read_lines(inside, body);
    assert(read =~= seq![plain_line(DiffLineKind::Hunk, header)] + own);
    assert forall|i: int| 0 <= i < body.len() implies ({
        let line = #[trigger] read[i + 1];
        let sign = body[i];
        &&& line.text == body[i]
        &&& sign_tells(body[i], line.kind)
        &&& line.old_line == if sign.len() > 0 && (sign[0] == '-' || sign[0] == ' ') {
            Some((old.0 + old_side(body.take(i))) as usize)
        } else {
            None::<usize>
        }
        &&& line.new_line == if sign.len() > 0 && (sign[0] == '+' || sign[0] == ' ') {
            Some((new.0 + new_side(body.take(i))) as usize)
        } else {
            None::<usize>
        }
    }) by {
        assert(read[i + 1] == own[i]);
        law_hunk_numbers_count_up(old.0, new.0, body, i);
        lemma_hunk_kinds(old.0, new.0, body, i);
    }
}

/// What stands before the first hunk is no part of the texts: its lines are headers,
/// but for what is said of binary files, and none has a number.
pub proof fn law_lines_before_a_hunk_are_headers(lines: Seq<Seq<char>>)
    requires
        forall|i: int| 0 <= i < lines.len() ==> is_line(#[trigger] lines[i]),
        body_of_hunk(lines),
    ensures
        ({
            let read = unified_lines(line_ended(lines));
            &&& read.len() == lines.len()
            &&& forall|i: int|
                0 <= i < lines.len() ==> {
                    let line = #[trigger] read[i];
                    &&& line.text == lines[i]
                    &&& line.old_line is None
                    &&& line.new_line is None
                    &&& line.kind == if "Binary files"@.is_prefix_of(lines[i]) {
                        DiffLineKind::Notice
                    } else {
                        DiffLineKind::Header
                    }
                }
        }),
{
    law_lines_are_read_back(lines);
    lemma_headers(lines);
}

proof fn lemma_headers(lines: Seq<Seq<char>>)
    requires
        body_of_hunk(lines),
    ensures
        ({
            let read = read_lines(at_start(), lines);
            &&& read.len() == lines.len()
            &&& forall|i: int|
                0 <= i < lines.len() ==> {
                    let line = #[trigger] read[i];
                    &&& line.text == lines[i]
                    &&& line.old_line is None
                    &&& line.new_line is None
                    &&& line.kind == if "Binary files"@.is_prefix_of(lines[i]) {
                        DiffLineKind::Notice
                    } else {
                        DiffLineKind::Header
                    }
                }
        }),
    decreases lines.len(),
{
    if lines.len() > 0 {
        let rest = lines.skip(1);
        assert(!"@@"@.is_prefix_of(lines[0]));
        assert forall|j: int| 0 <= j < rest.len() implies !"@@"@.is_prefix_of(
            #[trigger] rest[j],
        ) by {
            assert(rest[j] == lines[j + 1]);
        }
        lemma_headers(rest);
        let read = read_lines(at_start(), lines);
        let later = read_lines(at_start(), rest);
        assert forall|i: int| 0 <= i < lines.len() implies ({
            let line = #[trigger] read[i];
            &&& line.text == lines[i]
            &&& line.old_line is None
            &&& line.new_line is None
            &&& line.kind == if "Binary files"@.is_prefix_of(lines[i]) {
                DiffLineKind::Notice
            } else {
                DiffLineKind::Header
            }
        }) by {
            if i > 0 {
                assert(read[i] == later[i - 1]);
                assert(rest[i - 1] == lines[i]);
            }
        }
    }
}

proof fn lemma_sides_first(text: Seq<Seq<char>>)
    requires
        text.len() > 0,
    ensures
        old_side(text) == old_side(text.skip(1)) + if text[0].len() > 0 && (text[0][0] == '-'
            || text[0][0] == ' ') {
            1nat
        } else {
            0
        },
        new_side(text) == new_side(text.skip(1)) + if text[0].len() > 0 && (text[0][0] == '+'
            || text[0][0] == ' ') {
            1nat
        } else {
            0
        },
        old_side(text) <= text.len(),
        new_side(text) <= text.len(),
    decreases text.len(),
{
    if text.len() == 1 {
        assert(text.skip(1).len() == 0);
        assert(text.drop_last().len() == 0);
    } else {
        lemma_sides_first(text.drop_last());
        assert(text.drop_last().skip(1) =~= text.skip(1).drop_last());
        assert(text.skip(1).last() == text.last());
    }
}

proof fn lemma_before_marker_in(text: Seq<char>, c: char)
    ensures
        before_marker(text).contains(c) ==> text.contains(c),
    decreases text.len(),
{
    if text.len() > 0 && !(text.len() >= 2 && text[0] == '@' && text[1] == '@') {
        lemma_before_marker_in(text.skip(1), c);
        let found = before_marker(text);
        if found.contains(c) {
            let i = found.index_of(c);
            if i == 0 {
                assert(text[0] == c);
            } else {
                let rest = before_marker(text.skip(1));
                assert(rest[i - 1] == c);
                assert(rest.contains(c));
                let j = text.skip(1).index_of(c);
                assert(text[j + 1] == c);
            }
        }
    }
}

proof fn lemma_ranges_without(
    ranges: Seq<Seq<char>>,
    old_start: Option<usize>,
    new_start: Option<usize>,
)
    requires
        forall|i: int| 0 <= i < ranges.len() ==> (#[trigger] ranges[i]).len() > 0,
    ensures
        (forall|i: int| 0 <= i < ranges.len() ==> !(#[trigger] ranges[i]).contains('-')) ==> (
        read_ranges(ranges, old_start, new_start) matches Some((old, new)) ==> old == old_start),
        (forall|i: int| 0 <= i < ranges.len() ==> !(#[trigger] ranges[i]).contains('+')) ==> (
        read_ranges(ranges, old_start, new_start) matches Some((old, new)) ==> new == new_start),
    decreases ranges.len(),
{
    if ranges.len() > 0 {
        let rest = ranges.skip(1);
        assert(ranges[0].len() > 0);
        assert(ranges[0].contains(ranges[0][0]));
        assert forall|i: int| 0 <= i < rest.len() implies (#[trigger] rest[i]) == ranges[i + 1] by {
        }
        if let Some(start) = parsed_number(split(ranges[0].skip(1), ',')[0]) {
            lemma_ranges_without(rest, Some(start), new_start);
            lemma_ranges_without(rest, old_start, Some(start));
            lemma_ranges_without(rest, old_start, new_start);
        }
    }
}

/// Lines under a header that names no old or no new range have no numbers, and count as
/// neither added nor deleted.
pub proof fn law_nothing_is_numbered_without_ranges(header: Seq<char>, body: Seq<Seq<char>>)
    requires
        is_line(header),
        "@@"@.is_prefix_of(header),
        !header.contains('-') || !header.contains('+'),
        forall|i: int| 0 <= i < body.len() ==> is_line(#[trigger] body[i]),
        body_of_hunk(body),
    ensures
        ({
            let read = unified_lines(line_ended(seq![header] + body));
            &&& read.len() == 1 + body.len()
            &&& read[0].kind == DiffLineKind::Hunk
            &&& forall|i: int|
                0 <= i < body.len() ==> {
                    let line = #[trigger] read[i + 1];
                    &&& line.kind == DiffLineKind::Notice
                    &&& line.old_line is None
                    &&& line.new_line is None
                    &&& line.text == body[i]
                }
        }),
{
    let all = seq![header] + body;
    assert forall|i: int| 0 <= i < all.len() implies is_line(#[trigger] all[i]) by {
        if i > 0 {
            assert(all[i] == body[i - 1]);
        }
    }
    law_lines_are_read_back(all);
    reveal_strlit("@@");
    assert(header.len() >= 2);
    let inner = before_marker(header.skip(2));
    let ranges = words(inner);
    lemma_words_nonempty(inner);
    lemma_before_marker_in(header.skip(2), '-');
    lemma_before_marker_in(header.skip(2), '+');
    if !header.contains('-') {
        assert(!header.skip(2).contains('-')) by {
            if header.skip(2).contains('-') {
                let j = header.skip(2).index_of('-');
                assert(header[j + 2] == '-');
            }
        }
        lemma_words_in(inner, '-');
    }
    if !header.contains('+') {
        assert(!header.skip(2).contains('+')) by {
            if header.skip(2).contains('+') {
                let j = header.skip(2).index_of('+');
                assert(header[j + 2] == '+');
            }
        }
        lemma_words_in(inner, '+');
    }
    lemma_ranges_without(ranges, None, None);
    assert(hunk_cursors(header) is None);
    let inside = Progress { saw_hunk: true, cursors: None };
    assert(all.skip(1) =~= body);
    lemma_notices(body);
    let read = read_lines(at_start(), all);
    let own = read_lines(inside, body);
    assert(read =~= seq![plain_line(DiffLineKind::Hunk, header)] + own);
    assert forall|i: int| 0 <= i < body.len() implies ({
        let line = #[trigger] read[i + 1];
        &&& line.kind == DiffLineKind::Notice
        &&& line.old_line is None
        &&& line.new_line is None
        &&& line.text == body[i]
    }) by {
        assert(read[i + 1] == own[i]);
    }
}

proof fn lemma_notices(body: Seq<Seq<char>>)
    requires
        body_of_hunk(body),
    ensures
        ({
            let own = read_lines(Progress { saw_hunk: true, cursors: None }, body);
            &&& own.len() == body.len()
            &&& forall|i: int|
                0 <= i < body.len() ==> #[trigger] own[i] == plain_line(
                    DiffLineKind::Notice,
                    body[i],
                )
        }),
    decreases body.len(),
{
    if body.len() > 0 {
        let rest = body.skip(1);
        let inside = Progress { saw_hunk: true, cursors: None };
        assert(!"@@"@.is_prefix_of(body[0]));
        assert forall|j: int| 0 <= j < rest.len() implies !"@@"@.is_prefix_of(
            #[trigger] rest[j],
        ) by {
            assert(rest[j] == body[j + 1]);
        }
        lemma_notices(rest);
        let own = read_lines(inside, body);
        assert forall|i: int| 0 <= i < body.len() implies #[trigger] own[i] == plain_line(
            DiffLineKind::Notice,
            body[i],
        ) by {
            if i > 0 {
                assert(own[i] == read_lines(inside, rest)[i - 1]);
            }
        }
    }
}

/// What was added is shown as a change from an empty text, and what was deleted as a
/// change to one.
pub proof fn law_additions_and_deletions_are_changes_from_and_to_nothing(
    change: ChangeView,
    record: RecordView,
    file: FileView,
    bytes: Seq<u8>,
)
    requires
        record.blob is Some,
        file.text == TextEligibility::Text,
        bytes.len() <= 2 * 1024 * 1024,
        valid_utf8(bytes),
    ensures
        ({
            let nothing = Seq::<u8>::empty();
            let both = ChangeView { baseline: Some(record), current: Some(file), ..change };
            let added = ChangeView { kind: ChangeKind::Added, ..both };
            let deleted = ChangeView { kind: ChangeKind::Deleted, ..both };
            let modified = ChangeView { kind: ChangeKind::Modified, ..both };
            &&& change_lines(added, None, Some(bytes)) == change_lines(
                modified,
                Some(nothing),
                Some(bytes),
            )
            &&& change_lines(deleted, Some(bytes), None) == change_lines(
                modified,
                Some(bytes),
                Some(nothing),
            )
        }),
{
    reveal_strlit("");
    assert(decode_utf8(Seq::<u8>::empty()) =~= ""@);
}

/// A change whose texts are not both at hand is shown by its names and a notice, and so
/// is a rename by its names alone; nothing is counted as added or deleted.
pub proof fn law_changes_without_texts_are_told_of(
    change: ChangeView,
    blob: Option<Seq<u8>>,
    content: Option<Seq<u8>>,
)
    requires
        change.kind == ChangeKind::Renamed || (change.kind != ChangeKind::Added && (
        change.baseline is None || blob is None)) || (change.kind != ChangeKind::Deleted && (
        change.current is None || content is None)),
    ensures
        ({
            let lines = change_lines(change, blob, content);
            let former = match change.old_path {
                Some(path) => path,
                None => change.path,
            };
            &&& lines.len() == 3
            &&& lines[0].text == "--- a/"@ + lossy(former)
            &&& lines[1].text == "+++ b/"@ + lossy(change.path)
            &&& lines[2].kind == if change.kind == ChangeKind::Renamed {
                DiffLineKind::Hunk
            } else {
                DiffLineKind::Notice
            }
        }),
{
}

/// A change whose two texts are at hand is shown as the diff from the recorded text to
/// the present one, with three lines around each difference, under the name that it had
/// and the name that it has.
pub proof fn law_changes_lead_from_the_recorded_to_the_present_text(
    change: ChangeView,
    blob: Seq<u8>,
    content: Seq<u8>,
)
    requires
        change.kind == ChangeKind::Modified,
        change.baseline is Some,
        change.baseline->0.blob is Some,
        change.current is Some,
        change.current->0.text == TextEligibility::Text,
        blob.len() <= 2 * 1024 * 1024,
        content.len() <= 2 * 1024 * 1024,
        valid_utf8(blob),
        valid_utf8(content),
    ensures
        ({
            let former = match change.old_path {
                Some(path) => path,
                None => change.path,
            };
            change_lines(change, Some(blob), Some(content)) == unified_lines(
                unified_diff(
                    decode_utf8(blob),
                    decode_utf8(content),
                    3,
                    "a/"@ + lossy(former),
                    "b/"@ + lossy(change.path),
                ),
            )
        }),
{
}

} // verus!
