//! Text as sequences of characters: lines, words, numbers and searches.
use vstd::prelude::*;
use vstd::utf8::{decode_utf8, valid_utf8};

use crate::seqs::{first_index, group_views, has_infix, lemma_first_index_is, occurs_at, split, views,
    lemma_split_single, lemma_split_step};

verus! {

/// `String::push` appends the character.
pub assume_specification[ String::push ](text: &mut String, character: char)
    ensures
        final(text)@ == old(text)@.push(character),
;

/// What `String::from_utf8_lossy` makes of bytes: the text they encode, with
/// U+FFFD in place of what is no UTF-8.
pub uninterp spec fn lossy(bytes: Seq<u8>) -> Seq<char>;

/// `String::from_utf8_lossy`, owned. It is a function of the bytes; on valid
/// UTF-8 it is the text that they encode. How invalid stretches are cut before
/// each is replaced is left to the name.
#[verifier::external_body]
pub(crate) fn lossy_text(bytes: &[u8]) -> (text: String)
    ensures
        text@ == lossy(bytes@),
        valid_utf8(bytes@) ==> text@ == decode_utf8(bytes@),
{
    String::from_utf8_lossy(bytes).into_owned()
}

/// `String::from_utf8` on a copy of the bytes: the text that they encode where
/// they are valid UTF-8, nothing elsewhere.
#[verifier::external_body]
pub(crate) fn utf8_text(bytes: &[u8]) -> (text: Option<String>)
    ensures
        text is Some <==> valid_utf8(bytes@),
        text matches Some(decoded) ==> decoded@ == decode_utf8(bytes@),
{
    String::from_utf8(bytes.to_vec()).ok()
}

/// A text has no more characters than its encoding has bytes.
pub proof fn lemma_decoded_length(bytes: Seq<u8>)
    requires
        valid_utf8(bytes),
    ensures
        decode_utf8(bytes).len() <= bytes.len(),
    decreases bytes.len(),
{
    if bytes.len() > 0 {
        lemma_decoded_length(vstd::utf8::pop_first_scalar(bytes));
    }
}

/// The characters with Unicode's `White_Space` property.
pub open spec fn is_space(c: char) -> bool {
    let u = c as u32;
    ||| 0x09 <= u <= 0x0d
    ||| u == 0x20
    ||| u == 0x85
    ||| u == 0xa0
    ||| u == 0x1680
    ||| 0x2000 <= u <= 0x200a
    ||| u == 0x2028
    ||| u == 0x2029
    ||| u == 0x202f
    ||| u == 0x205f
    ||| u == 0x3000
}

/// A line without its one trailing carriage return.
pub open spec fn without_carriage_return(line: Seq<char>) -> Seq<char> {
    if line.len() > 0 && line.last() == '\r' {
        line.drop_last()
    } else {
        line
    }
}

/// The lines of a text. A line ends in a line feed, which may have a carriage
/// return before it; what follows the last line feed is a line unless empty.
pub open spec fn text_lines(text: Seq<char>) -> Seq<Seq<char>>
    decreases text.len(),
{
    let k = first_index(text, '\n');
    if text.len() == 0 {
        Seq::empty()
    } else if k >= text.len() {
        seq![text]
    } else {
        proof {
            crate::seqs::lemma_first_index(text, '\n');
        }
        seq![without_carriage_return(text.take(k))] + text_lines(text.skip(k + 1))
    }
}

pub open spec fn trim_start(text: Seq<char>) -> Seq<char>
    decreases text.len(),
{
    if text.len() > 0 && is_space(text[0]) {
        trim_start(text.skip(1))
    } else {
        text
    }
}

pub open spec fn trim_end(text: Seq<char>) -> Seq<char>
    decreases text.len(),
{
    if text.len() > 0 && is_space(text.last()) {
        trim_end(text.drop_last())
    } else {
        text
    }
}

/// The text without white space at either end.
pub open spec fn trim(text: Seq<char>) -> Seq<char> {
    trim_end(trim_start(text))
}

/// How many characters stand before the first white space.
pub open spec fn word_length(text: Seq<char>) -> int
    decreases text.len(),
{
    if text.len() == 0 || is_space(text[0]) {
        0
    } else {
        1 + word_length(text.skip(1))
    }
}

/// The words of a text: its stretches without white space.
pub open spec fn words(text: Seq<char>) -> Seq<Seq<char>>
    decreases text.len(),
{
    if text.len() == 0 {
        Seq::empty()
    } else if is_space(text[0]) {
        words(text.skip(1))
    } else {
        let k = word_length(text);
        proof {
            lemma_word_length(text);
        }
        seq![text.take(k)] + words(text.skip(k))
    }
}

pub open spec fn lower(c: char) -> char {
    if 'A' <= c <= 'Z' {
        (c as u32 + 32) as char
    } else {
        c
    }
}

/// The text with its ASCII capitals made small.
pub open spec fn lowercase(text: Seq<char>) -> Seq<char> {
    Seq::new(text.len(), |i: int| lower(text[i]))
}

pub open spec fn digit(value: nat) -> char {
    (48 + value) as char
}

/// A number written in decimal, without leading zeros.
pub open spec fn decimal(value: nat) -> Seq<char>
    decreases value,
{
    if value < 10 {
        seq![digit(value)]
    } else {
        decimal(value / 10).push(digit(value % 10))
    }
}

pub open spec fn is_digit(c: char) -> bool {
    '0' <= c <= '9'
}

/// The number that a sequence of decimal digits writes.
pub open spec fn digits_value(digits: Seq<char>) -> nat
    decreases digits.len(),
{
    if digits.len() == 0 {
        0
    } else {
        digits_value(digits.drop_last()) * 10 + (digits.last() as nat - 48) as nat
    }
}

pub open spec fn without_plus(text: Seq<char>) -> Seq<char> {
    if text.len() > 0 && text[0] == '+' {
        text.skip(1)
    } else {
        text
    }
}

/// The `usize` that a text writes: digits, with one plus sign allowed before
/// them, whose value fits.
pub open spec fn parsed_number(text: Seq<char>) -> Option<usize> {
    let digits = without_plus(text);
    if digits.len() > 0 && (forall|i: int| 0 <= i < digits.len() ==> is_digit(#[trigger] digits[i]))
        && digits_value(digits) <= usize::MAX {
        Some(digits_value(digits) as usize)
    } else {
        None
    }
}

pub open spec fn spaces(count: nat) -> Seq<char> {
    Seq::new(count, |i: int| ' ')
}

/// The text with spaces before it, up to `width` characters in all.
pub open spec fn right_aligned(text: Seq<char>, width: nat) -> Seq<char> {
    if text.len() >= width {
        text
    } else {
        spaces((width - text.len()) as nat) + text
    }
}

pub proof fn lemma_word_length(text: Seq<char>)
    ensures
        0 <= word_length(text) <= text.len(),
        forall|i: int| 0 <= i < word_length(text) ==> !is_space(#[trigger] text[i]),
        word_length(text) < text.len() ==> is_space(text[word_length(text)]),
        text.len() > 0 && !is_space(text[0]) ==> word_length(text) > 0,
    decreases text.len(),
{
    if text.len() > 0 && !is_space(text[0]) {
        lemma_word_length(text.skip(1));
        assert forall|i: int| 0 <= i < word_length(text) implies !is_space(#[trigger] text[i]) by {
            if i > 0 {
                assert(text.skip(1)[i - 1] == text[i]);
            }
        }
    }
}

pub proof fn lemma_word_length_is(text: Seq<char>, k: int)
    requires
        0 <= k <= text.len(),
        forall|i: int| 0 <= i < k ==> !is_space(#[trigger] text[i]),
        k < text.len() ==> is_space(text[k]),
    ensures
        word_length(text) == k,
{
    lemma_word_length(text);
    let w = word_length(text);
    if w < k {
        assert(!is_space(text[w]));
    } else if k < w {
        assert(!is_space(text[k]));
    }
}

/// The lines with a line feed behind each.
pub open spec fn line_ended(lines: Seq<Seq<char>>) -> Seq<char>
    decreases lines.len(),
{
    if lines.len() == 0 {
        Seq::empty()
    } else {
        lines[0] + seq!['\n'] + line_ended(lines.skip(1))
    }
}

/// Whether the text can be a line: it holds no line feed, and does not end in a
/// carriage return.
pub open spec fn is_line(text: Seq<char>) -> bool {
    &&& forall|i: int| 0 <= i < text.len() ==> text[i] != '\n'
    &&& text.len() > 0 ==> text.last() != '\r'
}

/// The lines of a text that was written line by line are those lines.
pub proof fn law_lines_are_read_back(lines: Seq<Seq<char>>)
    requires
        forall|i: int| 0 <= i < lines.len() ==> is_line(#[trigger] lines[i]),
    ensures
        text_lines(line_ended(lines)) == lines,
    decreases lines.len(),
{
    if lines.len() == 0 {
        assert(text_lines(line_ended(lines)) =~= lines);
    } else {
        let first = lines[0];
        let rest = lines.skip(1);
        assert(is_line(first));
        assert forall|i: int| 0 <= i < rest.len() implies is_line(#[trigger] rest[i]) by {
            assert(rest[i] == lines[i + 1]);
        }
        law_lines_are_read_back(rest);
        let text = line_ended(lines);
        let k = first.len() as int;
        assert forall|i: int| 0 <= i < k implies text[i] != '\n' by {
            assert(text[i] == first[i]);
        }
        lemma_first_index_is(text, '\n', k);
        assert(text.take(k) =~= first);
        assert(text.skip(k + 1) =~= line_ended(rest));
        assert(seq![first] + rest =~= lines);
    }
}

/// A text that ends in a line feed is cut into lines apart from what follows it.
pub proof fn law_lines_are_cut_apart(a: Seq<char>, b: Seq<char>)
    requires
        a.len() > 0 ==> a.last() == '\n',
    ensures
        text_lines(a + b) == text_lines(a) + text_lines(b),
    decreases a.len(),
{
    if a.len() == 0 {
        assert(a + b =~= b);
        assert(text_lines(a) + text_lines(b) =~= text_lines(b));
    } else {
        let k = first_index(a, '\n');
        crate::seqs::lemma_first_index(a, '\n');
        if k >= a.len() {
            assert(a[a.len() - 1] != '\n');
        }
        let all = a + b;
        assert forall|i: int| 0 <= i < k implies all[i] != '\n' by {
            assert(all[i] == a[i]);
        }
        lemma_first_index_is(all, '\n', k);
        let rest = a.skip(k + 1);
        assert(all.take(k) =~= a.take(k));
        assert(all.skip(k + 1) =~= rest + b);
        if rest.len() > 0 {
            assert(rest.last() == a.last());
        }
        law_lines_are_cut_apart(rest, b);
        let first = without_carriage_return(a.take(k));
        assert(seq![first] + (text_lines(rest) + text_lines(b)) =~= seq![first] + text_lines(rest)
            + text_lines(b));
    }
}

pub proof fn lemma_decimal(value: nat)
    ensures
        decimal(value).len() > 0,
        forall|i: int| 0 <= i < decimal(value).len() ==> is_digit(#[trigger] decimal(value)[i]),
        digits_value(decimal(value)) == value,
    decreases value,
{
    let last = digit(value % 10);
    assert(last as nat == 48 + value % 10);
    if value < 10 {
        let all = decimal(value);
        assert(all.drop_last() =~= Seq::empty());
        assert(digits_value(all.drop_last()) == 0);
        assert(all.last() as nat == 48 + value);
    } else {
        lemma_decimal(value / 10);
        let front = decimal(value / 10);
        let all = decimal(value);
        assert(all.drop_last() =~= front);
        assert forall|i: int| 0 <= i < all.len() implies is_digit(#[trigger] all[i]) by {
            if i < front.len() {
                assert(all[i] == front[i]);
            }
        }
        assert(value / 10 * 10 + value % 10 == value);
    }
}

/// A number that was written in decimal is read back.
pub proof fn law_numbers_are_read_back(value: usize)
    ensures
        parsed_number(decimal(value as nat)) == Some(value),
{
    lemma_decimal(value as nat);
    let digits = decimal(value as nat);
    assert(is_digit(digits[0]));
    assert(without_plus(digits) == digits);
}

pub proof fn lemma_words_after_space(text: Seq<char>)
    ensures
        words(seq![' '] + text) == words(text),
{
    let all = seq![' '] + text;
    assert(all.skip(1) =~= text);
    assert(is_space(all[0]));
}

pub proof fn lemma_words_first(word: Seq<char>, rest: Seq<char>)
    requires
        word.len() > 0,
        forall|i: int| 0 <= i < word.len() ==> !is_space(#[trigger] word[i]),
    ensures
        words(word + seq![' '] + rest) == seq![word] + words(rest),
{
    let all = word + seq![' '] + rest;
    let k = word.len() as int;
    assert forall|i: int| 0 <= i < k implies !is_space(#[trigger] all[i]) by {
        assert(all[i] == word[i]);
    }
    assert(all[k] == ' ');
    lemma_word_length_is(all, k);
    assert(!is_space(all[0]));
    assert(all.take(k) =~= word);
    assert(all.skip(k) =~= seq![' '] + rest);
    lemma_words_after_space(rest);
}

/// The characters of a text.
pub fn to_chars(text: &str) -> (chars: Vec<char>)
    ensures
        chars@ == text@,
{
    let mut chars: Vec<char> = Vec::new();
    for c in iter: text.chars()
        invariant
            iter.seq() == text@,
            chars@ == text@.take(iter.index()),
    {
        chars.push(c);
        proof {
            assert(text@.take(iter.index() + 1) =~= text@.take(iter.index()).push(c));
        }
    }
    proof {
        assert(text@.take(text@.len() as int) =~= text@);
    }
    chars
}

/// A stretch of characters as a text.
pub fn from_chars(chars: &[char], from: usize, to: usize) -> (text: String)
    requires
        from <= to <= chars@.len(),
    ensures
        text@ == chars@.subrange(from as int, to as int),
{
    let mut text = String::new();
    let mut i: usize = from;
    while i < to
        invariant
            from <= i <= to <= chars@.len(),
            text@ == chars@.subrange(from as int, i as int),
        decreases to - i,
    {
        text.push(chars[i]);
        proof {
            assert(chars@.subrange(from as int, i + 1) =~= chars@.subrange(
                from as int,
                i as int,
            ).push(chars@[i as int]));
        }
        i += 1;
    }
    text
}

/// A stretch of characters, copied.
pub fn copy_chars(chars: &[char], from: usize, to: usize) -> (copy: Vec<char>)
    requires
        from <= to <= chars@.len(),
    ensures
        copy@ == chars@.subrange(from as int, to as int),
{
    let mut copy: Vec<char> = Vec::new();
    let mut i: usize = from;
    while i < to
        invariant
            from <= i <= to <= chars@.len(),
            copy@ == chars@.subrange(from as int, i as int),
        decreases to - i,
    {
        copy.push(chars[i]);
        proof {
            assert(chars@.subrange(from as int, i + 1) =~= chars@.subrange(
                from as int,
                i as int,
            ).push(chars@[i as int]));
        }
        i += 1;
    }
    copy
}

pub fn is_space_char(c: char) -> (space: bool)
    ensures
        space == is_space(c),
{
    let u = c as u32;
    (0x09 <= u && u <= 0x0d) || u == 0x20 || u == 0x85 || u == 0xa0 || u == 0x1680 || (0x2000 <= u
        && u <= 0x200a) || u == 0x2028 || u == 0x2029 || u == 0x202f || u == 0x205f || u == 0x3000
}

/// Whether the two texts are the same.
pub fn same_chars(a: &[char], b: &[char]) -> (same: bool)
    ensures
        same == (a@ == b@),
{
    if a.len() != b.len() {
        return false;
    }
    let mut i: usize = 0;
    while i < a.len()
        invariant
            i <= a@.len(),
            a@.len() == b@.len(),
            forall|j: int| 0 <= j < i ==> a@[j] == b@[j],
        decreases a@.len() - i,
    {
        if a[i] != b[i] {
            return false;
        }
        i += 1;
    }
    proof {
        assert(a@ =~= b@);
    }
    true
}

pub fn same_text(a: &str, b: &str) -> (same: bool)
    ensures
        same == (a@ == b@),
{
    let left = to_chars(a);
    let right = to_chars(b);
    same_chars(&left, &right)
}

/// Whether the characters begin with the prefix.
pub fn starts_with(chars: &[char], prefix: &str) -> (begins: bool)
    ensures
        begins == prefix@.is_prefix_of(chars@),
{
    let wanted = to_chars(prefix);
    if wanted.len() > chars.len() {
        return false;
    }
    let mut i: usize = 0;
    while i < wanted.len()
        invariant
            i <= wanted@.len() <= chars@.len(),
            wanted@ == prefix@,
            forall|j: int| 0 <= j < i ==> chars@[j] == wanted@[j],
        decreases wanted@.len() - i,
    {
        if chars[i] != wanted[i] {
            proof {
                assert(chars@.subrange(0, wanted@.len() as int)[i as int] == chars@[i as int]);
            }
            return false;
        }
        i += 1;
    }
    proof {
        assert(chars@.subrange(0, wanted@.len() as int) =~= wanted@);
    }
    true
}

/// The lines of a text, each as its characters.
pub fn lines(text: &str) -> (result: Vec<Vec<char>>)
    ensures
        views(result@) == text_lines(text@),
{
    broadcast use group_views;

    let chars = to_chars(text);
    let mut result: Vec<Vec<char>> = Vec::new();
    let mut start: usize = 0;
    let mut i: usize = 0;
    proof {
        assert(chars@.skip(0) =~= chars@);
        assert(views(result@) + text_lines(chars@.skip(0)) =~= text_lines(chars@));
    }
    while i < chars.len()
        invariant
            start <= i <= chars@.len(),
            chars@ == text@,
            forall|j: int| start <= j < i ==> chars@[j] != '\n',
            views(result@) + text_lines(chars@.skip(start as int)) == text_lines(text@),
        decreases chars@.len() - i,
    {
        if chars[i] == '\n' {
            let end = if i > start && chars[i - 1] == '\r' {
                i - 1
            } else {
                i
            };
            let line = copy_chars(&chars, start, end);
            let ghost before = views(result@);
            proof {
                let rest = chars@.skip(start as int);
                let k = i - start;
                lemma_first_index_is(rest, '\n', k);
                assert(rest.take(k).len() == k);
                if k > 0 {
                    assert(rest.take(k).last() == chars@[i - 1]);
                }
                assert(without_carriage_return(rest.take(k)) =~= line@);
                assert(rest.skip(k + 1) =~= chars@.skip(i + 1));
            }
            result.push(line);
            proof {
                assert(views(result@) + text_lines(chars@.skip(i + 1)) =~= before + (seq![line@]
                    + text_lines(chars@.skip(i + 1))));
            }
            start = i + 1;
        }
        i += 1;
    }
    if start < chars.len() {
        let last = copy_chars(&chars, start, chars.len());
        let ghost before = views(result@);
        proof {
            assert(chars@.skip(start as int) =~= last@);
            lemma_first_index_is(last@, '\n', last@.len() as int);
        }
        result.push(last);
        proof {
            assert(views(result@) =~= before + seq![last@]);
        }
    } else {
        proof {
            assert(views(result@) + text_lines(chars@.skip(start as int)) =~= views(result@));
        }
    }
    result
}

/// The pieces of a text between the separators.
pub fn split_chars(chars: &[char], separator: char) -> (pieces: Vec<Vec<char>>)
    ensures
        views(pieces@) == split(chars@, separator),
{
    broadcast use group_views;

    let mut pieces: Vec<Vec<char>> = Vec::new();
    let mut start: usize = 0;
    let mut i: usize = 0;
    proof {
        assert(chars@.skip(0) =~= chars@);
        assert(views(pieces@) + split(chars@.skip(0), separator) =~= split(chars@, separator));
    }
    while i < chars.len()
        invariant
            start <= i <= chars@.len(),
            forall|j: int| start <= j < i ==> chars@[j] != separator,
            views(pieces@) + split(chars@.skip(start as int), separator) == split(
                chars@,
                separator,
            ),
        decreases chars@.len() - i,
    {
        if chars[i] == separator {
            let piece = copy_chars(chars, start, i);
            let ghost before = views(pieces@);
            proof {
                let rest = chars@.skip(start as int);
                let k = i - start;
                lemma_split_step(rest, separator, k);
                assert(rest.take(k) =~= piece@);
                assert(rest.skip(k + 1) =~= chars@.skip(i + 1));
            }
            pieces.push(piece);
            proof {
                assert(views(pieces@) + split(chars@.skip(i + 1), separator) =~= before + (
                seq![piece@] + split(chars@.skip(i + 1), separator)));
            }
            start = i + 1;
        }
        i += 1;
    }
    let last = copy_chars(chars, start, chars.len());
    let ghost before = views(pieces@);
    proof {
        assert(chars@.skip(start as int) =~= last@);
        lemma_split_single(last@, separator);
    }
    pieces.push(last);
    proof {
        assert(views(pieces@) =~= before + seq![last@]);
    }
    pieces
}

proof fn lemma_trim_start_skips(text: Seq<char>, k: int)
    requires
        0 <= k <= text.len(),
        forall|i: int| 0 <= i < k ==> is_space(#[trigger] text[i]),
        k < text.len() ==> !is_space(text[k]),
    ensures
        trim_start(text) == text.skip(k),
    decreases text.len(),
{
    if k == 0 {
        assert(text.skip(0) =~= text);
    } else {
        assert forall|i: int| 0 <= i < k - 1 implies is_space(#[trigger] text.skip(1)[i]) by {
            assert(text.skip(1)[i] == text[i + 1]);
        }
        lemma_trim_start_skips(text.skip(1), k - 1);
        assert(text.skip(1).skip(k - 1) =~= text.skip(k));
    }
}

proof fn lemma_trim_end_takes(text: Seq<char>, k: int)
    requires
        0 <= k <= text.len(),
        forall|i: int| k <= i < text.len() ==> is_space(#[trigger] text[i]),
        k > 0 ==> !is_space(text[k - 1]),
    ensures
        trim_end(text) == text.take(k),
    decreases text.len(),
{
    if k == text.len() {
        assert(text.take(k) =~= text);
    } else {
        assert forall|i: int| k <= i < text.drop_last().len() implies is_space(
            #[trigger] text.drop_last()[i],
        ) by {
            assert(text.drop_last()[i] == text[i]);
        }
        lemma_trim_end_takes(text.drop_last(), k);
        assert(text.drop_last().take(k) =~= text.take(k));
    }
}

/// White space at either end of a text is cut off, and no more.
pub proof fn law_trimming_cuts_white_space(before: Seq<char>, text: Seq<char>, after: Seq<char>)
    requires
        forall|i: int| 0 <= i < before.len() ==> is_space(#[trigger] before[i]),
        forall|i: int| 0 <= i < after.len() ==> is_space(#[trigger] after[i]),
        text.len() > 0 ==> !is_space(text[0]) && !is_space(text.last()),
    ensures
        trim(before + text + after) == text,
{
    let all = before + text + after;
    let k = before.len() as int;
    if text.len() == 0 {
        let end = all.len() as int;
        assert forall|i: int| 0 <= i < end implies is_space(#[trigger] all[i]) by {
            if i < k {
                assert(all[i] == before[i]);
            } else {
                assert(all[i] == after[i - k]);
            }
        }
        lemma_trim_start_skips(all, end);
        assert(all.skip(end) =~= text);
        assert(trim_end(text) =~= text);
    } else {
        assert forall|i: int| 0 <= i < k implies is_space(#[trigger] all[i]) by {
            assert(all[i] == before[i]);
        }
        assert(all[k] == text[0]);
        lemma_trim_start_skips(all, k);
        let rest = all.skip(k);
        assert(rest =~= text + after);
        let n = text.len() as int;
        assert forall|i: int| n <= i < rest.len() implies is_space(#[trigger] rest[i]) by {
            assert(rest[i] == after[i - n]);
        }
        assert(rest[n - 1] == text.last());
        lemma_trim_end_takes(rest, n);
        assert(rest.take(n) =~= text);
    }
}

pub proof fn lemma_words_in(text: Seq<char>, c: char)
    requires
        !text.contains(c),
    ensures
        forall|i: int| 0 <= i < words(text).len() ==> !(#[trigger] words(text)[i]).contains(c),
    decreases text.len(),
{
    if text.len() > 0 {
        let k = if is_space(text[0]) {
            1
        } else {
            word_length(text)
        };
        lemma_word_length(text);
        let rest = text.skip(k);
        assert(!rest.contains(c)) by {
            if rest.contains(c) {
                let j = rest.index_of(c);
                assert(text[j + k] == c);
            }
        }
        lemma_words_in(rest, c);
        let all = words(text);
        assert forall|i: int| 0 <= i < all.len() implies !(#[trigger] all[i]).contains(c) by {
            if is_space(text[0]) {
                assert(all[i] == words(rest)[i]);
            } else if i > 0 {
                assert(all[i] == words(rest)[i - 1]);
            } else if all[0].contains(c) {
                let j = all[0].index_of(c);
                assert(text[j] == c);
            }
        }
    }
}

/// The characters without white space at either end.
pub fn trimmed(chars: &[char]) -> (result: Vec<char>)
    ensures
        result@ == trim(chars@),
{
    let mut start: usize = 0;
    while start < chars.len() && is_space_char(chars[start])
        invariant
            start <= chars@.len(),
            forall|i: int| 0 <= i < start ==> is_space(#[trigger] chars@[i]),
        decreases chars@.len() - start,
    {
        start += 1;
    }
    let mut end: usize = chars.len();
    while end > start && is_space_char(chars[end - 1])
        invariant
            start <= end <= chars@.len(),
            forall|i: int| end <= i < chars@.len() ==> is_space(#[trigger] chars@[i]),
        decreases end - start,
    {
        end -= 1;
    }
    let result = copy_chars(chars, start, end);
    proof {
        lemma_trim_start_skips(chars@, start as int);
        let rest = chars@.skip(start as int);
        assert forall|i: int| end - start <= i < rest.len() implies is_space(
            #[trigger] rest[i],
        ) by {
            assert(rest[i] == chars@[start + i]);
        }
        lemma_trim_end_takes(rest, end - start);
        assert(rest.take(end - start) =~= result@);
    }
    result
}

/// The words of a text.
pub fn split_words(chars: &[char]) -> (result: Vec<Vec<char>>)
    ensures
        views(result@) == words(chars@),
{
    broadcast use group_views;

    let mut result: Vec<Vec<char>> = Vec::new();
    let mut i: usize = 0;
    proof {
        assert(chars@.skip(0) =~= chars@);
        assert(views(result@) + words(chars@.skip(0)) =~= words(chars@));
    }
    while i < chars.len()
        invariant
            i <= chars@.len(),
            views(result@) + words(chars@.skip(i as int)) == words(chars@),
        decreases chars@.len() - i,
    {
        let ghost rest = chars@.skip(i as int);
        if is_space_char(chars[i]) {
            proof {
                assert(rest[0] == chars@[i as int]);
                assert(rest.skip(1) =~= chars@.skip(i + 1));
            }
            i += 1;
        } else {
            let mut end: usize = i;
            while end < chars.len() && !is_space_char(chars[end])
                invariant
                    i <= end <= chars@.len(),
                    forall|j: int| i <= j < end ==> !is_space(#[trigger] chars@[j]),
                decreases chars@.len() - end,
            {
                end += 1;
            }
            let word = copy_chars(chars, i, end);
            let ghost before = views(result@);
            proof {
                let k = end - i;
                assert(rest[0] == chars@[i as int]);
                assert forall|j: int| 0 <= j < k implies !is_space(#[trigger] rest[j]) by {
                    assert(rest[j] == chars@[i + j]);
                }
                lemma_word_length_is(rest, k);
                assert(rest.take(k) =~= word@);
                assert(rest.skip(k) =~= chars@.skip(end as int));
            }
            result.push(word);
            proof {
                assert(views(result@) + words(chars@.skip(end as int)) =~= before + (seq![word@]
                    + words(chars@.skip(end as int))));
            }
            i = end;
        }
    }
    proof {
        assert(views(result@) + words(chars@.skip(i as int)) =~= views(result@));
    }
    result
}

/// The text with its ASCII capitals made small.
pub fn lowercased(chars: &[char]) -> (result: Vec<char>)
    ensures
        result@ == lowercase(chars@),
{
    let mut result: Vec<char> = Vec::new();
    let mut i: usize = 0;
    while i < chars.len()
        invariant
            i <= chars@.len(),
            result@ == lowercase(chars@).take(i as int),
        decreases chars@.len() - i,
    {
        let c = chars[i];
        let small = if 'A' <= c && c <= 'Z' {
            (c as u8 + 32) as char
        } else {
            c
        };
        result.push(small);
        proof {
            assert(small == lower(c));
            assert(lowercase(chars@).take(i + 1) =~= lowercase(chars@).take(i as int).push(small));
        }
        i += 1;
    }
    proof {
        assert(lowercase(chars@).take(chars@.len() as int) =~= lowercase(chars@));
    }
    result
}

/// Whether the needle stands at the given place.
fn stands_at(haystack: &[char], needle: &[char], at: usize) -> (stands: bool)
    requires
        at + needle@.len() <= haystack@.len(),
    ensures
        stands == occurs_at(haystack@, needle@, at as int),
{
    let whole = haystack.len();
    let mut i: usize = 0;
    while i < needle.len()
        invariant
            i <= needle@.len(),
            whole == haystack@.len(),
            at + needle@.len() <= whole,
            forall|j: int| 0 <= j < i ==> haystack@[at + j] == needle@[j],
        decreases needle@.len() - i,
    {
        if haystack[at + i] != needle[i] {
            proof {
                assert(haystack@.subrange(at as int, at + needle@.len())[i as int]
                    == haystack@[at + i]);
            }
            return false;
        }
        i += 1;
    }
    proof {
        assert(haystack@.subrange(at as int, at + needle@.len()) =~= needle@);
    }
    true
}

/// Whether the needle occurs in the haystack.
pub fn contains(haystack: &[char], needle: &[char]) -> (found: bool)
    ensures
        found == has_infix(haystack@, needle@),
{
    if needle.len() > haystack.len() {
        return false;
    }
    let last = haystack.len() - needle.len();
    let mut at: usize = 0;
    while at <= last
        invariant
            at <= last + 1,
            last + needle@.len() == haystack@.len(),
            forall|i: int| 0 <= i < at ==> !occurs_at(haystack@, needle@, i),
        decreases last + 1 - at,
    {
        if stands_at(haystack, needle, at) {
            return true;
        }
        if at == last {
            return false;
        }
        at += 1;
    }
    false
}

fn digit_char(value: u64) -> (c: char)
    requires
        value < 10,
    ensures
        c == digit(value as nat),
{
    (48u8 + value as u8) as char
}

/// A number written in decimal.
pub fn decimal_text(value: u64) -> (text: String)
    ensures
        text@ == decimal(value as nat),
    decreases value,
{
    if value < 10 {
        let mut text = String::new();
        text.push(digit_char(value));
        proof {
            assert(text@ =~= seq![digit(value as nat)]);
        }
        text
    } else {
        let mut text = decimal_text(value / 10);
        text.push(digit_char(value % 10));
        text
    }
}

/// How many digits the number has; zero counts as one.
pub open spec fn digit_count(value: nat) -> nat {
    decimal(if value == 0 {
        1
    } else {
        value
    }).len()
}

/// The number of decimal digits of `value`, and of one in place of zero.
pub fn decimal_width(value: usize) -> (width: usize)
    ensures
        width == digit_count(value as nat),
        1 <= width,
{
    let mut rest: usize = if value == 0 {
        1
    } else {
        value
    };
    let mut width: usize = 1;
    let ghost whole = rest;
    while rest >= 10
        invariant
            1 <= width,
            width + rest <= whole + 1,
            decimal(whole as nat).len() == decimal(rest as nat).len() + width - 1,
        decreases rest,
    {
        rest = rest / 10;
        width += 1;
    }
    width
}

proof fn lemma_digits_value_grows(digits: Seq<char>, k: int)
    requires
        0 <= k <= digits.len(),
    ensures
        digits_value(digits.take(k)) <= digits_value(digits),
    decreases digits.len(),
{
    if k == digits.len() {
        assert(digits.take(k) =~= digits);
    } else {
        lemma_digits_value_grows(digits.drop_last(), k);
        assert(digits.drop_last().take(k) =~= digits.take(k));
    }
}

/// The `usize` that the characters write, if they write one.
pub fn parse_number(chars: &[char]) -> (result: Option<usize>)
    ensures
        result == parsed_number(chars@),
{
    let start: usize = if chars.len() > 0 && chars[0] == '+' {
        1
    } else {
        0
    };
    let ghost digits = without_plus(chars@);
    proof {
        assert(digits =~= chars@.skip(start as int));
    }
    if start >= chars.len() {
        return None;
    }
    let mut value: usize = 0;
    let mut i: usize = start;
    while i < chars.len()
        invariant
            start <= i <= chars@.len(),
            digits == chars@.skip(start as int),
            digits == without_plus(chars@),
            forall|j: int| 0 <= j < i - start ==> is_digit(#[trigger] digits[j]),
            value == digits_value(digits.take(i - start)),
        decreases chars@.len() - i,
    {
        let c = chars[i];
        proof {
            assert(digits[i - start] == c);
        }
        if !('0' <= c && c <= '9') {
            return None;
        }
        let unit = (c as u8 - 48) as usize;
        proof {
            let next = digits.take(i - start + 1);
            assert(next.drop_last() =~= digits.take(i - start));
            assert(next.last() == c);
            lemma_digits_value_grows(digits, i - start + 1);
        }
        match value.checked_mul(10) {
            None => {
                return None;
            },
            Some(tens) => match tens.checked_add(unit) {
                None => {
                    return None;
                },
                Some(sum) => {
                    value = sum;
                },
            },
        }
        i += 1;
    }
    proof {
        assert(digits.take(digits.len() as int) =~= digits);
    }
    Some(value)
}

/// `count` spaces.
pub fn space_text(count: usize) -> (text: String)
    ensures
        text@ == spaces(count as nat),
{
    let mut text = String::new();
    let mut i: usize = 0;
    while i < count
        invariant
            i <= count,
            text@ == spaces(i as nat),
        decreases count - i,
    {
        text.push(' ');
        proof {
            assert(spaces((i + 1) as nat) =~= spaces(i as nat).push(' '));
        }
        i += 1;
    }
    proof {
        assert(text@ =~= spaces(count as nat));
    }
    text
}

/// The number in decimal, with spaces before it up to `width` characters.
pub fn aligned_decimal(value: usize, width: usize) -> (text: String)
    ensures
        text@ == right_aligned(decimal(value as nat), width as nat),
{
    let number = decimal_text(value as u64);
    let length = number.as_str().unicode_len();
    if length >= width {
        number
    } else {
        let mut text = space_text(width - length);
        text.append(number.as_str());
        text
    }
}

/// Three texts one after another.
pub fn join3(a: &str, b: &str, c: &str) -> (text: String)
    ensures
        text@ == a@ + b@ + c@,
{
    let mut text = a.to_owned();
    text.append(b);
    text.append(c);
    text
}

/// Capitals are made small, the other characters stay, and the length does too; so text
/// that differs in capitals alone is the same once it is made small.
pub proof fn law_capitals_are_made_small(text: Seq<char>)
    ensures
        lowercase(text).len() == text.len(),
        lowercase(lowercase(text)) == lowercase(text),
        forall|i: int|
            0 <= i < text.len() ==> {
                let c = #[trigger] lowercase(text)[i];
                &&& !('A' <= c <= 'Z')
                &&& !('A' <= text[i] <= 'Z') ==> c == text[i]
                &&& 'A' <= text[i] <= 'Z' ==> 'a' <= c <= 'z' && c as u32 - 'a' as u32 == text[i]
                    as u32 - 'A' as u32
            },
{
    assert(lowercase(lowercase(text)) =~= lowercase(text));
}

/// A number is set right: spaces before it make it as wide as asked, and one that is as
/// wide already stays as it is.
pub proof fn law_numbers_are_set_right(text: Seq<char>, width: nat)
    ensures
        ({
            let shown = right_aligned(text, width);
            &&& shown.len() == if text.len() < width {
                width
            } else {
                text.len()
            }
            &&& shown.skip(shown.len() - text.len()) == text
            &&& forall|i: int| 0 <= i < shown.len() - text.len() ==> #[trigger] shown[i] == ' '
        }),
{
    assert(right_aligned(text, width).skip(right_aligned(text, width).len() - text.len())
        =~= text);
}

} // verus!
