//! How many cells text takes on the screen.
use unicode_width::{UnicodeWidthChar, UnicodeWidthStr};
use vstd::prelude::*;

use crate::layout::spec_min;
use crate::text::to_chars;

verus! {

/// How many cells a character takes; `None` for a control character.
pub uninterp spec fn char_cells(c: char) -> Option<usize>;

/// How many cells a text takes.
pub uninterp spec fn text_cells(text: Seq<char>) -> usize;

/// `unicode_width::UnicodeWidthChar::width`: a function of the character. The
/// widths themselves are left to the name.
#[verifier::external_body]
pub(crate) fn char_width(c: char) -> (cells: Option<usize>)
    ensures
        cells == char_cells(c),
{
    UnicodeWidthChar::width(c)
}

/// `unicode_width::UnicodeWidthStr::width`: a function of the text. It is not in
/// general the sum over the characters, and is left to the name.
#[verifier::external_body]
pub(crate) fn str_width(text: &str) -> (cells: usize)
    ensures
        cells == text_cells(text@),
{
    UnicodeWidthStr::width(text)
}

/// Cells of a character, none for a control character.
pub open spec fn cells(c: char) -> int {
    match char_cells(c) {
        Some(width) => width as int,
        None => 0,
    }
}

pub fn cells_of(c: char) -> (width: usize)
    ensures
        width == cells(c),
{
    match char_width(c) {
        Some(width) => width,
        None => 0,
    }
}

/// A sum that stops at the largest number there is.
pub open spec fn plus(a: int, b: int) -> int {
    spec_min(a + b, usize::MAX as int)
}

/// Cells of the characters together.
pub open spec fn char_total(chars: Seq<char>) -> int
    decreases chars.len(),
{
    if chars.len() == 0 {
        0
    } else {
        plus(char_total(chars.drop_last()), cells(chars.last()))
    }
}

/// Cells of the characters together.
pub fn chars_width(chars: &[char]) -> (width: usize)
    ensures
        width == char_total(chars@),
{
    let mut width: usize = 0;
    let mut i: usize = 0;
    proof {
        assert(chars@.take(0) =~= Seq::empty());
    }
    while i < chars.len()
        invariant
            i <= chars@.len(),
            width == char_total(chars@.take(i as int)),
        decreases chars@.len() - i,
    {
        proof {
            assert(chars@.take(i + 1).drop_last() =~= chars@.take(i as int));
            assert(chars@.take(i + 1).last() == chars@[i as int]);
        }
        width = width.saturating_add(cells_of(chars[i]));
        i += 1;
    }
    proof {
        assert(chars@.take(i as int) =~= chars@);
    }
    width
}

/// The longest beginning of a label that leaves room for one more cell.
pub open spec fn label_start(label: Seq<char>, width: int, max_width: int) -> Seq<char>
    decreases label.len(),
{
    if label.len() == 0 || plus(width, cells(label[0])) >= max_width {
        Seq::empty()
    } else {
        seq![label[0]] + label_start(label.skip(1), plus(width, cells(label[0])), max_width)
    }
}

/// The label where it fits, else its beginning and an ellipsis.
pub open spec fn short_label(label: Seq<char>, max_width: int) -> Seq<char> {
    if char_total(label) <= max_width {
        label
    } else if max_width <= 1 {
        "…"@
    } else {
        label_start(label, 0, max_width).push('…')
    }
}

/// The label where it fits, else its beginning and an ellipsis.
pub fn truncate_label(label: &str, max_width: usize) -> (result: String)
    ensures
        result@ == short_label(label@, max_width as int),
{
    let chars = to_chars(label);
    if chars_width(&chars) <= max_width {
        return label.to_owned();
    }
    if max_width <= 1 {
        return "…".to_owned();
    }
    let mut output = String::new();
    let mut width: usize = 0;
    let mut i: usize = 0;
    let ghost wanted = label_start(label@, 0, max_width as int);
    proof {
        assert(chars@.skip(0) =~= chars@);
        assert(output@ + wanted =~= wanted);
    }
    while i < chars.len()
        invariant_except_break
            output@ + label_start(chars@.skip(i as int), width as int, max_width as int) == wanted,
        invariant
            i <= chars@.len(),
        ensures
            output@ == wanted,
        decreases chars@.len() - i,
    {
        let ghost rest = chars@.skip(i as int);
        let next = width.saturating_add(cells_of(chars[i]));
        proof {
            assert(rest[0] == chars@[i as int]);
            assert(rest.skip(1) =~= chars@.skip(i + 1));
        }
        if next >= max_width {
            proof {
                assert(output@ + Seq::<char>::empty() =~= output@);
            }
            break;
        }
        let ghost before = output@;
        output.push(chars[i]);
        proof {
            assert(before + (seq![rest[0]] + label_start(
                rest.skip(1),
                next as int,
                max_width as int,
            )) =~= output@ + label_start(rest.skip(1), next as int, max_width as int));
        }
        width = next;
        i += 1;
        proof {
            if i == chars@.len() {
                assert(chars@.skip(i as int) =~= Seq::empty());
                assert(output@ + Seq::<char>::empty() =~= output@);
            }
        }
    }
    output.push('…');
    output
}

proof fn lemma_label_start_fits(label: Seq<char>, width: int, max_width: int)
    requires
        0 <= width < max_width,
    ensures
        label_start(label, width, max_width).is_prefix_of(label),
        plus(width, char_sum(label_start(label, width, max_width))) < max_width,
    decreases label.len(),
{
    let start = label_start(label, width, max_width);
    if label.len() == 0 || plus(width, cells(label[0])) >= max_width {
    } else {
        let rest = label_start(label.skip(1), plus(width, cells(label[0])), max_width);
        lemma_label_start_fits(label.skip(1), plus(width, cells(label[0])), max_width);
        assert(start =~= seq![label[0]] + rest);
        assert(start.skip(1) =~= rest);
        assert forall|i: int| 0 <= i < start.len() implies start[i] == label[i] by {
            if i > 0 {
                assert(start[i] == rest[i - 1]);
                assert(label.skip(1)[i - 1] == label[i]);
            }
        }
    }
}

/// Cells of the characters, added up from the first.
pub open spec fn char_sum(chars: Seq<char>) -> int
    decreases chars.len(),
{
    if chars.len() == 0 {
        0
    } else {
        cells(chars[0]) + char_sum(chars.skip(1))
    }
}

/// A label is left alone where it fits; else what stays is a beginning of it
/// that leaves a cell for the ellipsis.
pub proof fn law_short_label_fits(label: Seq<char>, max_width: int)
    requires
        1 < max_width <= usize::MAX,
    ensures
        char_total(label) <= max_width ==> short_label(label, max_width) == label,
        char_total(label) > max_width ==> {
            let kept = short_label(label, max_width).drop_last();
            &&& short_label(label, max_width).len() > 0
            &&& short_label(label, max_width).last() == '…'
            &&& kept.is_prefix_of(label)
            &&& char_sum(kept) < max_width
        },
{
    if char_total(label) > max_width {
        lemma_label_start_fits(label, 0, max_width);
        assert(short_label(label, max_width).drop_last() =~= label_start(label, 0, max_width));
    }
}

proof fn lemma_label_start_is_longest(label: Seq<char>, width: int, max_width: int)
    requires
        0 <= width < max_width <= usize::MAX,
        width + char_sum(label) >= max_width,
    ensures
        ({
            let kept = label_start(label, width, max_width);
            &&& kept.len() < label.len()
            &&& width + char_sum(kept) + cells(label[kept.len() as int]) >= max_width
        }),
    decreases label.len(),
{
    if plus(width, cells(label[0])) < max_width {
        let rest = label.skip(1);
        let next = plus(width, cells(label[0]));
        lemma_label_start_is_longest(rest, next, max_width);
        let kept = label_start(label, width, max_width);
        let tail = label_start(rest, next, max_width);
        assert(kept =~= seq![label[0]] + tail);
        assert(kept.skip(1) =~= tail);
        assert(rest[tail.len() as int] == label[kept.len() as int]);
    }
}

proof fn lemma_total_is_sum(chars: Seq<char>)
    ensures
        char_sum(chars) >= char_total(chars) >= 0,
    decreases chars.len(),
{
    if chars.len() > 0 {
        lemma_total_is_sum(chars.drop_last());
        lemma_sum_push(chars.drop_last(), chars.last());
        assert(chars.drop_last().push(chars.last()) =~= chars);
    }
}

proof fn lemma_sum_push(chars: Seq<char>, c: char)
    ensures
        char_sum(chars.push(c)) == char_sum(chars) + cells(c),
    decreases chars.len(),
{
    reveal_with_fuel(char_sum, 2);
    let all = chars.push(c);
    if chars.len() == 0 {
        assert(all.skip(1) =~= Seq::empty());
    } else {
        lemma_sum_push(chars.skip(1), c);
        assert(all.skip(1) =~= chars.skip(1).push(c));
    }
}

/// As much of a label stays as there is room for: with its next character there would be
/// no cell left for the ellipsis.
pub proof fn law_short_labels_are_as_long_as_they_can_be(label: Seq<char>, max_width: int)
    requires
        1 < max_width <= usize::MAX,
        char_total(label) > max_width,
    ensures
        ({
            let kept = short_label(label, max_width).drop_last();
            &&& kept.len() < label.len()
            &&& char_sum(kept) + cells(label[kept.len() as int]) >= max_width
        }),
{
    lemma_total_is_sum(label);
    lemma_label_start_is_longest(label, 0, max_width);
    let start = label_start(label, 0, max_width);
    assert(start.push('…').drop_last() =~= start);
}

} // verus!
