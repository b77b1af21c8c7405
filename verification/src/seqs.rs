//! Sequences cut at a separator, searched, and joined.
use vstd::prelude::*;

verus! {

/// Index of the first `x` in `s`, or the length of `s` where there is none.
pub open spec fn first_index<T>(s: Seq<T>, x: T) -> int
    decreases s.len(),
{
    if s.len() == 0 || s[0] == x {
        0
    } else {
        1 + first_index(s.skip(1), x)
    }
}

/// The pieces of `s` between the separators; always at least one piece.
pub open spec fn split<T>(s: Seq<T>, separator: T) -> Seq<Seq<T>>
    decreases s.len(),
{
    let k = first_index(s, separator);
    if k >= s.len() {
        seq![s]
    } else {
        proof {
            lemma_first_index(s, separator);
        }
        seq![s.take(k)] + split(s.skip(k + 1), separator)
    }
}

/// The views of all the elements.
pub open spec fn views<T: View>(s: Seq<T>) -> Seq<T::V> {
    Seq::new(s.len(), |i: int| s[i]@)
}

/// The view of what an option holds.
pub open spec fn option_view<T: View>(value: Option<T>) -> Option<T::V> {
    match value {
        Some(inner) => Some(inner@),
        None => None,
    }
}

pub broadcast proof fn lemma_views_push<T: View>(s: Seq<T>, x: T)
    ensures
        #[trigger] views(s.push(x)) == views(s).push(x@),
{
    assert(views(s.push(x)) =~= views(s).push(x@));
}

pub broadcast proof fn lemma_views_empty<T: View>()
    ensures
        #[trigger] views(Seq::<T>::empty()) == Seq::<T::V>::empty(),
{
    assert(views(Seq::<T>::empty()) =~= Seq::<T::V>::empty());
}

pub broadcast group group_views {
    lemma_views_push,
    lemma_views_empty,
}

/// Whether `needle` occurs in `haystack` without gaps.
pub open spec fn has_infix<T>(haystack: Seq<T>, needle: Seq<T>) -> bool {
    exists|i: int| #[trigger] occurs_at(haystack, needle, i)
}

pub open spec fn occurs_at<T>(haystack: Seq<T>, needle: Seq<T>, i: int) -> bool {
    &&& 0 <= i <= haystack.len() - needle.len()
    &&& haystack.subrange(i, i + needle.len()) == needle
}

/// All the pieces one after another.
pub open spec fn concat_all<T>(pieces: Seq<Seq<T>>) -> Seq<T>
    decreases pieces.len(),
{
    if pieces.len() == 0 {
        Seq::empty()
    } else {
        pieces[0] + concat_all(pieces.skip(1))
    }
}

pub proof fn lemma_first_index<T>(s: Seq<T>, x: T)
    ensures
        0 <= first_index(s, x) <= s.len(),
        forall|i: int| 0 <= i < first_index(s, x) ==> s[i] != x,
        first_index(s, x) < s.len() ==> s[first_index(s, x)] == x,
    decreases s.len(),
{
    if s.len() == 0 || s[0] == x {
    } else {
        lemma_first_index(s.skip(1), x);
        assert forall|i: int| 0 <= i < first_index(s, x) implies s[i] != x by {
            if i > 0 {
                assert(s.skip(1)[i - 1] == s[i]);
            }
        }
    }
}

/// The first index is the only one with nothing equal before it.
pub proof fn lemma_first_index_is<T>(s: Seq<T>, x: T, k: int)
    requires
        0 <= k <= s.len(),
        forall|i: int| 0 <= i < k ==> s[i] != x,
        k < s.len() ==> s[k] == x,
    ensures
        first_index(s, x) == k,
{
    lemma_first_index(s, x);
    let f = first_index(s, x);
    if f < k {
        assert(s[f] != x);
    } else if k < f {
        assert(s[k] != x);
    }
}

pub proof fn lemma_split_nonempty<T>(s: Seq<T>, separator: T)
    ensures
        split(s, separator).len() > 0,
{
}

/// No piece holds the separator.
pub proof fn lemma_split_pieces_free<T>(s: Seq<T>, separator: T)
    ensures
        forall|i: int, j: int|
            #![trigger split(s, separator)[i][j]]
            0 <= i < split(s, separator).len() && 0 <= j < split(s, separator)[i].len()
                ==> split(s, separator)[i][j] != separator,
    decreases s.len(),
{
    lemma_first_index(s, separator);
    let k = first_index(s, separator);
    if k < s.len() {
        lemma_split_pieces_free(s.skip(k + 1), separator);
        let rest = split(s.skip(k + 1), separator);
        let all = split(s, separator);
        assert forall|i: int, j: int|
            #![trigger all[i][j]]
            0 <= i < all.len() && 0 <= j < all[i].len() implies all[i][j] != separator by {
            if i > 0 {
                assert(all[i] == rest[i - 1]);
                assert(rest[i - 1][j] != separator);
            }
        }
    }
}

/// A sequence without the separator is its own single piece.
pub proof fn lemma_split_single<T>(s: Seq<T>, separator: T)
    requires
        forall|i: int| 0 <= i < s.len() ==> s[i] != separator,
    ensures
        split(s, separator) == seq![s],
{
    lemma_first_index_is(s, separator, s.len() as int);
}

/// Splitting at a known first separator.
pub proof fn lemma_split_step<T>(s: Seq<T>, separator: T, k: int)
    requires
        0 <= k < s.len(),
        forall|i: int| 0 <= i < k ==> s[i] != separator,
        s[k] == separator,
    ensures
        split(s, separator) == seq![s.take(k)] + split(s.skip(k + 1), separator),
{
    lemma_first_index_is(s, separator, k);
}

/// A piece without the separator, with the separator behind it, is cut off first.
pub proof fn lemma_split_after<T>(piece: Seq<T>, rest: Seq<T>, separator: T)
    requires
        forall|i: int| 0 <= i < piece.len() ==> piece[i] != separator,
    ensures
        split(piece + seq![separator] + rest, separator) == seq![piece] + split(rest, separator),
{
    let all = piece + seq![separator] + rest;
    let k = piece.len() as int;
    assert(all[k] == separator);
    assert forall|i: int| 0 <= i < k implies all[i] != separator by {
        assert(all[i] == piece[i]);
    }
    lemma_split_step(all, separator, k);
    assert(all.take(k) =~= piece);
    assert(all.skip(k + 1) =~= rest);
}

/// Copies a stretch of bytes.
pub fn copy_bytes(bytes: &[u8], from: usize, to: usize) -> (copy: Vec<u8>)
    requires
        from <= to <= bytes@.len(),
    ensures
        copy@ == bytes@.subrange(from as int, to as int),
{
    let mut copy: Vec<u8> = Vec::new();
    let mut i: usize = from;
    while i < to
        invariant
            from <= i <= to <= bytes@.len(),
            copy@ == bytes@.subrange(from as int, i as int),
        decreases to - i,
    {
        copy.push(bytes[i]);
        proof {
            assert(bytes@.subrange(from as int, i + 1) =~= bytes@.subrange(
                from as int,
                i as int,
            ).push(bytes@[i as int]));
        }
        i += 1;
    }
    copy
}

/// The pieces of `bytes` between the separators.
pub fn split_bytes(bytes: &[u8], separator: u8) -> (pieces: Vec<Vec<u8>>)
    ensures
        views(pieces@) == split(bytes@, separator),
{
    broadcast use group_views;

    let mut pieces: Vec<Vec<u8>> = Vec::new();
    let mut start: usize = 0;
    let mut i: usize = 0;
    proof {
        assert(bytes@.skip(0) =~= bytes@);
        assert(views(pieces@) + split(bytes@.skip(0), separator) =~= split(bytes@, separator));
    }
    while i < bytes.len()
        invariant
            start <= i <= bytes@.len(),
            forall|j: int| start <= j < i ==> bytes@[j] != separator,
            views(pieces@) + split(bytes@.skip(start as int), separator) == split(
                bytes@,
                separator,
            ),
        decreases bytes@.len() - i,
    {
        if bytes[i] == separator {
            let piece = copy_bytes(bytes, start, i);
            let ghost before = views(pieces@);
            proof {
                let rest = bytes@.skip(start as int);
                let k = i - start;
                lemma_split_step(rest, separator, k);
                assert(rest.take(k) =~= piece@);
                assert(rest.skip(k + 1) =~= bytes@.skip(i + 1));
            }
            pieces.push(piece);
            proof {
                assert(views(pieces@) + split(bytes@.skip(i + 1), separator) =~= before + (
                seq![piece@] + split(bytes@.skip(i + 1), separator)));
            }
            start = i + 1;
        }
        i += 1;
    }
    let last = copy_bytes(bytes, start, bytes.len());
    let ghost before = views(pieces@);
    proof {
        assert(bytes@.skip(start as int) =~= last@);
        lemma_split_single(last@, separator);
    }
    pieces.push(last);
    proof {
        assert(views(pieces@) =~= before + seq![last@]);
    }
    pieces
}

/// Whether the two byte strings are the same.
pub fn bytes_equal(a: &[u8], b: &[u8]) -> (same: bool)
    ensures
        same == (a@ == b@),
{
    if a.len() != b.len() {
        return false;
    }
    let mut i: usize = 0;
    while i < a.len()
        invariant
            i <= a@.len(),
            a@.len() == b@.len(),
            forall|j: int| 0 <= j < i ==> a@[j] == b@[j],
        decreases a@.len() - i,
    {
        if a[i] != b[i] {
            return false;
        }
        i += 1;
    }
    proof {
        assert(a@ =~= b@);
    }
    true
}

} // verus!
