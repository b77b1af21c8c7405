//! Slash-separated byte paths and their components.
use vstd::prelude::*;

use crate::seqs::{
    bytes_equal, copy_bytes, first_index, group_views, lemma_first_index, lemma_split_single,
    lemma_split_step, option_view, split, split_bytes, views,
};

verus! {

pub const SEPARATOR: u8 = 47;

pub const DOT: u8 = 46;

/// One step of a path.
#[derive(Debug)]
pub enum Component {
    RootDir,
    CurDir,
    ParentDir,
    Normal(Vec<u8>),
}

pub ghost enum ComponentView {
    RootDir,
    CurDir,
    ParentDir,
    Normal(Seq<u8>),
}

impl View for Component {
    type V = ComponentView;

    open spec fn view(&self) -> ComponentView {
        match self {
            Component::RootDir => ComponentView::RootDir,
            Component::CurDir => ComponentView::CurDir,
            Component::ParentDir => ComponentView::ParentDir,
            Component::Normal(name) => ComponentView::Normal(name@),
        }
    }
}

/// What a piece between separators stands for: nothing where it is empty, and
/// nothing for a dot that does not lead a relative path.
pub open spec fn piece_component(piece: Seq<u8>, leading: bool) -> Option<ComponentView> {
    if piece.len() == 0 {
        None
    } else if piece == seq![DOT] {
        if leading {
            Some(ComponentView::CurDir)
        } else {
            None
        }
    } else if piece == seq![DOT, DOT] {
        Some(ComponentView::ParentDir)
    } else {
        Some(ComponentView::Normal(piece))
    }
}

pub open spec fn some_seq<T>(value: Option<T>) -> Seq<T> {
    match value {
        Some(inner) => seq![inner],
        None => Seq::empty(),
    }
}

pub open spec fn piece_components(pieces: Seq<Seq<u8>>, leading: bool) -> Seq<ComponentView>
    decreases pieces.len(),
{
    if pieces.len() == 0 {
        Seq::empty()
    } else {
        some_seq(piece_component(pieces[0], leading)) + piece_components(pieces.skip(1), false)
    }
}

/// Whether the path starts at the root.
pub open spec fn absolute(path: Seq<u8>) -> bool {
    path.len() > 0 && path[0] == SEPARATOR
}

/// The components of a path. Repeated separators, a trailing one, and dots that
/// do not lead the path count for nothing.
pub open spec fn components(path: Seq<u8>) -> Seq<ComponentView> {
    if absolute(path) {
        seq![ComponentView::RootDir] + piece_components(split(path, SEPARATOR), false)
    } else {
        piece_components(split(path, SEPARATOR), true)
    }
}

/// The names among the components.
pub open spec fn normal_names(parts: Seq<ComponentView>) -> Seq<Seq<u8>>
    decreases parts.len(),
{
    if parts.len() == 0 {
        Seq::empty()
    } else {
        (match parts[0] {
            ComponentView::Normal(name) => seq![name],
            _ => Seq::empty(),
        }) + normal_names(parts.skip(1))
    }
}

/// The name that the path ends in, if it ends in one.
pub open spec fn final_name(path: Seq<u8>) -> Option<Seq<u8>> {
    let parts = components(path);
    if parts.len() == 0 {
        None
    } else {
        match parts.last() {
            ComponentView::Normal(name) => Some(name),
            _ => None,
        }
    }
}

/// Index of the last separator, or -1.
pub open spec fn last_separator(path: Seq<u8>) -> int
    decreases path.len(),
{
    if path.len() == 0 {
        -1
    } else if path.last() == SEPARATOR {
        path.len() - 1
    } else {
        last_separator(path.drop_last())
    }
}

/// The path without trailing separators and trailing dots; the root stays.
pub open spec fn trim_right(path: Seq<u8>) -> Seq<u8>
    decreases path.len(),
{
    let k = last_separator(path);
    if k < 0 || k >= path.len() {
        path
    } else if k + 1 == path.len() || path.skip(k + 1) == seq![DOT] {
        if k == 0 {
            path.take(1)
        } else {
            trim_right(path.take(k))
        }
    } else {
        path
    }
}

/// The path without its last component. The empty path and the root have no
/// parent; a single name has the empty path.
pub open spec fn parent_path(path: Seq<u8>) -> Option<Seq<u8>> {
    let whole = trim_right(path);
    let k = last_separator(whole);
    if whole.len() == 0 || whole == seq![SEPARATOR] {
        None
    } else if k < 0 {
        Some(Seq::empty())
    } else if k == 0 {
        Some(whole.take(1))
    } else {
        Some(trim_right(whole.take(k)))
    }
}

/// `path` read from inside `base`: an absolute path stands for itself.
pub open spec fn joined(base: Seq<u8>, path: Seq<u8>) -> Seq<u8> {
    if absolute(path) {
        path
    } else if base.len() == 0 || base.last() == SEPARATOR {
        base + path
    } else {
        base.push(SEPARATOR) + path
    }
}

/// Components order by kind, the names among themselves byte by byte.
pub open spec fn kind_rank(part: ComponentView) -> int {
    match part {
        ComponentView::RootDir => 0,
        ComponentView::CurDir => 1,
        ComponentView::ParentDir => 2,
        ComponentView::Normal(_) => 3,
    }
}

pub open spec fn bytes_before(a: Seq<u8>, b: Seq<u8>) -> bool
    decreases a.len(),
{
    if b.len() == 0 {
        false
    } else if a.len() == 0 {
        true
    } else if a[0] != b[0] {
        a[0] < b[0]
    } else {
        bytes_before(a.skip(1), b.skip(1))
    }
}

pub open spec fn part_before(a: ComponentView, b: ComponentView) -> bool {
    match (a, b) {
        (ComponentView::Normal(x), ComponentView::Normal(y)) => bytes_before(x, y),
        _ => kind_rank(a) < kind_rank(b),
    }
}

/// Paths order component by component, a shorter one before its extensions.
pub open spec fn parts_before(a: Seq<ComponentView>, b: Seq<ComponentView>) -> bool
    decreases a.len(),
{
    if b.len() == 0 {
        false
    } else if a.len() == 0 {
        true
    } else if a[0] != b[0] {
        part_before(a[0], b[0])
    } else {
        parts_before(a.skip(1), b.skip(1))
    }
}

pub proof fn lemma_bytes_before_total(a: Seq<u8>, b: Seq<u8>)
    ensures
        a != b ==> bytes_before(a, b) || bytes_before(b, a),
        !(bytes_before(a, b) && bytes_before(b, a)),
        !bytes_before(a, a),
    decreases a.len(),
{
    if a.len() > 0 {
        lemma_bytes_before_total(a.skip(1), a.skip(1));
    }
    if a.len() > 0 && b.len() > 0 {
        lemma_bytes_before_total(a.skip(1), b.skip(1));
        if a[0] == b[0] && a.skip(1) == b.skip(1) {
            assert(a =~= seq![a[0]] + a.skip(1));
            assert(b =~= seq![b[0]] + b.skip(1));
        }
    } else if a.len() == 0 && b.len() == 0 {
        assert(a =~= b);
    }
}

pub proof fn lemma_bytes_before_transitive(a: Seq<u8>, b: Seq<u8>, c: Seq<u8>)
    requires
        bytes_before(a, b),
        bytes_before(b, c),
    ensures
        bytes_before(a, c),
    decreases a.len(),
{
    if a.len() > 0 && b.len() > 0 && c.len() > 0 && a[0] == b[0] && b[0] == c[0] {
        lemma_bytes_before_transitive(a.skip(1), b.skip(1), c.skip(1));
    }
}

proof fn lemma_part_before_total(a: ComponentView, b: ComponentView)
    ensures
        a != b ==> part_before(a, b) || part_before(b, a),
        !(part_before(a, b) && part_before(b, a)),
{
    if let (ComponentView::Normal(x), ComponentView::Normal(y)) = (a, b) {
        lemma_bytes_before_total(x, y);
    }
}

proof fn lemma_part_before_transitive(a: ComponentView, b: ComponentView, c: ComponentView)
    requires
        part_before(a, b),
        part_before(b, c),
    ensures
        part_before(a, c),
{
    if let (ComponentView::Normal(x), ComponentView::Normal(y)) = (a, b) {
        if let ComponentView::Normal(z) = c {
            lemma_bytes_before_transitive(x, y, z);
        }
    }
}

/// Of two different component sequences exactly one is before the other.
pub proof fn lemma_parts_before_total(a: Seq<ComponentView>, b: Seq<ComponentView>)
    ensures
        a != b ==> parts_before(a, b) || parts_before(b, a),
        !(parts_before(a, b) && parts_before(b, a)),
        !parts_before(a, a),
    decreases a.len(),
{
    if a.len() > 0 {
        lemma_parts_before_total(a.skip(1), a.skip(1));
    }
    if a.len() > 0 && b.len() > 0 {
        lemma_parts_before_total(a.skip(1), b.skip(1));
        lemma_part_before_total(a[0], b[0]);
        if a[0] == b[0] && a.skip(1) == b.skip(1) {
            assert(a =~= seq![a[0]] + a.skip(1));
            assert(b =~= seq![b[0]] + b.skip(1));
        }
    } else if a.len() == 0 && b.len() == 0 {
        assert(a =~= b);
    }
}

/// The order of component sequences is transitive.
pub proof fn lemma_parts_before_transitive(
    a: Seq<ComponentView>,
    b: Seq<ComponentView>,
    c: Seq<ComponentView>,
)
    requires
        parts_before(a, b),
        parts_before(b, c),
    ensures
        parts_before(a, c),
    decreases a.len(),
{
    if a.len() > 0 && b.len() > 0 && c.len() > 0 {
        if a[0] == b[0] && b[0] == c[0] {
            lemma_parts_before_transitive(a.skip(1), b.skip(1), c.skip(1));
        } else if a[0] != b[0] && b[0] != c[0] {
            lemma_part_before_transitive(a[0], b[0], c[0]);
            lemma_part_before_total(a[0], c[0]);
            lemma_part_before_total(a[0], b[0]);
        }
    }
}

proof fn lemma_one_piece(piece: Seq<u8>, leading: bool)
    ensures
        piece_components(seq![piece], leading) == some_seq(piece_component(piece, leading)),
{
    reveal_with_fuel(piece_components, 2);
    assert(seq![piece].skip(1) =~= Seq::empty());
    assert(piece_components(seq![piece], leading) =~= some_seq(piece_component(piece, leading)));
}

proof fn lemma_piece_components_push(pieces: Seq<Seq<u8>>, piece: Seq<u8>, leading: bool)
    ensures
        piece_components(pieces.push(piece), leading) == piece_components(pieces, leading)
            + some_seq(piece_component(piece, leading && pieces.len() == 0)),
    decreases pieces.len(),
{
    let all = pieces.push(piece);
    if pieces.len() == 0 {
        assert(all =~= seq![piece]);
        lemma_one_piece(piece, leading);
        assert(piece_components(pieces, leading) + some_seq(piece_component(piece, leading))
            =~= some_seq(piece_component(piece, leading)));
    } else {
        assert(all.skip(1) =~= pieces.skip(1).push(piece));
        lemma_piece_components_push(pieces.skip(1), piece, false);
        assert(piece_components(all, leading) =~= piece_components(pieces, leading) + some_seq(
            piece_component(piece, false),
        ));
    }
}

pub proof fn lemma_last_separator(path: Seq<u8>)
    ensures
        -1 <= last_separator(path) < path.len(),
        last_separator(path) >= 0 ==> path[last_separator(path)] == SEPARATOR,
        forall|i: int| last_separator(path) < i < path.len() ==> path[i] != SEPARATOR,
    decreases path.len(),
{
    if path.len() > 0 && path.last() != SEPARATOR {
        lemma_last_separator(path.drop_last());
        assert forall|i: int| last_separator(path) < i < path.len() implies path[i]
            != SEPARATOR by {
            if i < path.len() - 1 {
                assert(path.drop_last()[i] == path[i]);
            }
        }
    }
}

/// The last piece is what follows the last separator.
proof fn lemma_split_last(path: Seq<u8>, k: int)
    requires
        0 <= k < path.len(),
        path[k] == SEPARATOR,
        forall|i: int| k < i < path.len() ==> path[i] != SEPARATOR,
    ensures
        split(path, SEPARATOR) == split(path.take(k), SEPARATOR).push(path.skip(k + 1)),
    decreases path.len(),
{
    lemma_first_index(path, SEPARATOR);
    let f = first_index(path, SEPARATOR);
    lemma_split_step(path, SEPARATOR, f);
    if f == k {
        lemma_split_single(path.take(k), SEPARATOR);
        lemma_split_single(path.skip(k + 1), SEPARATOR);
        assert(split(path, SEPARATOR) =~= split(path.take(k), SEPARATOR).push(path.skip(k + 1)));
    } else {
        let rest = path.skip(f + 1);
        lemma_split_last(rest, k - f - 1);
        lemma_split_step(path.take(k), SEPARATOR, f);
        assert(path.take(k).take(f) =~= path.take(f));
        assert(path.take(k).skip(f + 1) =~= rest.take(k - f - 1));
        assert(rest.skip(k - f) =~= path.skip(k + 1));
        assert(split(path, SEPARATOR) =~= split(path.take(k), SEPARATOR).push(path.skip(k + 1)));
    }
}

/// Cutting a path at its last separator cuts its components there.
pub proof fn lemma_components_last(path: Seq<u8>, k: int)
    requires
        0 < k < path.len(),
        path[k] == SEPARATOR,
        forall|i: int| k < i < path.len() ==> path[i] != SEPARATOR,
    ensures
        components(path) == components(path.take(k)) + some_seq(
            piece_component(path.skip(k + 1), false),
        ),
{
    lemma_split_last(path, k);
    let pieces = split(path.take(k), SEPARATOR);
    lemma_piece_components_push(pieces, path.skip(k + 1), !absolute(path));
    assert(components(path) =~= components(path.take(k)) + some_seq(
        piece_component(path.skip(k + 1), false),
    ));
}

/// A path without separators has at most one component.
pub proof fn lemma_single_piece(path: Seq<u8>)
    requires
        !path.contains(SEPARATOR),
    ensures
        components(path) == some_seq(piece_component(path, true)),
{
    assert forall|i: int| 0 <= i < path.len() implies path[i] != SEPARATOR by {
        assert(path.contains(path[i]));
    }
    lemma_split_single(path, SEPARATOR);
    lemma_one_piece(path, true);
}

proof fn lemma_root_components(path: Seq<u8>)
    requires
        absolute(path),
        forall|i: int| 0 < i < path.len() ==> path[i] != SEPARATOR,
    ensures
        components(path) == seq![ComponentView::RootDir] + some_seq(
            piece_component(path.skip(1), false),
        ),
{
    lemma_split_last(path, 0);
    lemma_split_single(path.take(0), SEPARATOR);
    lemma_piece_components_push(seq![path.take(0)], path.skip(1), false);
    lemma_one_piece(path.take(0), false);
    assert(components(path) =~= seq![ComponentView::RootDir] + some_seq(
        piece_component(path.skip(1), false),
    ));
}

/// Trailing separators and dots are no components.
pub proof fn lemma_trim_right_components(path: Seq<u8>)
    ensures
        components(trim_right(path)) == components(path),
    decreases path.len(),
{
    lemma_last_separator(path);
    let k = last_separator(path);
    if k >= 0 && (k + 1 == path.len() || path.skip(k + 1) == seq![DOT]) {
        assert(path.skip(k + 1).len() == 0 || path.skip(k + 1) == seq![DOT]);
        if k == 0 {
            lemma_root_components(path);
            lemma_root_components(path.take(1));
            assert(path.take(1).skip(1).len() == 0);
            assert(components(path) =~= components(path.take(1)));
        } else {
            lemma_components_last(path, k);
            lemma_trim_right_components(path.take(k));
            assert(components(path) =~= components(path.take(k)));
        }
    }
}

proof fn lemma_trim_right_ends(path: Seq<u8>)
    ensures
        ({
            let whole = trim_right(path);
            let k = last_separator(whole);
            &&& whole.len() <= path.len()
            &&& (k >= 0 && whole != seq![SEPARATOR]) ==> whole.skip(k + 1).len() > 0 && whole.skip(
                k + 1,
            ) != seq![DOT]
        }),
    decreases path.len(),
{
    lemma_last_separator(path);
    let k = last_separator(path);
    if k >= 0 && (k + 1 == path.len() || path.skip(k + 1) == seq![DOT]) {
        if k == 0 {
            assert(path.take(1) =~= seq![SEPARATOR]);
        } else {
            lemma_trim_right_ends(path.take(k));
        }
    }
}

/// The parent has the components of the path but for the last one, and a path
/// without a parent has none, or the root alone.
pub proof fn lemma_parent_components(path: Seq<u8>)
    ensures
        parent_path(path) matches Some(parent) ==> components(path).len() > 0 && components(parent)
            == components(path).drop_last() && components(path).last() != ComponentView::RootDir,
        parent_path(path) is None ==> components(path).len() == 0 || components(path)
            == seq![ComponentView::RootDir],
{
    let whole = trim_right(path);
    lemma_trim_right_components(path);
    lemma_trim_right_ends(path);
    lemma_last_separator(whole);
    let k = last_separator(whole);
    if whole.len() == 0 {
        lemma_split_single(whole, SEPARATOR);
        lemma_one_piece(whole, true);
    } else if whole == seq![SEPARATOR] {
        lemma_root_components(whole);
        assert(whole.skip(1).len() == 0);
        assert(components(whole) =~= seq![ComponentView::RootDir]);
    } else if k < 0 {
        lemma_split_single(whole, SEPARATOR);
        let empty = Seq::<u8>::empty();
        lemma_split_single(empty, SEPARATOR);
        lemma_one_piece(whole, true);
        lemma_one_piece(empty, true);
        assert(components(whole).drop_last() =~= Seq::empty());
    } else if k == 0 {
        lemma_root_components(whole);
        lemma_root_components(whole.take(1));
        assert(whole.take(1).skip(1).len() == 0);
        assert(components(whole.take(1)) =~= seq![ComponentView::RootDir]);
        assert(components(whole).drop_last() =~= components(whole.take(1)));
    } else {
        lemma_components_last(whole, k);
        lemma_trim_right_components(whole.take(k));
        assert(components(whole).drop_last() =~= components(whole.take(k)));
    }
}

/// Only the empty path has no components.
pub proof fn lemma_some_components(path: Seq<u8>)
    ensures
        path.len() > 0 ==> components(path).len() > 0,
{
    if path.len() > 0 && !absolute(path) {
        let pieces = split(path, SEPARATOR);
        lemma_first_index(path, SEPARATOR);
        let k = first_index(path, SEPARATOR);
        assert(k > 0);
        assert(pieces[0].len() > 0);
        assert(piece_component(pieces[0], true) is Some);
    }
}

/// A byte string that can only be the name of something in a directory.
pub open spec fn plain_name(name: Seq<u8>) -> bool {
    &&& name.len() > 0
    &&& !name.contains(SEPARATOR)
    &&& name != seq![DOT]
    &&& name != seq![DOT, DOT]
}

/// Joining a plain name adds that one component.
pub proof fn lemma_joined_name(base: Seq<u8>, name: Seq<u8>)
    requires
        plain_name(name),
    ensures
        components(joined(base, name)) == components(base).push(ComponentView::Normal(name)),
{
    let path = joined(base, name);
    assert(name.contains(name[0]));
    assert forall|i: int| 0 <= i < name.len() implies name[i] != SEPARATOR by {
        assert(name.contains(name[i]));
    }
    if base.len() == 0 {
        assert(path =~= name);
        assert(base =~= Seq::empty());
        lemma_single_piece(name);
        lemma_single_piece(base);
        assert(components(path) =~= components(base).push(ComponentView::Normal(name)));
    } else if base.last() == SEPARATOR {
        let k = base.len() - 1;
        assert(path.skip(k + 1) =~= name);
        assert(path.take(k) =~= base.take(k));
        assert(base.skip(k + 1) =~= Seq::empty());
        assert forall|i: int| k < i < path.len() implies path[i] != SEPARATOR by {
            assert(path[i] == name[i - base.len()]);
        }
        if k == 0 {
            lemma_root_components(path);
            lemma_root_components(base);
        } else {
            lemma_components_last(path, k);
            lemma_components_last(base, k);
        }
        assert(components(path) =~= components(base).push(ComponentView::Normal(name)));
    } else {
        let k = base.len() as int;
        assert(path.skip(k + 1) =~= name);
        assert(path.take(k) =~= base);
        assert forall|i: int| k < i < path.len() implies path[i] != SEPARATOR by {
            assert(path[i] == name[i - k - 1]);
        }
        lemma_components_last(path, k);
        assert(components(path) =~= components(base).push(ComponentView::Normal(name)));
    }
}

/// The components of a path.
pub fn split_path(path: &[u8]) -> (parts: Vec<Component>)
    ensures
        views(parts@) == components(path@),
{
    broadcast use group_views;

    let rooted = path.len() > 0 && path[0] == SEPARATOR;
    let pieces = split_bytes(path, SEPARATOR);
    let mut parts: Vec<Component> = Vec::new();
    if rooted {
        parts.push(Component::RootDir);
    }
    let ghost before = views(parts@);
    let ghost all = views(pieces@);
    let ghost total = piece_components(all, !rooted);
    proof {
        assert(all.skip(0) =~= all);
        assert(before + total =~= components(path@));
    }
    let mut i: usize = 0;
    while i < pieces.len()
        invariant
            i <= pieces@.len(),
            all == views(pieces@),
            views(parts@) + piece_components(all.skip(i as int), !rooted && i == 0)
                == components(path@),
        decreases pieces@.len() - i,
    {
        let piece = &pieces[i];
        let ghost current = views(parts@);
        proof {
            assert(all.skip(i as int)[0] == piece@);
            assert(all.skip(i as int).skip(1) =~= all.skip(i + 1));
        }
        if piece.len() == 0 {
            proof {
                assert(views(parts@) =~= current + some_seq(
                    piece_component(piece@, !rooted && i == 0),
                ));
            }
        } else if piece.len() == 1 && piece[0] == DOT {
            proof {
                assert(piece@ =~= seq![DOT]);
            }
            if !rooted && i == 0 {
                parts.push(Component::CurDir);
            }
            proof {
                assert(views(parts@) =~= current + some_seq(
                    piece_component(piece@, !rooted && i == 0),
                ));
            }
        } else if piece.len() == 2 && piece[0] == DOT && piece[1] == DOT {
            proof {
                assert(piece@ =~= seq![DOT, DOT]);
            }
            parts.push(Component::ParentDir);
            proof {
                assert(views(parts@) =~= current + some_seq(
                    piece_component(piece@, !rooted && i == 0),
                ));
            }
        } else {
            let name = copy_bytes(piece, 0, piece.len());
            proof {
                assert(name@ =~= piece@);
            }
            parts.push(Component::Normal(name));
            proof {
                assert(views(parts@) =~= current + some_seq(
                    piece_component(piece@, !rooted && i == 0),
                ));
            }
        }
        proof {
            assert(views(parts@) + piece_components(all.skip(i + 1), false) =~= current + (some_seq(
                piece_component(piece@, !rooted && i == 0),
            ) + piece_components(all.skip(i + 1), false)));
        }
        i += 1;
    }
    proof {
        assert(views(parts@) + piece_components(
            all.skip(i as int),
            !rooted && i == 0,
        ) =~= views(parts@));
    }
    parts
}

fn same_part(a: &Component, b: &Component) -> (same: bool)
    ensures
        same == (a@ == b@),
{
    match (a, b) {
        (Component::RootDir, Component::RootDir) => true,
        (Component::CurDir, Component::CurDir) => true,
        (Component::ParentDir, Component::ParentDir) => true,
        (Component::Normal(x), Component::Normal(y)) => bytes_equal(x, y),
        _ => false,
    }
}

/// Whether the two component lists are the same.
pub fn same_parts(a: &[Component], b: &[Component]) -> (same: bool)
    ensures
        same == (views(a@) == views(b@)),
{
    if a.len() != b.len() {
        proof {
            assert(views(a@).len() != views(b@).len());
        }
        return false;
    }
    let mut i: usize = 0;
    while i < a.len()
        invariant
            i <= a@.len(),
            a@.len() == b@.len(),
            forall|j: int| 0 <= j < i ==> (#[trigger] a@[j])@ == b@[j]@,
        decreases a@.len() - i,
    {
        if !same_part(&a[i], &b[i]) {
            proof {
                assert(views(a@)[i as int] != views(b@)[i as int]);
            }
            return false;
        }
        i += 1;
    }
    proof {
        assert(views(a@) =~= views(b@));
    }
    true
}

/// Whether `base` leads `parts`.
pub fn parts_start_with(parts: &[Component], base: &[Component]) -> (begins: bool)
    ensures
        begins == views(base@).is_prefix_of(views(parts@)),
{
    if base.len() > parts.len() {
        return false;
    }
    let mut i: usize = 0;
    while i < base.len()
        invariant
            i <= base@.len() <= parts@.len(),
            forall|j: int| 0 <= j < i ==> (#[trigger] base@[j])@ == parts@[j]@,
        decreases base@.len() - i,
    {
        if !same_part(&base[i], &parts[i]) {
            proof {
                assert(views(base@)[i as int] != views(parts@).subrange(
                    0,
                    base@.len() as int,
                )[i as int]);
            }
            return false;
        }
        i += 1;
    }
    proof {
        assert(views(base@) =~= views(parts@).subrange(0, base@.len() as int));
    }
    true
}

/// Whether the two paths have the same components.
pub fn same_path(a: &[u8], b: &[u8]) -> (same: bool)
    ensures
        same == (components(a@) == components(b@)),
{
    let left = split_path(a);
    let right = split_path(b);
    same_parts(&left, &right)
}

fn bytes_come_before(a: &[u8], b: &[u8]) -> (before: bool)
    ensures
        before == bytes_before(a@, b@),
{
    let mut i: usize = 0;
    proof {
        assert(a@.skip(0) =~= a@);
        assert(b@.skip(0) =~= b@);
    }
    while i < a.len() && i < b.len()
        invariant
            i <= a@.len(),
            i <= b@.len(),
            bytes_before(a@, b@) == bytes_before(a@.skip(i as int), b@.skip(i as int)),
        decreases a@.len() - i,
    {
        if a[i] != b[i] {
            return a[i] < b[i];
        }
        proof {
            assert(a@.skip(i as int).skip(1) =~= a@.skip(i + 1));
            assert(b@.skip(i as int).skip(1) =~= b@.skip(i + 1));
        }
        i += 1;
    }
    i < b.len()
}

fn rank(part: &Component) -> (r: u8)
    ensures
        r == kind_rank(part@),
{
    match part {
        Component::RootDir => 0,
        Component::CurDir => 1,
        Component::ParentDir => 2,
        Component::Normal(_) => 3,
    }
}

fn part_comes_before(a: &Component, b: &Component) -> (before: bool)
    ensures
        before == part_before(a@, b@),
{
    match (a, b) {
        (Component::Normal(x), Component::Normal(y)) => bytes_come_before(x, y),
        _ => rank(a) < rank(b),
    }
}

/// Whether the first component list orders before the second.
pub fn parts_come_before(a: &[Component], b: &[Component]) -> (before: bool)
    ensures
        before == parts_before(views(a@), views(b@)),
{
    let mut i: usize = 0;
    let ghost va = views(a@);
    let ghost vb = views(b@);
    proof {
        assert(va.skip(0) =~= va);
        assert(vb.skip(0) =~= vb);
    }
    while i < a.len() && i < b.len()
        invariant
            i <= a@.len(),
            i <= b@.len(),
            va == views(a@),
            vb == views(b@),
            parts_before(va, vb) == parts_before(va.skip(i as int), vb.skip(i as int)),
        decreases a@.len() - i,
    {
        proof {
            assert(va.skip(i as int)[0] == a@[i as int]@);
            assert(vb.skip(i as int)[0] == b@[i as int]@);
        }
        if !same_part(&a[i], &b[i]) {
            return part_comes_before(&a[i], &b[i]);
        }
        proof {
            assert(va.skip(i as int).skip(1) =~= va.skip(i + 1));
            assert(vb.skip(i as int).skip(1) =~= vb.skip(i + 1));
        }
        i += 1;
    }
    i < b.len()
}

/// The names among the components.
pub fn names(parts: &[Component]) -> (result: Vec<Vec<u8>>)
    ensures
        views(result@) == normal_names(views(parts@)),
{
    broadcast use group_views;

    let mut result: Vec<Vec<u8>> = Vec::new();
    let ghost all = views(parts@);
    proof {
        assert(all.skip(0) =~= all);
        assert(views(result@) + normal_names(all) =~= normal_names(all));
    }
    let mut i: usize = 0;
    while i < parts.len()
        invariant
            i <= parts@.len(),
            all == views(parts@),
            views(result@) + normal_names(all.skip(i as int)) == normal_names(all),
        decreases parts@.len() - i,
    {
        let ghost current = views(result@);
        proof {
            assert(all.skip(i as int)[0] == parts@[i as int]@);
            assert(all.skip(i as int).skip(1) =~= all.skip(i + 1));
        }
        match &parts[i] {
            Component::Normal(name) => {
                let copy = copy_bytes(name, 0, name.len());
                proof {
                    assert(copy@ =~= name@);
                }
                result.push(copy);
                proof {
                    assert(views(result@) + normal_names(all.skip(i + 1)) =~= current + (
                    seq![name@] + normal_names(all.skip(i + 1))));
                }
            },
            _ => {
                proof {
                    assert(Seq::<Seq<u8>>::empty() + normal_names(all.skip(i + 1))
                        =~= normal_names(all.skip(i + 1)));
                }
            },
        }
        i += 1;
    }
    proof {
        assert(views(result@) + normal_names(all.skip(i as int)) =~= views(result@));
    }
    result
}

/// Whether the path starts at the root.
pub fn is_absolute(path: &[u8]) -> (rooted: bool)
    ensures
        rooted == absolute(path@),
{
    path.len() > 0 && path[0] == SEPARATOR
}

/// The name that the path ends in, if it ends in one.
pub fn file_name(path: &[u8]) -> (name: Option<Vec<u8>>)
    ensures
        option_view(name) == final_name(path@),
{
    let mut parts = split_path(path);
    let ghost all = parts@;
    match parts.pop() {
        Some(last) => {
            proof {
                assert(views(all).last() == last@);
            }
            match last {
                Component::Normal(name) => Some(name),
                _ => None,
            }
        },
        None => None,
    }
}

/// One past the last separator among the first `end` bytes, or zero.
fn after_last_separator(path: &[u8], end: usize) -> (after: usize)
    requires
        end <= path@.len(),
    ensures
        after <= end,
        after - 1 == last_separator(path@.take(end as int)),
{
    let mut after: usize = end;
    while after > 0 && path[after - 1] != SEPARATOR
        invariant
            after <= end <= path@.len(),
            last_separator(path@.take(end as int)) == last_separator(path@.take(after as int)),
        decreases after,
    {
        proof {
            assert(path@.take(after as int).drop_last() =~= path@.take(after - 1));
        }
        after -= 1;
    }
    after
}

/// How many leading bytes stay when trailing separators and dots go.
fn trimmed_length(path: &[u8], end: usize) -> (length: usize)
    requires
        end <= path@.len(),
    ensures
        length <= end,
        path@.take(length as int) == trim_right(path@.take(end as int)),
    decreases end,
{
    let after = after_last_separator(path, end);
    let ghost whole = path@.take(end as int);
    if after == 0 {
        return end;
    }
    proof {
        if end - after == 1 && path@[after as int] == DOT {
            assert(whole.skip(after as int) =~= seq![DOT]);
        } else if whole.skip(after as int) == seq![DOT] {
            assert(whole.skip(after as int).len() == 1);
            assert(seq![DOT][0] == DOT);
            assert(whole.skip(after as int)[0] == whole[after as int]);
        }
    }
    if after == end || (end - after == 1 && path[after] == DOT) {
        if after == 1 {
            proof {
                assert(whole.take(1) =~= path@.take(1));
            }
            1
        } else {
            proof {
                assert(whole.take(after - 1) =~= path@.take(after - 1));
            }
            trimmed_length(path, after - 1)
        }
    } else {
        end
    }
}

/// The path without its last component.
pub fn parent(path: &[u8]) -> (result: Option<Vec<u8>>)
    ensures
        option_view(result) == parent_path(path@),
{
    let length = trimmed_length(path, path.len());
    let ghost whole = trim_right(path@);
    proof {
        assert(path@.take(path@.len() as int) =~= path@);
    }
    if length == 0 {
        return None;
    }
    proof {
        if length == 1 && path@[0] == SEPARATOR {
            assert(whole =~= seq![SEPARATOR]);
        } else if whole == seq![SEPARATOR] {
            assert(whole[0] == path@[0]);
        }
    }
    if length == 1 && path[0] == SEPARATOR {
        return None;
    }
    let after = after_last_separator(path, length);
    let kept: usize = if after == 0 {
        0
    } else if after == 1 {
        1
    } else {
        trimmed_length(path, after - 1)
    };
    let result = copy_bytes(path, 0, kept);
    proof {
        assert(result@ =~= path@.take(kept as int));
        if after == 0 {
            assert(result@ =~= Seq::empty());
        } else if after == 1 {
            assert(whole.take(1) =~= path@.take(1));
        } else {
            assert(whole.take(after - 1) =~= path@.take(after - 1));
        }
    }
    Some(result)
}

/// `path` read from inside `base`.
pub fn join(base: &[u8], path: &[u8]) -> (result: Vec<u8>)
    ensures
        result@ == joined(base@, path@),
{
    if is_absolute(path) {
        let copy = copy_bytes(path, 0, path.len());
        proof {
            assert(copy@ =~= path@);
        }
        return copy;
    }
    let mut result = copy_bytes(base, 0, base.len());
    if base.len() > 0 && base[base.len() - 1] != SEPARATOR {
        result.push(SEPARATOR);
    }
    let mut tail = copy_bytes(path, 0, path.len());
    let ghost head = result@;
    result.append(&mut tail);
    proof {
        assert(base@.subrange(0, base@.len() as int) =~= base@);
        assert(path@.subrange(0, path@.len() as int) =~= path@);
        assert(result@ =~= joined(base@, path@));
    }
    result
}

/// A name comes before another where the first byte that tells them apart is smaller, and
/// before whatever it is the beginning of.
pub proof fn law_names_are_ordered_by_their_bytes(
    front: Seq<u8>,
    x: u8,
    y: u8,
    a: Seq<u8>,
    b: Seq<u8>,
)
    ensures
        x != y ==> (bytes_before(front + seq![x] + a, front + seq![y] + b) <==> x < y),
        bytes_before(front, front + seq![y] + b),
        !bytes_before(front + seq![x] + a, front),
        !bytes_before(front, front),
    decreases front.len(),
{
    let first = front + seq![x] + a;
    let second = front + seq![y] + b;
    if front.len() == 0 {
        assert(first[0] == x && second[0] == y);
    } else {
        let rest = front.skip(1);
        law_names_are_ordered_by_their_bytes(rest, x, y, a, b);
        assert(first.skip(1) =~= rest + seq![x] + a);
        assert(second.skip(1) =~= rest + seq![y] + b);
        assert(first[0] == front[0] && second[0] == front[0]);
    }
}

/// A path comes before another where the first name that tells them apart does, and a
/// folder before what is in it.
pub proof fn law_paths_are_ordered_by_their_names(
    front: Seq<ComponentView>,
    x: Seq<u8>,
    y: Seq<u8>,
    a: Seq<ComponentView>,
    b: Seq<ComponentView>,
)
    ensures
        ({
            let one = front + seq![ComponentView::Normal(x)] + a;
            let other = front + seq![ComponentView::Normal(y)] + b;
            &&& x != y ==> (parts_before(one, other) <==> bytes_before(x, y))
            &&& parts_before(front, other)
            &&& !parts_before(one, front)
            &&& !parts_before(front, front)
        }),
    decreases front.len(),
{
    let one = front + seq![ComponentView::Normal(x)] + a;
    let other = front + seq![ComponentView::Normal(y)] + b;
    if front.len() == 0 {
        assert(one[0] == ComponentView::Normal(x) && other[0] == ComponentView::Normal(y));
    } else {
        let rest = front.skip(1);
        law_paths_are_ordered_by_their_names(rest, x, y, a, b);
        assert(one.skip(1) =~= rest + seq![ComponentView::Normal(x)] + a);
        assert(other.skip(1) =~= rest + seq![ComponentView::Normal(y)] + b);
        assert(one[0] == front[0] && other[0] == front[0]);
    }
}

/// Names as they are written for a path, with a separator between each two.
pub open spec fn written(names: Seq<Seq<u8>>) -> Seq<u8>
    decreases names.len(),
{
    if names.len() == 0 {
        Seq::empty()
    } else if names.len() == 1 {
        names[0]
    } else {
        written(names.drop_last()) + seq!['/' as u8] + names.last()
    }
}

/// A path is read as the names that it was written from; with a separator before them it
/// is the same path from the root. Its last name is what it ends in, and the names before
/// that are its parent.
pub proof fn law_paths_are_read_back(names: Seq<Seq<u8>>)
    requires
        names.len() > 0,
        forall|i: int| 0 <= i < names.len() ==> plain_name(#[trigger] names[i]),
    ensures
        components(written(names)) == Seq::new(
            names.len(),
            |i: int| ComponentView::Normal(names[i]),
        ),
        final_name(written(names)) == Some(names.last()),
        parent_path(written(names)) is Some,
        components(parent_path(written(names))->0) == Seq::new(
            (names.len() - 1) as nat,
            |i: int| ComponentView::Normal(names[i]),
        ),
        written(names).len() > 0,
        written(names).last() != '/' as u8,
        !absolute(written(names)),
    decreases names.len(),
{
    let last = names.last();
    assert(plain_name(names[names.len() - 1]));
    assert(last[last.len() - 1] != SEPARATOR) by {
        assert(last.contains(last[last.len() - 1]));
    }
    assert(last[0] != SEPARATOR) by {
        assert(last.contains(last[0]));
    }
    let front = names.drop_last();
    let base = written(front);
    let all = Seq::new(names.len(), |i: int| ComponentView::Normal(names[i]));
    if names.len() == 1 {
        let nothing = Seq::<u8>::empty();
        lemma_joined_name(nothing, last);
        assert(joined(nothing, last) =~= last);
        lemma_single_piece(nothing);
        lemma_split_single(nothing, SEPARATOR);
        lemma_one_piece(nothing, true);
        assert(components(nothing) =~= Seq::empty());
        assert(components(last) =~= all);
    } else {
        assert forall|i: int| 0 <= i < front.len() implies plain_name(#[trigger] front[i]) by {
            assert(front[i] == names[i]);
        }
        law_paths_are_read_back(front);
        lemma_joined_name(base, last);
        assert(joined(base, last) =~= base + seq!['/' as u8] + last);
        assert(components(written(names)) =~= all);
    }
    lemma_parent_components(written(names));
    assert(all.drop_last() =~= Seq::new(
        (names.len() - 1) as nat,
        |i: int| ComponentView::Normal(names[i]),
    ));
}

/// The root comes first, then a leading dot, then a step up, and names last; what stands
/// behind the first difference does not count.
pub proof fn law_the_root_comes_first(name: Seq<u8>, a: Seq<ComponentView>, b: Seq<ComponentView>)
    ensures
        ({
            let begins = |first: ComponentView, rest: Seq<ComponentView>| seq![first] + rest;
            let named = ComponentView::Normal(name);
            &&& parts_before(begins(ComponentView::RootDir, a), begins(ComponentView::CurDir, b))
            &&& parts_before(begins(ComponentView::CurDir, a), begins(ComponentView::ParentDir, b))
            &&& parts_before(begins(ComponentView::ParentDir, a), begins(named, b))
            &&& parts_before(begins(ComponentView::RootDir, a), begins(named, b))
            &&& parts_before(begins(ComponentView::CurDir, a), begins(named, b))
            &&& !parts_before(begins(named, b), begins(ComponentView::ParentDir, a))
            &&& !parts_before(begins(ComponentView::CurDir, b), begins(ComponentView::RootDir, a))
        }),
{
}

/// Of components the names are kept, in their order, and nothing else.
pub proof fn law_names_are_picked_out(
    parts: Seq<ComponentView>,
    part: ComponentView,
    name: Seq<u8>,
)
    ensures
        normal_names(Seq::empty()) == Seq::<Seq<u8>>::empty(),
        normal_names(seq![ComponentView::Normal(name)] + parts) == seq![name] + normal_names(parts),
        !(part is Normal) ==> normal_names(seq![part] + parts) == normal_names(parts),
{
    let one = seq![ComponentView::Normal(name)] + parts;
    let other = seq![part] + parts;
    assert(one.skip(1) =~= parts);
    assert(other.skip(1) =~= parts);
    assert(one[0] == ComponentView::Normal(name));
    assert(other[0] == part);
    if !(part is Normal) {
        assert(normal_names(other) =~= normal_names(parts));
    }
}

} // verus!
