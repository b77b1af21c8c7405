//! The directories that a Bazel project view selects.
use vstd::prelude::*;
use vstd::utf8::encode_utf8;

use crate::model::copy_path;
use crate::path::{
    components, join, joined, names, normal_names, parent, parent_path, parts_start_with,
    split_path, Component, ComponentView, DOT, SEPARATOR,
};
use crate::seqs::{
    bytes_equal, group_views, lemma_split_after, lemma_split_single, option_view, split, views,
};
use crate::text::{
    copy_chars, from_chars, is_space, is_space_char, law_trimming_cuts_white_space, lines,
    same_chars, split_chars, text_lines, to_chars, trim, trimmed,
};

verus! {

pub const WILDCARD: u8 = 42;

/// What a project view puts in scope: the included directories without the
/// excluded ones, as paths below `base`.
#[derive(Debug, PartialEq, Eq)]
pub struct ProjectScope {
    pub base: Vec<u8>,
    pub view_path: Vec<u8>,
    pub included: Vec<Vec<u8>>,
    pub excluded: Vec<Vec<u8>>,
}

pub ghost struct ScopeView {
    pub base: Seq<u8>,
    pub view_path: Seq<u8>,
    pub included: Seq<Seq<u8>>,
    pub excluded: Seq<Seq<u8>>,
}

impl View for ProjectScope {
    type V = ScopeView;

    open spec fn view(&self) -> ScopeView {
        ScopeView {
            base: self.base@,
            view_path: self.view_path@,
            included: views(self.included@),
            excluded: views(self.excluded@),
        }
    }
}

/// Names one after another with separators between them.
pub open spec fn joined_names(parts: Seq<Seq<u8>>) -> Seq<u8>
    decreases parts.len(),
{
    if parts.len() == 0 {
        Seq::empty()
    } else if parts.len() == 1 {
        parts[0]
    } else {
        joined_names(parts.drop_last()).push(SEPARATOR) + parts.last()
    }
}

pub open spec fn stays_inside(parts: Seq<ComponentView>) -> bool {
    forall|i: int|
        0 <= i < parts.len() ==> #[trigger] parts[i] != ComponentView::ParentDir && parts[i]
            != ComponentView::RootDir
}

/// A path of a project view in its plain form: names alone. A path that starts
/// at the root or climbs has none.
pub open spec fn normalized_path(path: Seq<u8>) -> Option<Seq<u8>> {
    if stays_inside(components(path)) {
        Some(joined_names(normal_names(components(path))))
    } else {
        None
    }
}

/// The list with the path at its end, unless the list holds it already.
pub open spec fn with_path(list: Seq<Seq<u8>>, path: Seq<u8>) -> Seq<Seq<u8>> {
    if list.contains(path) {
        list
    } else {
        list.push(path)
    }
}

/// What has been read of a project view.
pub ghost struct Listing {
    pub in_directories: bool,
    pub included: Seq<Seq<u8>>,
    pub excluded: Seq<Seq<u8>>,
}

/// A line of a project view without its comment and the white space round it.
pub open spec fn view_entry(line: Seq<char>) -> Seq<char> {
    trim(split(line, '#')[0])
}

/// Reads one line. A line at the margin opens a section; an indented one in the
/// `directories:` section names a directory, or leaves one out with a minus sign.
pub open spec fn read_view_line(listing: Listing, line: Seq<char>) -> Option<Listing> {
    let entry = view_entry(line);
    if entry.len() == 0 {
        Some(listing)
    } else if !is_space(line[0]) {
        Some(Listing { in_directories: entry == "directories:"@, ..listing })
    } else if !listing.in_directories {
        Some(listing)
    } else if entry[0] == '-' {
        match normalized_path(encode_utf8(trim(entry.skip(1)))) {
            Some(path) => Some(Listing { excluded: with_path(listing.excluded, path), ..listing }),
            None => None,
        }
    } else {
        match normalized_path(encode_utf8(entry)) {
            Some(path) => Some(Listing { included: with_path(listing.included, path), ..listing }),
            None => None,
        }
    }
}

pub open spec fn read_view_lines(listing: Listing, text: Seq<Seq<char>>) -> Option<Listing>
    decreases text.len(),
{
    if text.len() == 0 {
        Some(listing)
    } else {
        match read_view_line(listing, text[0]) {
            Some(after) => read_view_lines(after, text.skip(1)),
            None => None,
        }
    }
}

pub open spec fn empty_listing() -> Listing {
    Listing { in_directories: false, included: Seq::empty(), excluded: Seq::empty() }
}

/// The scope that a project view describes. A view with a bad path, or without
/// an included directory, describes none.
pub open spec fn parsed_scope(contents: Seq<char>) -> Option<ScopeView> {
    match read_view_lines(empty_listing(), text_lines(contents)) {
        Some(listing) => if listing.included.len() == 0 {
            None
        } else {
            Some(
                ScopeView {
                    base: Seq::empty(),
                    view_path: Seq::empty(),
                    included: listing.included,
                    excluded: listing.excluded,
                },
            )
        },
        None => None,
    }
}

pub open spec fn name_matches(pattern: Seq<u8>, name: Seq<u8>) -> bool {
    pattern == seq![WILDCARD] || pattern == name
}

/// Whether the path is the base or below it. A `*` in the base matches any name.
pub open spec fn equal_or_below(path: Seq<Seq<u8>>, base: Seq<Seq<u8>>) -> bool {
    &&& path.len() >= base.len()
    &&& forall|i: int| 0 <= i < base.len() ==> name_matches(#[trigger] base[i], path[i])
}

/// Whether the pattern could match the path or something below it.
pub open spec fn leads_to(path: Seq<Seq<u8>>, pattern: Seq<Seq<u8>>) -> bool {
    &&& pattern.len() >= path.len()
    &&& forall|i: int| 0 <= i < path.len() ==> name_matches(pattern[i], #[trigger] path[i])
}

pub open spec fn path_names(path: Seq<u8>) -> Seq<Seq<u8>> {
    normal_names(components(path))
}

pub open spec fn covered(list: Seq<Seq<u8>>, path: Seq<Seq<u8>>) -> bool {
    exists|i: int| 0 <= i < list.len() && equal_or_below(path, path_names(#[trigger] list[i]))
}

/// Whether an included directory holds the file and no excluded one does.
pub open spec fn file_in_scope(scope: ScopeView, path: Seq<Seq<u8>>) -> bool {
    &&& exists|i: int|
        0 <= i < scope.included.len() && ((#[trigger] scope.included[i]).len() == 0
            || equal_or_below(path, path_names(scope.included[i])))
    &&& !covered(scope.excluded, path)
}

/// Whether a walk should enter the directory: it is in scope, or leads there.
pub open spec fn directory_in_scope(scope: ScopeView, path: Seq<Seq<u8>>) -> bool {
    &&& exists|i: int|
        0 <= i < scope.included.len() && ((#[trigger] scope.included[i]).len() == 0
            || equal_or_below(path, path_names(scope.included[i])) || leads_to(
            path,
            path_names(scope.included[i]),
        ))
    &&& !covered(scope.excluded, path)
}

pub open spec fn relative_in_scope(
    scope: ScopeView,
    parts: Seq<ComponentView>,
    is_dir: bool,
) -> bool {
    if parts.len() == 0 {
        true
    } else if is_dir {
        directory_in_scope(scope, normal_names(parts))
    } else {
        file_in_scope(scope, normal_names(parts))
    }
}

/// Whether the path is in scope; a directory above the base stays open, so that
/// a walk from there reaches it.
pub open spec fn absolute_in_scope(scope: ScopeView, path: Seq<u8>, is_dir: bool) -> bool {
    let parts = components(path);
    let base = components(scope.base);
    if base.is_prefix_of(parts) {
        relative_in_scope(scope, parts.skip(base.len() as int), is_dir)
    } else {
        parts.is_prefix_of(base)
    }
}

/// A name that a path component can have.
pub open spec fn plain_name(name: Seq<u8>) -> bool {
    &&& name.len() > 0
    &&& name != seq![DOT]
    &&& name != seq![DOT, DOT]
    &&& !name.contains(SEPARATOR)
}

/// A path of names, with its components read back.
pub proof fn lemma_joined_names_components(parts: Seq<Seq<u8>>)
    requires
        forall|i: int| 0 <= i < parts.len() ==> plain_name(#[trigger] parts[i]),
    ensures
        components(joined_names(parts)) == Seq::new(
            parts.len(),
            |i: int| ComponentView::Normal(parts[i]),
        ),
        parts.len() > 0 ==> joined_names(parts).len() > 0 && joined_names(parts)[0] != SEPARATOR,
    decreases parts.len(),
{
    let expected = Seq::new(parts.len(), |i: int| ComponentView::Normal(parts[i]));
    if parts.len() == 0 {
        crate::path::lemma_single_piece(Seq::empty());
        assert(components(joined_names(parts)) =~= expected);
    } else if parts.len() == 1 {
        assert(plain_name(parts[0]));
        assert(!parts[0].contains(parts[0][0]) || parts[0][0] != SEPARATOR);
        crate::path::lemma_single_piece(parts[0]);
        assert(components(joined_names(parts)) =~= expected);
    } else {
        let head = parts.drop_last();
        assert forall|i: int| 0 <= i < head.len() implies plain_name(#[trigger] head[i]) by {
            assert(head[i] == parts[i]);
        }
        lemma_joined_names_components(head);
        let last = parts.last();
        assert(plain_name(parts[parts.len() - 1]));
        let path = joined_names(parts);
        let k = joined_names(head).len() as int;
        assert(path[k] == SEPARATOR);
        assert(path.take(k) =~= joined_names(head));
        assert(path.skip(k + 1) =~= last);
        assert forall|i: int| k < i < path.len() implies path[i] != SEPARATOR by {
            assert(path[i] == last[i - k - 1]);
            assert(last.contains(last[i - k - 1]));
        }
        crate::path::lemma_components_last(path, k);
        assert(components(path) =~= expected);
    }
}

/// The names of a path are plain.
pub proof fn lemma_path_names_plain(path: Seq<u8>)
    ensures
        forall|i: int| 0 <= i < path_names(path).len() ==> plain_name(#[trigger] path_names(path)[i]),
{
    crate::seqs::lemma_split_pieces_free(path, SEPARATOR);
    let pieces = split(path, SEPARATOR);
    assert forall|i: int| 0 <= i < pieces.len() implies !(#[trigger] pieces[i]).contains(
        SEPARATOR,
    ) by {
        if pieces[i].contains(SEPARATOR) {
            let j = choose|j: int| 0 <= j < pieces[i].len() && pieces[i][j] == SEPARATOR;
            assert(pieces[i][j] != SEPARATOR);
        }
    }
    lemma_piece_names_plain(pieces, !crate::path::absolute(path));
    if crate::path::absolute(path) {
        let rest = crate::path::piece_components(pieces, false);
        assert(components(path).skip(1) =~= rest);
        assert(path_names(path) =~= normal_names(rest));
    }
}

proof fn lemma_piece_names_plain(pieces: Seq<Seq<u8>>, leading: bool)
    requires
        forall|i: int| 0 <= i < pieces.len() ==> !(#[trigger] pieces[i]).contains(SEPARATOR),
    ensures
        ({
            let found = normal_names(crate::path::piece_components(pieces, leading));
            forall|i: int| 0 <= i < found.len() ==> plain_name(#[trigger] found[i])
        }),
    decreases pieces.len(),
{
    if pieces.len() > 0 {
        let rest = pieces.skip(1);
        assert forall|i: int| 0 <= i < rest.len() implies !(#[trigger] rest[i]).contains(
            SEPARATOR,
        ) by {
            assert(rest[i] == pieces[i + 1]);
        }
        lemma_piece_names_plain(rest, false);
        let parts = crate::path::piece_components(pieces, leading);
        let tail = crate::path::piece_components(rest, false);
        match crate::path::piece_component(pieces[0], leading) {
            Some(first) => {
                assert(parts.skip(1) =~= tail);
                assert(!pieces[0].contains(SEPARATOR));
                let found = normal_names(parts);
                let later = normal_names(tail);
                assert forall|i: int| 0 <= i < found.len() implies plain_name(
                    #[trigger] found[i],
                ) by {
                    match first {
                        ComponentView::Normal(name) => {
                            if i > 0 {
                                assert(found[i] == later[i - 1]);
                            }
                        },
                        _ => {
                            assert(found[i] == later[i]);
                        },
                    }
                }
            },
            None => {
                assert(parts =~= tail);
            },
        }
    }
}

/// Names one after another with separators between them.
fn join_names(parts: &Vec<Vec<u8>>) -> (path: Vec<u8>)
    ensures
        path@ == joined_names(views(parts@)),
{
    let mut path: Vec<u8> = Vec::new();
    let ghost all = views(parts@);
    proof {
        assert(all.take(0).len() == 0);
    }
    let mut i: usize = 0;
    while i < parts.len()
        invariant
            i <= parts@.len(),
            all == views(parts@),
            path@ == joined_names(all.take(i as int)),
        decreases parts@.len() - i,
    {
        let ghost before = path@;
        if i > 0 {
            path.push(SEPARATOR);
        }
        let mut part = copy_path(&parts[i]);
        path.append(&mut part);
        proof {
            let next = all.take(i + 1);
            assert(next.drop_last() =~= all.take(i as int));
            assert(next.last() == parts@[i as int]@);
            if i == 0 {
                assert(before =~= Seq::empty());
                assert(path@ =~= next[0]);
            }
        }
        i += 1;
    }
    proof {
        assert(all.take(all.len() as int) =~= all);
    }
    path
}

/// A path of a project view in its plain form.
pub fn normalize_workspace_path(raw_path: &str) -> (result: Option<Vec<u8>>)
    ensures
        option_view(result) == normalized_path(encode_utf8(raw_path@)),
{
    let parts = split_path(raw_path.as_bytes());
    let ghost all = views(parts@);
    let mut i: usize = 0;
    while i < parts.len()
        invariant
            i <= parts@.len(),
            all == views(parts@),
            all == components(encode_utf8(raw_path@)),
            forall|j: int|
                0 <= j < i ==> #[trigger] all[j] != ComponentView::ParentDir && all[j]
                    != ComponentView::RootDir,
        decreases parts@.len() - i,
    {
        match &parts[i] {
            Component::ParentDir | Component::RootDir => {
                proof {
                    assert(all[i as int] == parts@[i as int]@);
                }
                return None;
            },
            _ => {},
        }
        i += 1;
    }
    let plain = names(&parts);
    Some(join_names(&plain))
}

fn list_contains(list: &Vec<Vec<u8>>, path: &Vec<u8>) -> (found: bool)
    ensures
        found == views(list@).contains(path@),
{
    let mut i: usize = 0;
    while i < list.len()
        invariant
            i <= list@.len(),
            forall|j: int| 0 <= j < i ==> (#[trigger] list@[j])@ != path@,
        decreases list@.len() - i,
    {
        if bytes_equal(&list[i], path) {
            proof {
                assert(views(list@)[i as int] == path@);
            }
            return true;
        }
        i += 1;
    }
    proof {
        assert forall|j: int| 0 <= j < views(list@).len() implies views(list@)[j] != path@ by {
            assert(views(list@)[j] == list@[j]@);
        }
    }
    false
}

fn add_path(list: &mut Vec<Vec<u8>>, path: Vec<u8>)
    ensures
        views(final(list)@) == with_path(views(old(list)@), path@),
{
    broadcast use group_views;

    if !list_contains(list, &path) {
        list.push(path);
    }
}

fn names_match(pattern: &Vec<u8>, name: &Vec<u8>) -> (matches: bool)
    ensures
        matches == name_matches(pattern@, name@),
{
    if pattern.len() == 1 && pattern[0] == WILDCARD {
        proof {
            assert(pattern@ =~= seq![WILDCARD]);
        }
        return true;
    }
    proof {
        if pattern@ == seq![WILDCARD] {
            assert(pattern@.len() == 1);
            assert(pattern@[0] == WILDCARD);
        }
    }
    bytes_equal(pattern, name)
}

/// Whether the path is the base or below it.
pub fn path_is_equal_or_below(path: &Vec<Vec<u8>>, base: &Vec<Vec<u8>>) -> (below: bool)
    ensures
        below == equal_or_below(views(path@), views(base@)),
{
    if path.len() < base.len() {
        return false;
    }
    let mut i: usize = 0;
    while i < base.len()
        invariant
            i <= base@.len() <= path@.len(),
            forall|j: int|
                0 <= j < i ==> name_matches(#[trigger] views(base@)[j], views(path@)[j]),
        decreases base@.len() - i,
    {
        if !names_match(&base[i], &path[i]) {
            proof {
                assert(!name_matches(views(base@)[i as int], views(path@)[i as int]));
            }
            return false;
        }
        i += 1;
    }
    true
}

/// Whether the pattern could match the path or something below it.
pub fn pattern_is_below_path(pattern: &Vec<Vec<u8>>, path: &Vec<Vec<u8>>) -> (below: bool)
    ensures
        below == leads_to(views(path@), views(pattern@)),
{
    if pattern.len() < path.len() {
        return false;
    }
    let mut i: usize = 0;
    while i < path.len()
        invariant
            i <= path@.len() <= pattern@.len(),
            forall|j: int|
                0 <= j < i ==> name_matches(views(pattern@)[j], #[trigger] views(path@)[j]),
        decreases path@.len() - i,
    {
        if !names_match(&pattern[i], &path[i]) {
            proof {
                assert(!name_matches(views(pattern@)[i as int], views(path@)[i as int]));
            }
            return false;
        }
        i += 1;
    }
    true
}

/// The names of a path.
pub fn path_components(path: &[u8]) -> (result: Vec<Vec<u8>>)
    ensures
        views(result@) == path_names(path@),
{
    let parts = split_path(path);
    names(&parts)
}

/// Whether the path is the workspace itself.
pub fn path_is_root(path: &[u8]) -> (root: bool)
    ensures
        root == (path@.len() == 0),
{
    path.len() == 0
}

impl ProjectScope {
    /// Reads a project view.
    pub fn parse(contents: &str) -> (result: Option<Self>)
        ensures
            option_view(result) == parsed_scope(contents@),
    {
        broadcast use group_views;

        let source = lines(contents);
        let wanted = to_chars("directories:");
        let ghost all = views(source@);
        let mut in_directories = false;
        let mut included: Vec<Vec<u8>> = Vec::new();
        let mut excluded: Vec<Vec<u8>> = Vec::new();
        proof {
            assert(all.skip(0) =~= all);
        }
        let mut i: usize = 0;
        while i < source.len()
            invariant
                i <= source@.len(),
                all == views(source@),
                all == text_lines(contents@),
                wanted@ == "directories:"@,
                read_view_lines(
                    Listing {
                        in_directories,
                        included: views(included@),
                        excluded: views(excluded@),
                    },
                    all.skip(i as int),
                ) == read_view_lines(empty_listing(), all),
            decreases source@.len() - i,
        {
            let raw_line = &source[i];
            let pieces = split_chars(raw_line, '#');
            proof {
                assert(all.skip(i as int)[0] == raw_line@);
                assert(all.skip(i as int).skip(1) =~= all.skip(i + 1));
                crate::seqs::lemma_split_nonempty(raw_line@, '#');
                assert(views(pieces@)[0] == pieces@[0]@);
            }
            let line = trimmed(&pieces[0]);
            if line.len() > 0 {
                proof {
                    lemma_entry_needs_line(raw_line@);
                }
                if !is_space_char(raw_line[0]) {
                    in_directories = same_chars(&line, &wanted);
                } else if in_directories {
                    if line[0] == '-' {
                        let tail = copy_chars(&line, 1, line.len());
                        let name = trimmed(&tail);
                        let text = from_chars(&name, 0, name.len());
                        proof {
                            assert(tail@ =~= line@.skip(1));
                            assert(text@ =~= name@);
                        }
                        match normalize_workspace_path(text.as_str()) {
                            Some(path) => {
                                add_path(&mut excluded, path);
                            },
                            None => {
                                return None;
                            },
                        }
                    } else {
                        let text = from_chars(&line, 0, line.len());
                        proof {
                            assert(text@ =~= line@);
                        }
                        match normalize_workspace_path(text.as_str()) {
                            Some(path) => {
                                add_path(&mut included, path);
                            },
                            None => {
                                return None;
                            },
                        }
                    }
                }
            }
            i += 1;
        }
        if included.len() == 0 {
            return None;
        }
        Some(ProjectScope { base: Vec::new(), view_path: Vec::new(), included, excluded })
    }

    fn excludes(&self, path: &Vec<Vec<u8>>) -> (found: bool)
        ensures
            found == covered(self@.excluded, views(path@)),
    {
        let mut i: usize = 0;
        while i < self.excluded.len()
            invariant
                i <= self.excluded@.len(),
                forall|j: int|
                    0 <= j < i ==> !equal_or_below(
                        views(path@),
                        path_names(#[trigger] self@.excluded[j]),
                    ),
            decreases self.excluded@.len() - i,
        {
            let base = path_components(&self.excluded[i]);
            if path_is_equal_or_below(path, &base) {
                proof {
                    assert(equal_or_below(views(path@), path_names(self@.excluded[i as int])));
                }
                return true;
            }
            i += 1;
        }
        false
    }

    fn includes(&self, path: &Vec<Vec<u8>>, is_dir: bool) -> (found: bool)
        ensures
            found == exists|i: int|
                0 <= i < self@.included.len() && ((#[trigger] self@.included[i]).len() == 0
                    || equal_or_below(views(path@), path_names(self@.included[i])) || (is_dir
                    && leads_to(views(path@), path_names(self@.included[i])))),
    {
        let mut i: usize = 0;
        while i < self.included.len()
            invariant
                i <= self.included@.len(),
                forall|j: int|
                    0 <= j < i ==> !((#[trigger] self@.included[j]).len() == 0 || equal_or_below(
                        views(path@),
                        path_names(self@.included[j]),
                    ) || (is_dir && leads_to(views(path@), path_names(self@.included[j])))),
            decreases self.included@.len() - i,
        {
            let entry = &self.included[i];
            proof {
                assert(self@.included[i as int] == entry@);
            }
            if path_is_root(entry) {
                return true;
            }
            let pattern = path_components(entry);
            if path_is_equal_or_below(path, &pattern) {
                return true;
            }
            if is_dir && pattern_is_below_path(&pattern, path) {
                return true;
            }
            i += 1;
        }
        false
    }

    fn allows_parts(&self, parts: &[Component], is_dir: bool) -> (allowed: bool)
        ensures
            allowed == relative_in_scope(self@, views(parts@), is_dir),
    {
        if parts.len() == 0 {
            return true;
        }
        let path = names(parts);
        if self.excludes(&path) {
            return false;
        }
        self.includes(&path, is_dir)
    }

    /// Whether the path below the base is in scope.
    pub fn allows_relative(&self, path: &[u8], is_dir: bool) -> (allowed: bool)
        ensures
            allowed == relative_in_scope(self@, components(path@), is_dir),
    {
        let parts = split_path(path);
        self.allows_parts(&parts, is_dir)
    }

    /// Whether an included directory holds the file and no excluded one does.
    pub fn contains_relative_path(&self, path: &[u8]) -> (contained: bool)
        ensures
            contained == file_in_scope(self@, path_names(path@)),
    {
        let parts = path_components(path);
        self.includes(&parts, false) && !self.excludes(&parts)
    }

    /// Whether the absolute path is in scope.
    pub fn allows_absolute(&self, path: &[u8], is_dir: bool) -> (allowed: bool)
        ensures
            allowed == absolute_in_scope(self@, path@, is_dir),
    {
        let mut parts = split_path(path);
        let base = split_path(&self.base);
        if parts_start_with(&parts, &base) {
            let ghost all = parts@;
            let relative = parts.split_off(base.len());
            proof {
                assert(views(relative@) =~= views(all).skip(base@.len() as int));
            }
            return self.allows_parts(&relative, is_dir);
        }
        parts_start_with(&base, &parts)
    }

    /// Whether a walk should look at the entry.
    pub fn allows_entry(&self, path: &[u8], is_dir: bool) -> (allowed: bool)
        ensures
            allowed == absolute_in_scope(self@, path@, is_dir),
    {
        self.allows_absolute(path, is_dir)
    }

    /// Whether the file is in scope, its path read from the root where it is
    /// relative.
    pub fn contains_path(&self, root: &[u8], path: &[u8]) -> (contained: bool)
        ensures
            contained == absolute_in_scope(self@, joined(root@, path@), false),
    {
        let absolute_path = join(root, path);
        self.allows_absolute(&absolute_path, false)
    }

    /// The project view that the scope was read from.
    pub fn view_path(&self) -> (path: &Vec<u8>)
        ensures
            path@ == self@.view_path,
    {
        &self.view_path
    }
}

/// A line with an entry has a first character.
proof fn lemma_entry_needs_line(line: Seq<char>)
    ensures
        view_entry(line).len() > 0 ==> line.len() > 0,
{
    if line.len() == 0 {
        crate::seqs::lemma_split_single(line, '#');
        assert(trim(line).len() == 0);
    }
}

/// Where the search for a project view stands: a directory, and the question
/// that is open about it.
#[derive(Debug)]
pub enum Discovery {
    /// Is there a project view at the candidate's place in the directory?
    Probe { directory: Vec<u8>, candidate: usize },
    /// What does the project view hold?
    Read { directory: Vec<u8>, view_path: Vec<u8> },
    /// Is the directory the top of a Git repository?
    Boundary { directory: Vec<u8> },
}

pub ghost enum DiscoveryView {
    Probe { directory: Seq<u8>, candidate: nat },
    Read { directory: Seq<u8>, view_path: Seq<u8> },
    Boundary { directory: Seq<u8> },
}

impl View for Discovery {
    type V = DiscoveryView;

    open spec fn view(&self) -> DiscoveryView {
        match self {
            Discovery::Probe { directory, candidate } => DiscoveryView::Probe {
                directory: directory@,
                candidate: *candidate as nat,
            },
            Discovery::Read { directory, view_path } => DiscoveryView::Read {
                directory: directory@,
                view_path: view_path@,
            },
            Discovery::Boundary { directory } => DiscoveryView::Boundary { directory: directory@ },
        }
    }
}

/// What the search asks of the file system.
#[derive(Debug)]
pub enum DiscoveryQuestion {
    IsFile(Vec<u8>),
    Contents(Vec<u8>),
    Exists(Vec<u8>),
}

pub ghost enum QuestionView {
    IsFile(Seq<u8>),
    Contents(Seq<u8>),
    Exists(Seq<u8>),
}

impl View for DiscoveryQuestion {
    type V = QuestionView;

    open spec fn view(&self) -> QuestionView {
        match self {
            DiscoveryQuestion::IsFile(path) => QuestionView::IsFile(path@),
            DiscoveryQuestion::Contents(path) => QuestionView::Contents(path@),
            DiscoveryQuestion::Exists(path) => QuestionView::Exists(path@),
        }
    }
}

/// The answer: yes or no, and the text where a file was read.
#[derive(Debug)]
pub struct DiscoveryAnswer {
    pub yes: bool,
    pub contents: Option<String>,
}

/// What an answer leads to.
#[derive(Debug)]
pub enum DiscoveryOutcome {
    Continue(Discovery),
    Finished(Option<ProjectScope>),
}

pub ghost enum OutcomeView {
    Continue(DiscoveryView),
    Finished(Option<ScopeView>),
}

impl View for DiscoveryOutcome {
    type V = OutcomeView;

    open spec fn view(&self) -> OutcomeView {
        match self {
            DiscoveryOutcome::Continue(next) => OutcomeView::Continue(next@),
            DiscoveryOutcome::Finished(scope) => OutcomeView::Finished(option_view(*scope)),
        }
    }
}

/// Where a project view can lie in a directory, in the order in which the places
/// are tried.
pub open spec fn view_place(directory: Seq<u8>, candidate: nat) -> Seq<u8> {
    if candidate == 0 {
        joined(joined(directory, encode_utf8(".eclipse"@)), encode_utf8(".bazelproject"@))
    } else {
        joined(directory, encode_utf8(".bazelproject"@))
    }
}

pub open spec fn question(search: DiscoveryView) -> QuestionView {
    match search {
        DiscoveryView::Probe { directory, candidate } => QuestionView::IsFile(
            view_place(directory, candidate),
        ),
        DiscoveryView::Read { directory, view_path } => QuestionView::Contents(view_path),
        DiscoveryView::Boundary { directory } => QuestionView::Exists(
            joined(directory, encode_utf8(".git"@)),
        ),
    }
}

/// The scope that a view's contents describe, placed in its directory.
pub open spec fn placed_scope(
    directory: Seq<u8>,
    view_path: Seq<u8>,
    contents: Option<Seq<char>>,
) -> Option<ScopeView> {
    match contents {
        Some(text) => match parsed_scope(text) {
            Some(scope) => Some(ScopeView { base: directory, view_path, ..scope }),
            None => None,
        },
        None => None,
    }
}

/// One step of the search. A view that is found settles it; the top of a
/// repository, or of the file system, ends it.
pub open spec fn discovery_step(
    search: DiscoveryView,
    yes: bool,
    contents: Option<Seq<char>>,
) -> OutcomeView {
    match search {
        DiscoveryView::Probe { directory, candidate } => if yes {
            OutcomeView::Continue(
                DiscoveryView::Read { directory, view_path: view_place(directory, candidate) },
            )
        } else if candidate == 0 {
            OutcomeView::Continue(DiscoveryView::Probe { directory, candidate: 1 })
        } else {
            OutcomeView::Continue(DiscoveryView::Boundary { directory })
        },
        DiscoveryView::Read { directory, view_path } => OutcomeView::Finished(
            placed_scope(directory, view_path, contents),
        ),
        DiscoveryView::Boundary { directory } => if yes {
            OutcomeView::Finished(None)
        } else {
            match parent_path(directory) {
                Some(above) => OutcomeView::Continue(
                    DiscoveryView::Probe { directory: above, candidate: 0 },
                ),
                None => OutcomeView::Finished(None),
            }
        },
    }
}

/// A file system as far as the search looks at it.
pub ghost struct Tree {
    pub is_file: spec_fn(Seq<u8>) -> bool,
    pub contents: spec_fn(Seq<u8>) -> Option<Seq<char>>,
    pub exists: spec_fn(Seq<u8>) -> bool,
}

/// The scope that holds in a directory: that of the nearest project view in it
/// or above it, within the repository.
pub open spec fn scope_at(tree: Tree, directory: Seq<u8>) -> Option<ScopeView>
    decreases components(directory).len(),
{
    if (tree.is_file)(view_place(directory, 0)) {
        let place = view_place(directory, 0);
        placed_scope(directory, place, (tree.contents)(place))
    } else if (tree.is_file)(view_place(directory, 1)) {
        let place = view_place(directory, 1);
        placed_scope(directory, place, (tree.contents)(place))
    } else if (tree.exists)(joined(directory, encode_utf8(".git"@))) {
        None
    } else {
        proof {
            crate::path::lemma_parent_components(directory);
        }
        match parent_path(directory) {
            Some(above) => scope_at(tree, above),
            None => None,
        }
    }
}

/// What holds in a directory without a project view of its own.
pub open spec fn scope_above(tree: Tree, directory: Seq<u8>) -> Option<ScopeView> {
    if (tree.exists)(joined(directory, encode_utf8(".git"@))) {
        None
    } else {
        match parent_path(directory) {
            Some(above) => scope_at(tree, above),
            None => None,
        }
    }
}

/// What the search will find in the tree from where it stands.
pub open spec fn sought(tree: Tree, search: DiscoveryView) -> Option<ScopeView> {
    match search {
        DiscoveryView::Probe { directory, candidate } => if candidate == 0 {
            scope_at(tree, directory)
        } else if (tree.is_file)(view_place(directory, 1)) {
            let place = view_place(directory, 1);
            placed_scope(directory, place, (tree.contents)(place))
        } else {
            scope_above(tree, directory)
        },
        DiscoveryView::Read { directory, view_path } => placed_scope(
            directory,
            view_path,
            (tree.contents)(view_path),
        ),
        DiscoveryView::Boundary { directory } => scope_above(tree, directory),
    }
}

pub open spec fn valid_search(search: DiscoveryView) -> bool {
    search matches DiscoveryView::Probe { candidate, .. } ==> candidate <= 1
}

pub open spec fn answer_yes(tree: Tree, asked: QuestionView) -> bool {
    match asked {
        QuestionView::IsFile(path) => (tree.is_file)(path),
        QuestionView::Contents(path) => true,
        QuestionView::Exists(path) => (tree.exists)(path),
    }
}

pub open spec fn answer_contents(tree: Tree, asked: QuestionView) -> Option<Seq<char>> {
    match asked {
        QuestionView::Contents(path) => (tree.contents)(path),
        _ => None,
    }
}

/// Answered from a file system, a step keeps what the search will find, and the
/// search ends with exactly that: the scope of the nearest project view.
pub proof fn law_search_finds_the_nearest_view(tree: Tree, search: DiscoveryView)
    requires
        valid_search(search),
    ensures
        ({
            let asked = question(search);
            match discovery_step(search, answer_yes(tree, asked), answer_contents(tree, asked)) {
                OutcomeView::Continue(next) => valid_search(next) && sought(tree, next) == sought(
                    tree,
                    search,
                ),
                OutcomeView::Finished(scope) => scope == sought(tree, search),
            }
        }),
{
}

impl Discovery {
    pub open spec fn wf(&self) -> bool {
        valid_search(self@)
    }

    /// Starts the search in a directory.
    pub fn discover(directory: Vec<u8>) -> (search: Self)
        ensures
            search@ == (DiscoveryView::Probe { directory: directory@, candidate: 0 }),
            search.wf(),
    {
        Discovery::Probe { directory, candidate: 0 }
    }

    /// What has to be looked up next.
    pub fn question(&self) -> (asked: DiscoveryQuestion)
        ensures
            asked@ == question(self@),
    {
        match self {
            Discovery::Probe { directory, candidate } => DiscoveryQuestion::IsFile(
                place_of_view(directory, *candidate),
            ),
            Discovery::Read { directory: _, view_path } => DiscoveryQuestion::Contents(
                copy_path(view_path),
            ),
            Discovery::Boundary { directory } => DiscoveryQuestion::Exists(
                join(directory, ".git".as_bytes()),
            ),
        }
    }

    /// Goes on with the answer.
    pub fn advance(self, answer: DiscoveryAnswer) -> (outcome: DiscoveryOutcome)
        ensures
            outcome@ == discovery_step(self@, answer.yes, option_view(answer.contents)),
            self.wf() ==> (outcome matches DiscoveryOutcome::Continue(next) ==> next.wf()),
    {
        match self {
            Discovery::Probe { directory, candidate } => {
                if answer.yes {
                    let view_path = place_of_view(&directory, candidate);
                    DiscoveryOutcome::Continue(Discovery::Read { directory, view_path })
                } else if candidate == 0 {
                    DiscoveryOutcome::Continue(Discovery::Probe { directory, candidate: 1 })
                } else {
                    DiscoveryOutcome::Continue(Discovery::Boundary { directory })
                }
            },
            Discovery::Read { directory, view_path } => {
                let scope = match &answer.contents {
                    Some(text) => match ProjectScope::parse(text.as_str()) {
                        Some(parsed) => Some(
                            ProjectScope {
                                base: directory,
                                view_path,
                                included: parsed.included,
                                excluded: parsed.excluded,
                            },
                        ),
                        None => None,
                    },
                    None => None,
                };
                DiscoveryOutcome::Finished(scope)
            },
            Discovery::Boundary { directory } => {
                if answer.yes {
                    DiscoveryOutcome::Finished(None)
                } else {
                    match parent(&directory) {
                        Some(above) => DiscoveryOutcome::Continue(
                            Discovery::Probe { directory: above, candidate: 0 },
                        ),
                        None => DiscoveryOutcome::Finished(None),
                    }
                }
            },
        }
    }
}

fn place_of_view(directory: &Vec<u8>, candidate: usize) -> (place: Vec<u8>)
    ensures
        place@ == view_place(directory@, candidate as nat),
{
    if candidate == 0 {
        let inner = join(directory, ".eclipse".as_bytes());
        join(&inner, ".bazelproject".as_bytes())
    } else {
        join(directory, ".bazelproject".as_bytes())
    }
}

/// A normalized path has names alone for components, the names of the path it
/// came from, and normalizing it again changes nothing.
pub proof fn law_normalized_paths_stay_inside(path: Seq<u8>)
    ensures
        normalized_path(path) matches Some(plain) ==> {
            &&& components(plain) == Seq::new(
                path_names(path).len(),
                |i: int| ComponentView::Normal(path_names(path)[i]),
            )
            &&& stays_inside(components(plain))
            &&& normalized_path(plain) == Some(plain)
        },
{
    let found = path_names(path);
    let plain = joined_names(found);
    if stays_inside(components(path)) {
        lemma_path_names_plain(path);
        lemma_joined_names_components(found);
        lemma_normal_names_of(found);
    }
}

proof fn lemma_normal_names_of(found: Seq<Seq<u8>>)
    ensures
        normal_names(Seq::new(found.len(), |i: int| ComponentView::Normal(found[i]))) == found,
    decreases found.len(),
{
    let parts = Seq::new(found.len(), |i: int| ComponentView::Normal(found[i]));
    if found.len() > 0 {
        lemma_normal_names_of(found.skip(1));
        assert(parts.skip(1) =~= Seq::new(
            found.skip(1).len(),
            |i: int| ComponentView::Normal(found.skip(1)[i]),
        ));
        assert(normal_names(parts) =~= found);
    } else {
        assert(normal_names(parts) =~= found);
    }
}

/// Nothing below an excluded directory is in scope.
pub proof fn law_exclusion_wins(scope: ScopeView, path: Seq<Seq<u8>>)
    requires
        covered(scope.excluded, path),
    ensures
        !file_in_scope(scope, path),
        !directory_in_scope(scope, path),
{
}

/// A walk that enters only directories in scope reaches every file in scope:
/// each directory above such a file is in scope.
pub proof fn law_files_in_scope_are_reached(scope: ScopeView, path: Seq<Seq<u8>>, k: int)
    requires
        file_in_scope(scope, path),
        0 <= k <= path.len(),
    ensures
        directory_in_scope(scope, path.take(k)),
{
    let above = path.take(k);
    let i = choose|i: int|
        0 <= i < scope.included.len() && ((#[trigger] scope.included[i]).len() == 0
            || equal_or_below(path, path_names(scope.included[i])));
    let pattern = path_names(scope.included[i]);
    if scope.included[i].len() > 0 {
        if k >= pattern.len() {
            assert(equal_or_below(above, pattern)) by {
                assert forall|j: int| 0 <= j < pattern.len() implies name_matches(
                    #[trigger] pattern[j],
                    above[j],
                ) by {
                    assert(above[j] == path[j]);
                }
            }
        } else {
            assert(leads_to(above, pattern)) by {
                assert forall|j: int| 0 <= j < above.len() implies name_matches(
                    pattern[j],
                    #[trigger] above[j],
                ) by {
                    assert(above[j] == path[j]);
                }
            }
        }
    }
    if covered(scope.excluded, above) {
        let e = choose|e: int|
            0 <= e < scope.excluded.len() && equal_or_below(
                above,
                path_names(#[trigger] scope.excluded[e]),
            );
        let base = path_names(scope.excluded[e]);
        assert(equal_or_below(path, base)) by {
            assert forall|j: int| 0 <= j < base.len() implies name_matches(
                #[trigger] base[j],
                path[j],
            ) by {
                assert(above[j] == path[j]);
            }
        }
        assert(covered(scope.excluded, path));
    }
}

pub open spec fn unique_plain_paths(list: Seq<Seq<u8>>) -> bool {
    &&& list.no_duplicates()
    &&& forall|i: int| 0 <= i < list.len() ==> normalized_path(#[trigger] list[i]) == Some(list[i])
}

/// A scope that is read from a view includes something, lists nothing twice, and
/// lists normalized paths only.
pub proof fn law_parsed_scopes_are_plain(contents: Seq<char>)
    ensures
        parsed_scope(contents) matches Some(scope) ==> {
            &&& scope.included.len() > 0
            &&& unique_plain_paths(scope.included)
            &&& unique_plain_paths(scope.excluded)
        },
{
    lemma_listing_plain(empty_listing(), text_lines(contents));
}

proof fn lemma_with_path_plain(list: Seq<Seq<u8>>, path: Seq<u8>)
    requires
        unique_plain_paths(list),
        normalized_path(path) == Some(path),
    ensures
        unique_plain_paths(with_path(list, path)),
{
    let longer = with_path(list, path);
    assert forall|i: int| 0 <= i < longer.len() implies normalized_path(#[trigger] longer[i])
        == Some(longer[i]) by {
        if i < list.len() {
            assert(longer[i] == list[i]);
        }
    }
    if !list.contains(path) {
        assert forall|i: int, j: int| 0 <= i < longer.len() && 0 <= j < longer.len() && i
            != j implies longer[i] != longer[j] by {
            if i < list.len() {
                assert(list.contains(list[i]));
            }
            if j < list.len() {
                assert(list.contains(list[j]));
            }
        }
    }
}

proof fn lemma_listing_plain(listing: Listing, text: Seq<Seq<char>>)
    requires
        unique_plain_paths(listing.included),
        unique_plain_paths(listing.excluded),
    ensures
        read_view_lines(listing, text) matches Some(after) ==> unique_plain_paths(after.included)
            && unique_plain_paths(after.excluded),
    decreases text.len(),
{
    if text.len() > 0 {
        let line = text[0];
        let entry = view_entry(line);
        law_normalized_paths_stay_inside(encode_utf8(trim(entry.skip(1))));
        law_normalized_paths_stay_inside(encode_utf8(entry));
        if let Some(path) = normalized_path(encode_utf8(trim(entry.skip(1)))) {
            lemma_with_path_plain(listing.excluded, path);
        }
        if let Some(path) = normalized_path(encode_utf8(entry)) {
            lemma_with_path_plain(listing.included, path);
        }
        if let Some(after) = read_view_line(listing, line) {
            lemma_listing_plain(after, text.skip(1));
        }
    }
}

/// Whether a line of a project view stands at the margin, and so opens a section.
pub open spec fn opens_section(line: Seq<char>) -> bool {
    view_entry(line).len() > 0 && !is_space(line[0])
}

/// Whether the line at `k` is in the section of directories: the nearest line above it
/// at the margin opens that section. `start` is the answer where there is none.
pub open spec fn in_section(start: bool, lines: Seq<Seq<char>>, k: int) -> bool
    decreases k,
{
    if k <= 0 {
        start
    } else if opens_section(lines[k - 1]) {
        view_entry(lines[k - 1]) == "directories:"@
    } else {
        in_section(start, lines, k - 1)
    }
}

/// Whether the line at `k` is an entry of the section of directories.
pub open spec fn is_entry(start: bool, lines: Seq<Seq<char>>, k: int) -> bool {
    &&& 0 <= k < lines.len()
    &&& view_entry(lines[k]).len() > 0
    &&& is_space(lines[k][0])
    &&& in_section(start, lines, k)
}

/// Whether an entry leaves a directory out.
pub open spec fn leaves_out(line: Seq<char>) -> bool {
    view_entry(line)[0] == '-'
}

/// The directory that an entry names.
pub open spec fn named_directory(line: Seq<char>) -> Option<Seq<u8>> {
    normalized_path(
        encode_utf8(
            if leaves_out(line) {
                trim(view_entry(line).skip(1))
            } else {
                view_entry(line)
            },
        ),
    )
}

/// Whether an entry names the directory, to take it in or to leave it out.
pub open spec fn names_it(
    start: bool,
    lines: Seq<Seq<char>>,
    k: int,
    out: bool,
    path: Seq<u8>,
) -> bool {
    is_entry(start, lines, k) && leaves_out(lines[k]) == out && named_directory(lines[k]) == Some(
        path,
    )
}

pub open spec fn some_names_it(
    start: bool,
    lines: Seq<Seq<char>>,
    out: bool,
    path: Seq<u8>,
) -> bool {
    exists|k: int| #[trigger] names_it(start, lines, k, out, path)
}

/// Whether an entry names no directory below the view's.
pub open spec fn some_is_bad(start: bool, lines: Seq<Seq<char>>) -> bool {
    exists|k: int| #[trigger] is_entry(start, lines, k) && named_directory(lines[k]) is None
}

proof fn lemma_in_section_skip(start: bool, lines: Seq<Seq<char>>, k: int)
    requires
        lines.len() > 0,
        0 <= k < lines.len(),
    ensures
        in_section(start, lines, k + 1) == in_section(
            in_section(start, lines, 1),
            lines.skip(1),
            k,
        ),
    decreases k,
{
    if k > 0 {
        lemma_in_section_skip(start, lines, k - 1);
        assert(lines.skip(1)[k - 1] == lines[k]);
    }
}

proof fn lemma_entry_skip(start: bool, lines: Seq<Seq<char>>, k: int)
    requires
        lines.len() > 0,
        0 <= k,
    ensures
        is_entry(start, lines, k + 1) == is_entry(
            in_section(start, lines, 1),
            lines.skip(1),
            k,
        ),
        k + 1 < lines.len() ==> lines.skip(1)[k] == lines[k + 1],
{
    if k + 1 < lines.len() {
        lemma_in_section_skip(start, lines, k);
    }
}

proof fn lemma_names_skip(start: bool, lines: Seq<Seq<char>>, out: bool, path: Seq<u8>)
    requires
        lines.len() > 0,
    ensures
        some_names_it(start, lines, out, path) == (names_it(start, lines, 0, out, path)
            || some_names_it(in_section(start, lines, 1), lines.skip(1), out, path)),
{
    let next = in_section(start, lines, 1);
    let rest = lines.skip(1);
    if some_names_it(start, lines, out, path) {
        let k = choose|k: int| #[trigger] names_it(start, lines, k, out, path);
        if k > 0 {
            lemma_entry_skip(start, lines, k - 1);
            assert(names_it(next, rest, k - 1, out, path));
        }
    }
    if some_names_it(next, rest, out, path) {
        let k = choose|k: int| #[trigger] names_it(next, rest, k, out, path);
        lemma_entry_skip(start, lines, k);
        assert(names_it(start, lines, k + 1, out, path));
    }
}

proof fn lemma_bad_skip(start: bool, lines: Seq<Seq<char>>)
    requires
        lines.len() > 0,
    ensures
        some_is_bad(start, lines) == ((is_entry(start, lines, 0) && named_directory(lines[0])
            is None) || some_is_bad(in_section(start, lines, 1), lines.skip(1))),
{
    let next = in_section(start, lines, 1);
    let rest = lines.skip(1);
    if some_is_bad(start, lines) {
        let k = choose|k: int| #[trigger]
            is_entry(start, lines, k) && named_directory(lines[k]) is None;
        if k > 0 {
            lemma_entry_skip(start, lines, k - 1);
            assert(is_entry(next, rest, k - 1) && named_directory(rest[k - 1]) is None);
        }
    }
    if some_is_bad(next, rest) {
        let k = choose|k: int| #[trigger]
            is_entry(next, rest, k) && named_directory(rest[k]) is None;
        lemma_entry_skip(start, lines, k);
        assert(is_entry(start, lines, k + 1) && named_directory(lines[k + 1]) is None);
    }
}

proof fn lemma_with_path(list: Seq<Seq<u8>>, path: Seq<u8>, other: Seq<u8>)
    ensures
        with_path(list, path).contains(other) == (list.contains(other) || other == path),
{
    if !list.contains(path) {
        let longer = list.push(path);
        assert(longer[list.len() as int] == path);
        if list.contains(other) {
            assert(longer[list.index_of(other)] == other);
        }
        if longer.contains(other) {
            let k = longer.index_of(other);
            if k < list.len() {
                assert(list[k] == other);
            }
        }
    }
}

proof fn lemma_view_lines(listing: Listing, lines: Seq<Seq<char>>, path: Seq<u8>)
    ensures
        ({
            let start = listing.in_directories;
            &&& read_view_lines(listing, lines) is None <==> some_is_bad(start, lines)
            &&& read_view_lines(listing, lines) matches Some(found) ==> {
                &&& found.included.contains(path) == (listing.included.contains(path)
                    || some_names_it(start, lines, false, path))
                &&& found.excluded.contains(path) == (listing.excluded.contains(path)
                    || some_names_it(start, lines, true, path))
            }
        }),
    decreases lines.len(),
{
    let start = listing.in_directories;
    if lines.len() > 0 {
        let line = lines[0];
        let rest = lines.skip(1);
        lemma_bad_skip(start, lines);
        lemma_names_skip(start, lines, false, path);
        lemma_names_skip(start, lines, true, path);
        assert(in_section(start, lines, 0) == start);
        if let Some(after) = read_view_line(listing, line) {
            assert(after.in_directories == in_section(start, lines, 1));
            lemma_view_lines(after, rest, path);
            if let Some(named) = named_directory(line) {
                lemma_with_path(listing.included, named, path);
                lemma_with_path(listing.excluded, named, path);
            }
        }
    }
}

/// A project view takes in the directories that the entries of its section name, and
/// leaves out those that they name with a minus sign; other sections count for nothing.
/// It describes no scope where an entry leads out of the view's directory, or where
/// nothing is taken in.
pub proof fn law_view_lists_its_directories(contents: Seq<char>)
    ensures
        ({
            let lines = text_lines(contents);
            &&& parsed_scope(contents) matches Some(scope) ==> {
                &&& !some_is_bad(false, lines)
                &&& forall|path: Seq<u8>| #[trigger]
                    scope.included.contains(path) <==> some_names_it(false, lines, false, path)
                &&& forall|path: Seq<u8>| #[trigger]
                    scope.excluded.contains(path) <==> some_names_it(false, lines, true, path)
            }
            &&& parsed_scope(contents) is None ==> some_is_bad(false, lines) || forall|path: Seq<u8>|
                !#[trigger] some_names_it(false, lines, false, path)
        }),
{
    let lines = text_lines(contents);
    lemma_view_lines(empty_listing(), lines, Seq::empty());
    if let Some(scope) = parsed_scope(contents) {
        assert forall|path: Seq<u8>| #[trigger]
            scope.excluded.contains(path) <==> some_names_it(false, lines, true, path) by {
            lemma_view_lines(empty_listing(), lines, path);
        }
        assert forall|path: Seq<u8>| #[trigger]
            scope.included.contains(path) <==> some_names_it(false, lines, false, path) by {
            lemma_view_lines(empty_listing(), lines, path);
        }
    } else {
        assert forall|path: Seq<u8>| !some_is_bad(false, lines) implies !(#[trigger] some_names_it(
            false,
            lines,
            false,
            path,
        )) by {
            lemma_view_lines(empty_listing(), lines, path);
        }
    }
}

/// Of a line of a project view counts what stands in it without the white space round
/// it and without the comment behind it.
pub proof fn law_view_entries_lose_comments(
    before: Seq<char>,
    entry: Seq<char>,
    after: Seq<char>,
    comment: Option<Seq<char>>,
)
    requires
        forall|i: int| 0 <= i < before.len() ==> is_space(#[trigger] before[i]),
        forall|i: int| 0 <= i < after.len() ==> is_space(#[trigger] after[i]),
        entry.len() > 0 ==> !is_space(entry[0]) && !is_space(entry.last()),
        forall|i: int| 0 <= i < entry.len() ==> entry[i] != '#',
    ensures
        ({
            let text = before + entry + after;
            view_entry(
                match comment {
                    Some(words) => text + seq!['#'] + words,
                    None => text,
                },
            ) == entry
        }),
{
    let text = before + entry + after;
    assert forall|i: int| 0 <= i < text.len() implies text[i] != '#' by {
        if i < before.len() {
            assert(is_space(before[i]));
            assert(text[i] == before[i]);
        } else if i < before.len() + entry.len() {
            assert(text[i] == entry[i - before.len()]);
        } else {
            let j = i - before.len() - entry.len();
            assert(is_space(after[j]));
            assert(text[i] == after[j]);
        }
    }
    law_trimming_cuts_white_space(before, entry, after);
    match comment {
        Some(words) => {
            lemma_split_after(text, words, '#');
        },
        None => {
            lemma_split_single(text, '#');
        },
    }
}

/// Whether the names lead to the directory of the pattern or below it, a star standing
/// for any one name.
pub open spec fn lies_below(found: Seq<Seq<u8>>, pattern: Seq<Seq<u8>>) -> bool {
    &&& found.len() >= pattern.len()
    &&& forall|i: int|
        0 <= i < pattern.len() ==> #[trigger] pattern[i] == seq!['*' as u8] || pattern[i]
            == found[i]
}

/// A file below the view's directory is in scope if and only if it lies in a directory
/// that is taken in and in none that is left out.
pub proof fn law_scope_holds_what_its_directories_hold(
    scope: ScopeView,
    path: Seq<u8>,
    found: Seq<Seq<u8>>,
)
    requires
        components(path) == components(scope.base) + Seq::new(
            found.len(),
            |i: int| ComponentView::Normal(found[i]),
        ),
        found.len() > 0,
    ensures
        absolute_in_scope(scope, path, false) <==> (exists|i: int|
            0 <= i < scope.included.len() && lies_below(
                found,
                path_names(#[trigger] scope.included[i]),
            )) && !(exists|i: int|
            0 <= i < scope.excluded.len() && lies_below(
                found,
                path_names(#[trigger] scope.excluded[i]),
            )),
{
    let parts = Seq::new(found.len(), |i: int| ComponentView::Normal(found[i]));
    let base = components(scope.base);
    assert(components(path).subrange(0, base.len() as int) =~= base);
    assert(base.is_prefix_of(components(path)));
    assert(components(path).skip(base.len() as int) =~= parts);
    lemma_normal_names_of(found);
    assert forall|pattern: Seq<Seq<u8>>| #[trigger]
        lies_below(found, pattern) == equal_or_below(found, pattern) by {
        if lies_below(found, pattern) {
            assert forall|i: int| 0 <= i < pattern.len() implies name_matches(
                #[trigger] pattern[i],
                found[i],
            ) by {}
        }
        if equal_or_below(found, pattern) {
            assert forall|i: int| 0 <= i < pattern.len() implies #[trigger] pattern[i]
                == seq!['*' as u8] || pattern[i] == found[i] by {
                assert(name_matches(pattern[i], found[i]));
            }
        }
    }
    assert forall|i: int|
        0 <= i < scope.included.len() && (#[trigger] scope.included[i]).len() == 0 implies lies_below(
        found,
        path_names(scope.included[i]),
    ) by {
        crate::path::lemma_single_piece(scope.included[i]);
        assert(path_names(scope.included[i]) =~= Seq::empty());
    }
    if file_in_scope(scope, found) {
        let i = choose|i: int|
            0 <= i < scope.included.len() && ((#[trigger] scope.included[i]).len() == 0
                || equal_or_below(found, path_names(scope.included[i])));
        assert(lies_below(found, path_names(scope.included[i])));
        assert forall|e: int| 0 <= e < scope.excluded.len() implies !lies_below(
            found,
            path_names(#[trigger] scope.excluded[e]),
        ) by {
            assert(!covered(scope.excluded, found));
        }
    }
}

/// A path of a view is refused if and only if it starts at the root or climbs out of a
/// directory somewhere.
pub proof fn law_only_paths_that_lead_out_are_refused(path: Seq<u8>)
    ensures
        normalized_path(path) is None <==> components(path).contains(ComponentView::RootDir)
            || components(path).contains(ComponentView::ParentDir),
{
    let parts = components(path);
    if !stays_inside(parts) {
        let i = choose|i: int|
            0 <= i < parts.len() && !(#[trigger] parts[i] != ComponentView::ParentDir && parts[i]
                != ComponentView::RootDir);
        assert(parts.contains(parts[i]));
    }
    if parts.contains(ComponentView::RootDir) {
        assert(parts[parts.index_of(ComponentView::RootDir)] == ComponentView::RootDir);
    }
    if parts.contains(ComponentView::ParentDir) {
        assert(parts[parts.index_of(ComponentView::ParentDir)] == ComponentView::ParentDir);
    }
}

/// Whether the pattern leads through the directory of the names, or to it, a star standing
/// for any one name.
pub open spec fn lies_above(found: Seq<Seq<u8>>, pattern: Seq<Seq<u8>>) -> bool {
    &&& found.len() <= pattern.len()
    &&& forall|i: int|
        0 <= i < found.len() ==> #[trigger] pattern[i] == seq!['*' as u8] || pattern[i] == found[i]
}

/// A walk enters a directory below the view's own if and only if that lies in a directory
/// that is taken in, or on the way to one, and in none that is left out.
pub proof fn law_walks_enter_only_what_leads_into_the_scope(
    scope: ScopeView,
    path: Seq<u8>,
    found: Seq<Seq<u8>>,
)
    requires
        components(path) == components(scope.base) + Seq::new(
            found.len(),
            |i: int| ComponentView::Normal(found[i]),
        ),
        found.len() > 0,
    ensures
        absolute_in_scope(scope, path, true) <==> (exists|i: int|
            0 <= i < scope.included.len() && (lies_below(
                found,
                path_names(#[trigger] scope.included[i]),
            ) || lies_above(found, path_names(scope.included[i])))) && !(exists|i: int|
            0 <= i < scope.excluded.len() && lies_below(
                found,
                path_names(#[trigger] scope.excluded[i]),
            )),
{
    let parts = Seq::new(found.len(), |i: int| ComponentView::Normal(found[i]));
    let base = components(scope.base);
    assert(components(path).subrange(0, base.len() as int) =~= base);
    assert(base.is_prefix_of(components(path)));
    assert(components(path).skip(base.len() as int) =~= parts);
    lemma_normal_names_of(found);
    assert forall|pattern: Seq<Seq<u8>>| #[trigger]
        lies_below(found, pattern) == equal_or_below(found, pattern) by {
        lemma_below(found, pattern);
    }
    assert forall|pattern: Seq<Seq<u8>>| #[trigger]
        lies_above(found, pattern) == leads_to(found, pattern) by {
        lemma_above(found, pattern);
    }
    assert forall|i: int|
        0 <= i < scope.included.len() && (#[trigger] scope.included[i]).len() == 0 implies lies_below(
        found,
        path_names(scope.included[i]),
    ) by {
        crate::path::lemma_single_piece(scope.included[i]);
        assert(path_names(scope.included[i]) =~= Seq::empty());
    }
    if directory_in_scope(scope, found) {
        let i = choose|i: int|
            0 <= i < scope.included.len() && ((#[trigger] scope.included[i]).len() == 0
                || equal_or_below(found, path_names(scope.included[i])) || leads_to(
                found,
                path_names(scope.included[i]),
            ));
        let pattern = path_names(scope.included[i]);
        assert(lies_below(found, pattern) || lies_above(found, pattern)) by {
            assert(lies_below(found, pattern) == equal_or_below(found, pattern));
            assert(lies_above(found, pattern) == leads_to(found, pattern));
        }
        assert forall|e: int| 0 <= e < scope.excluded.len() implies !lies_below(
            found,
            path_names(#[trigger] scope.excluded[e]),
        ) by {
            assert(!covered(scope.excluded, found));
        }
    }
}

proof fn lemma_below(found: Seq<Seq<u8>>, pattern: Seq<Seq<u8>>)
    ensures
        lies_below(found, pattern) == equal_or_below(found, pattern),
{
    if lies_below(found, pattern) {
        assert forall|i: int| 0 <= i < pattern.len() implies name_matches(
            #[trigger] pattern[i],
            found[i],
        ) by {}
    }
    if equal_or_below(found, pattern) {
        assert forall|i: int| 0 <= i < pattern.len() implies #[trigger] pattern[i]
            == seq!['*' as u8] || pattern[i] == found[i] by {
            assert(name_matches(pattern[i], found[i]));
        }
    }
}

proof fn lemma_above(found: Seq<Seq<u8>>, pattern: Seq<Seq<u8>>)
    ensures
        lies_above(found, pattern) == leads_to(found, pattern),
{
    if lies_above(found, pattern) {
        assert forall|i: int| 0 <= i < found.len() implies name_matches(
            pattern[i],
            #[trigger] found[i],
        ) by {
            assert(pattern[i] == seq!['*' as u8] || pattern[i] == found[i]);
        }
    }
    if leads_to(found, pattern) {
        assert forall|i: int| 0 <= i < found.len() implies #[trigger] pattern[i]
            == seq!['*' as u8] || pattern[i] == found[i] by {
            assert(name_matches(pattern[i], found[i]));
        }
    }
}

/// What lies neither below the view's directory nor above it is out of scope; the directory
/// itself and those above it are open to a walk.
pub proof fn law_the_scope_ends_at_its_directory(scope: ScopeView, path: Seq<u8>, is_dir: bool)
    ensures
        components(path).is_prefix_of(components(scope.base)) ==> absolute_in_scope(
            scope,
            path,
            is_dir,
        ),
        !components(path).is_prefix_of(components(scope.base)) && !components(
            scope.base,
        ).is_prefix_of(components(path)) ==> !absolute_in_scope(scope, path, is_dir),
{
    let parts = components(path);
    let base = components(scope.base);
    if parts.is_prefix_of(base) && base.is_prefix_of(parts) {
        assert(parts.skip(base.len() as int).len() == 0);
    }
}

/// A view is looked for in two places of a directory: in its `.eclipse` directory first,
/// then in the directory itself, under one name.
pub proof fn law_a_view_lies_in_one_of_two_places(directory: Seq<u8>)
    ensures
        ({
            let first = view_place(directory, 0);
            let second = view_place(directory, 1);
            let name = ComponentView::Normal(encode_utf8(".bazelproject"@));
            let inner = ComponentView::Normal(encode_utf8(".eclipse"@));
            &&& components(first) == components(directory).push(inner).push(name)
            &&& components(second) == components(directory).push(name)
        }),
{
    reveal_strlit(".eclipse");
    reveal_strlit(".bazelproject");
    lemma_dotted_name(".eclipse"@);
    lemma_dotted_name(".bazelproject"@);
    crate::path::lemma_joined_name(directory, encode_utf8(".eclipse"@));
    crate::path::lemma_joined_name(directory, encode_utf8(".bazelproject"@));
    crate::path::lemma_joined_name(
        joined(directory, encode_utf8(".eclipse"@)),
        encode_utf8(".bazelproject"@),
    );
}

proof fn lemma_dotted_name(name: Seq<char>)
    requires
        name.len() > 2,
        forall|i: int|
            0 <= i < name.len() ==> '\0' <= #[trigger] name[i] <= '\u{7f}' && name[i] != '/',
    ensures
        crate::path::plain_name(encode_utf8(name)),
{
    let bytes = encode_utf8(name);
    assert(vstd::utf8::is_ascii_chars(name));
    vstd::utf8::is_ascii_chars_encode_utf8(name);
    assert(bytes.len() == name.len());
    assert forall|i: int| 0 <= i < bytes.len() implies bytes[i] != SEPARATOR by {
        assert(bytes[i] == name[i] as u8);
    }
    if bytes.contains(SEPARATOR) {
        assert(bytes[bytes.index_of(SEPARATOR)] == SEPARATOR);
    }
}

} // verus!
