//! The rows of the sidebar: what the filter lets through, grouped by folder.
use vstd::prelude::*;

use crate::git::{GitChange, GitChangeView};
use crate::model::{copy_path, Change, ChangeView, CurrentFile, FileView};
use crate::path::{
    components, file_name, final_name, lemma_parent_components, lemma_single_piece,
    lemma_some_components, parent, parent_path, same_parts, split_path, Component, ComponentView,
};
use crate::seqs::{group_views, has_infix, occurs_at, option_view, views};
use crate::sets::{Group, GroupSet, Tab};
use crate::sort::as_ints;
use crate::text::{contains, lossy, lossy_text, lower, lowercase, lowercased, to_chars};

verus! {

/// Whether the filter lets a path through: it occurs in it, whatever the case of
/// the letters.
pub open spec fn path_matches(path: Seq<u8>, filter: Seq<char>) -> bool {
    filter.len() == 0 || has_infix(lowercase(lossy(path)), lowercase(filter))
}

pub open spec fn change_matches(change: ChangeView, filter: Seq<char>) -> bool {
    path_matches(change.path, filter)
}

pub open spec fn git_matches(change: GitChangeView, filter: Seq<char>) -> bool {
    path_matches(change.path, filter) || (change.old_path matches Some(old) && path_matches(
        old,
        filter,
    ))
}

pub open spec fn file_matches(file: FileView, filter: Seq<char>) -> bool {
    path_matches(file.relative, filter)
}

/// The indices that are let through, in order.
pub open spec fn chosen(passes: Seq<bool>) -> Seq<int>
    decreases passes.len(),
{
    if passes.len() == 0 {
        Seq::empty()
    } else if passes.last() {
        chosen(passes.drop_last()).push(passes.len() - 1)
    } else {
        chosen(passes.drop_last())
    }
}

pub open spec fn change_indices(changes: Seq<ChangeView>, filter: Seq<char>) -> Seq<int> {
    chosen(Seq::new(changes.len(), |i: int| change_matches(changes[i], filter)))
}

pub open spec fn git_indices(changes: Seq<GitChangeView>, filter: Seq<char>) -> Seq<int> {
    chosen(Seq::new(changes.len(), |i: int| git_matches(changes[i], filter)))
}

pub open spec fn file_indices(files: Seq<FileView>, filter: Seq<char>) -> Seq<int> {
    chosen(Seq::new(files.len(), |i: int| file_matches(files[i], filter)))
}

pub proof fn lemma_chosen(passes: Seq<bool>)
    ensures
        chosen(passes).len() <= passes.len(),
        forall|k: int|
            0 <= k < chosen(passes).len() ==> 0 <= #[trigger] chosen(passes)[k] < passes.len(),
        forall|x: int|
            #[trigger] chosen(passes).contains(x) <==> 0 <= x < passes.len() && passes[x],
        forall|i: int, j: int|
            #![trigger chosen(passes)[i], chosen(passes)[j]]
            0 <= i < j < chosen(passes).len() ==> chosen(passes)[i] < chosen(passes)[j],
    decreases passes.len(),
{
    if passes.len() > 0 {
        let front = passes.drop_last();
        lemma_chosen(front);
        let rest = chosen(front);
        let all = chosen(passes);
        let last = passes.len() - 1;
        assert forall|x: int| #[trigger] all.contains(x) <==> 0 <= x < passes.len()
            && passes[x] by {
            if rest.contains(x) {
                assert(all[rest.index_of(x)] == x);
                assert(front[x] == passes[x]);
            }
            if 0 <= x < last && passes[x] {
                assert(front[x] == passes[x]);
                assert(rest.contains(x));
            }
            if passes.last() {
                assert(all[all.len() - 1] == last);
            }
            if all.contains(x) {
                let k = all.index_of(x);
                if k < rest.len() {
                    assert(rest[k] == x);
                    assert(rest.contains(x));
                }
            }
        }
        assert forall|k: int| 0 <= k < all.len() implies 0 <= #[trigger] all[k] < passes.len() by {
            assert(all.contains(all[k]));
        }
        assert forall|i: int, j: int|
            #![trigger all[i], all[j]]
            0 <= i < j < all.len() implies all[i] < all[j] by {
            assert(all[i] == rest[i]);
            if j < rest.len() {
                assert(all[j] == rest[j]);
            }
        }
    }
}

/// A file is listed if and only if the filter lets it through, once, and in the
/// order of the files.
pub proof fn law_filter_lists_what_matches(files: Seq<FileView>, filter: Seq<char>)
    ensures
        forall|x: int|
            #[trigger] file_indices(files, filter).contains(x) <==> 0 <= x < files.len()
                && file_matches(files[x], filter),
        forall|i: int, j: int|
            #![trigger file_indices(files, filter)[i], file_indices(files, filter)[j]]
            0 <= i < j < file_indices(files, filter).len() ==> file_indices(files, filter)[i]
                < file_indices(files, filter)[j],
{
    lemma_chosen(Seq::new(files.len(), |i: int| file_matches(files[i], filter)));
}

/// Whether the characters are the same, or one ASCII letter in either case.
pub open spec fn same_letter(a: char, b: char) -> bool {
    ||| a == b
    ||| 'A' <= a <= 'Z' && b as int == a as int + 32
    ||| 'A' <= b <= 'Z' && a as int == b as int + 32
}

/// Whether the text stands in the other at the place, the case of letters aside.
pub open spec fn stands_in(whole: Seq<char>, text: Seq<char>, at: int) -> bool {
    &&& 0 <= at
    &&& at + text.len() <= whole.len()
    &&& forall|j: int| 0 <= j < text.len() ==> same_letter(whole[at + j], #[trigger] text[j])
}

/// Whether the text occurs in the path as it is shown, the case of letters aside.
pub open spec fn path_holds(path: Seq<u8>, text: Seq<char>) -> bool {
    exists|at: int| #[trigger] stands_in(lossy(path), text, at)
}

proof fn lemma_same_letter(a: char, b: char)
    ensures
        (lower(a) == lower(b)) == same_letter(a, b),
{
    if 'A' <= a <= 'Z' {
        assert(lower(a) as int == a as int + 32);
    }
    if 'A' <= b <= 'Z' {
        assert(lower(b) as int == b as int + 32);
    }
}

proof fn lemma_path_holds(path: Seq<u8>, filter: Seq<char>)
    ensures
        path_matches(path, filter) == path_holds(path, filter),
{
    let whole = lossy(path);
    if path_matches(path, filter) {
        if filter.len() == 0 {
            assert(stands_in(whole, filter, 0));
        } else {
            let at = choose|i: int| #[trigger] occurs_at(lowercase(whole), lowercase(filter), i);
            let found = lowercase(whole).subrange(at, at + filter.len());
            assert forall|j: int| 0 <= j < filter.len() implies same_letter(
                whole[at + j],
                #[trigger] filter[j],
            ) by {
                assert(found[j] == lowercase(filter)[j]);
                lemma_same_letter(whole[at + j], filter[j]);
            }
            assert(stands_in(whole, filter, at));
        }
    }
    if path_holds(path, filter) {
        let at = choose|at: int| #[trigger] stands_in(whole, filter, at);
        let found = lowercase(whole).subrange(at, at + filter.len());
        assert forall|j: int| 0 <= j < filter.len() implies found[j] == lowercase(filter)[j] by {
            lemma_same_letter(whole[at + j], filter[j]);
        }
        assert(found =~= lowercase(filter));
        assert(occurs_at(lowercase(whole), lowercase(filter), at));
    }
}

pub open spec fn increasing(indices: Seq<int>) -> bool {
    forall|i: int, j: int|
        #![trigger indices[i], indices[j]]
        0 <= i < j < indices.len() ==> indices[i] < indices[j]
}

/// A Git change is listed if and only if the filter occurs in its path or in the path
/// that it had, the case of letters aside: nothing else of it matters. Each is listed
/// once, in the order of the changes; an empty filter occurs everywhere.
pub proof fn law_filter_finds_git_changes(changes: Seq<GitChangeView>, filter: Seq<char>)
    ensures
        forall|x: int| #[trigger]
            git_indices(changes, filter).contains(x) <==> 0 <= x < changes.len() && (path_holds(
                changes[x].path,
                filter,
            ) || (changes[x].old_path is Some && path_holds(changes[x].old_path->0, filter))),
        increasing(git_indices(changes, filter)),
        filter.len() == 0 ==> git_indices(changes, filter).len() == changes.len(),
{
    let passes = Seq::new(changes.len(), |i: int| git_matches(changes[i], filter));
    lemma_chosen(passes);
    assert forall|x: int| #[trigger]
        git_indices(changes, filter).contains(x) <==> 0 <= x < changes.len() && (path_holds(
            changes[x].path,
            filter,
        ) || (changes[x].old_path is Some && path_holds(changes[x].old_path->0, filter))) by {
        if 0 <= x < changes.len() {
            lemma_path_holds(changes[x].path, filter);
            if changes[x].old_path is Some {
                lemma_path_holds(changes[x].old_path->0, filter);
            }
        }
    }
    if filter.len() == 0 {
        lemma_all_chosen(passes);
    }
}

proof fn lemma_all_chosen(passes: Seq<bool>)
    requires
        forall|i: int| 0 <= i < passes.len() ==> #[trigger] passes[i],
    ensures
        chosen(passes).len() == passes.len(),
    decreases passes.len(),
{
    if passes.len() > 0 {
        lemma_all_chosen(passes.drop_last());
        assert(passes[passes.len() - 1]);
    }
}

/// A change since the session began is listed if and only if the filter occurs in its
/// path, the case of letters aside.
pub proof fn law_filter_finds_changes(changes: Seq<ChangeView>, filter: Seq<char>)
    ensures
        forall|x: int| #[trigger]
            change_indices(changes, filter).contains(x) <==> 0 <= x < changes.len() && path_holds(
                changes[x].path,
                filter,
            ),
        increasing(change_indices(changes, filter)),
        filter.len() == 0 ==> change_indices(changes, filter).len() == changes.len(),
{
    let passes = Seq::new(changes.len(), |i: int| change_matches(changes[i], filter));
    lemma_chosen(passes);
    assert forall|x: int| #[trigger]
        change_indices(changes, filter).contains(x) <==> 0 <= x < changes.len() && path_holds(
            changes[x].path,
            filter,
        ) by {
        if 0 <= x < changes.len() {
            lemma_path_holds(changes[x].path, filter);
        }
    }
    if filter.len() == 0 {
        lemma_all_chosen(passes);
    }
}

/// A file is listed if and only if the filter occurs in its path, the case of letters
/// aside.
pub proof fn law_filter_finds_files(files: Seq<FileView>, filter: Seq<char>)
    ensures
        forall|x: int| #[trigger]
            file_indices(files, filter).contains(x) <==> 0 <= x < files.len() && path_holds(
                files[x].relative,
                filter,
            ),
        increasing(file_indices(files, filter)),
        filter.len() == 0 ==> file_indices(files, filter).len() == files.len(),
{
    let passes = Seq::new(files.len(), |i: int| file_matches(files[i], filter));
    lemma_chosen(passes);
    assert forall|x: int| #[trigger]
        file_indices(files, filter).contains(x) <==> 0 <= x < files.len() && path_holds(
            files[x].relative,
            filter,
        ) by {
        if 0 <= x < files.len() {
            lemma_path_holds(files[x].relative, filter);
        }
    }
    if filter.len() == 0 {
        lemma_all_chosen(passes);
    }
}

fn passes_filter(path: &[u8], needle: &[char]) -> (passes: bool)
    ensures
        passes == (needle@.len() == 0 || has_infix(lowercase(lossy(path@)), needle@)),
{
    if needle.len() == 0 {
        return true;
    }
    let shown = lossy_text(path);
    let chars = to_chars(shown.as_str());
    let lower = lowercased(&chars);
    contains(&lower, needle)
}

fn chosen_indices(passes: &Vec<bool>) -> (indices: Vec<usize>)
    ensures
        as_ints(indices@) == chosen(passes@),
{
    let mut indices: Vec<usize> = Vec::new();
    let mut i: usize = 0;
    proof {
        assert(passes@.take(0) =~= Seq::empty());
        assert(as_ints(indices@) =~= Seq::empty());
    }
    while i < passes.len()
        invariant
            i <= passes@.len(),
            as_ints(indices@) == chosen(passes@.take(i as int)),
        decreases passes@.len() - i,
    {
        let ghost before = as_ints(indices@);
        proof {
            assert(passes@.take(i + 1).drop_last() =~= passes@.take(i as int));
            assert(passes@.take(i + 1).last() == passes@[i as int]);
        }
        if passes[i] {
            indices.push(i);
            proof {
                assert(as_ints(indices@) =~= before.push(i as int));
            }
        }
        i += 1;
    }
    proof {
        assert(passes@.take(i as int) =~= passes@);
    }
    indices
}

fn needle_of(filter: &str) -> (needle: Vec<char>)
    ensures
        needle@ == lowercase(filter@),
{
    let chars = to_chars(filter);
    lowercased(&chars)
}

/// The changes that the filter lets through.
pub fn filtered_change_indices(changes: &[Change], filter: &str) -> (indices: Vec<usize>)
    ensures
        as_ints(indices@) == change_indices(views(changes@), filter@),
{
    let needle = needle_of(filter);
    let ghost all = views(changes@);
    let ghost wanted = Seq::new(all.len(), |i: int| change_matches(all[i], filter@));
    let mut passes: Vec<bool> = Vec::new();
    let mut i: usize = 0;
    while i < changes.len()
        invariant
            i <= changes@.len(),
            all == views(changes@),
            needle@ == lowercase(filter@),
            wanted == Seq::new(all.len(), |i: int| change_matches(all[i], filter@)),
            passes@ == wanted.take(i as int),
        decreases changes@.len() - i,
    {
        let pass = passes_filter(&changes[i].path, &needle);
        proof {
            assert(pass == wanted[i as int]);
            assert(wanted.take(i + 1) =~= wanted.take(i as int).push(pass));
        }
        passes.push(pass);
        i += 1;
    }
    proof {
        assert(wanted.take(i as int) =~= wanted);
    }
    chosen_indices(&passes)
}

/// The Git changes that the filter lets through, by their path or their former
/// path.
pub fn filtered_git_indices(changes: &[GitChange], filter: &str) -> (indices: Vec<usize>)
    ensures
        as_ints(indices@) == git_indices(views(changes@), filter@),
{
    let needle = needle_of(filter);
    let ghost all = views(changes@);
    let ghost wanted = Seq::new(all.len(), |i: int| git_matches(all[i], filter@));
    let mut passes: Vec<bool> = Vec::new();
    let mut i: usize = 0;
    while i < changes.len()
        invariant
            i <= changes@.len(),
            all == views(changes@),
            needle@ == lowercase(filter@),
            wanted == Seq::new(all.len(), |i: int| git_matches(all[i], filter@)),
            passes@ == wanted.take(i as int),
        decreases changes@.len() - i,
    {
        let pass = passes_filter(&changes[i].path, &needle) || match &changes[i].old_path {
            Some(old) => passes_filter(old, &needle),
            None => false,
        };
        proof {
            assert(pass == wanted[i as int]);
            assert(wanted.take(i + 1) =~= wanted.take(i as int).push(pass));
        }
        passes.push(pass);
        i += 1;
    }
    proof {
        assert(wanted.take(i as int) =~= wanted);
    }
    chosen_indices(&passes)
}

/// The files that the filter lets through.
pub fn filtered_file_indices(files: &[CurrentFile], filter: &str) -> (indices: Vec<usize>)
    ensures
        as_ints(indices@) == file_indices(views(files@), filter@),
{
    let needle = needle_of(filter);
    let ghost all = views(files@);
    let ghost wanted = Seq::new(all.len(), |i: int| file_matches(all[i], filter@));
    let mut passes: Vec<bool> = Vec::new();
    let mut i: usize = 0;
    while i < files.len()
        invariant
            i <= files@.len(),
            all == views(files@),
            needle@ == lowercase(filter@),
            wanted == Seq::new(all.len(), |i: int| file_matches(all[i], filter@)),
            passes@ == wanted.take(i as int),
        decreases files@.len() - i,
    {
        let pass = passes_filter(&files[i].relative, &needle);
        proof {
            assert(pass == wanted[i as int]);
            assert(wanted.take(i + 1) =~= wanted.take(i as int).push(pass));
        }
        passes.push(pass);
        i += 1;
    }
    proof {
        assert(wanted.take(i as int) =~= wanted);
    }
    chosen_indices(&passes)
}

/// A row of the sidebar.
#[derive(Debug, PartialEq, Eq)]
pub enum NavigationRow {
    /// The word over the changes whose edits stand alike.
    Status { label: String },
    Group { path: Vec<u8>, label: String },
    File { index: usize, label: String, depth: usize },
}

pub ghost enum RowView {
    Status { label: Seq<char> },
    Group { path: Seq<u8>, label: Seq<char> },
    File { index: int, label: Seq<char>, depth: int },
}

impl View for NavigationRow {
    type V = RowView;

    open spec fn view(&self) -> RowView {
        match self {
            NavigationRow::Status { label } => RowView::Status { label: label@ },
            NavigationRow::Group { path, label } => RowView::Group { path: path@, label: label@ },
            NavigationRow::File { index, label, depth } => RowView::File {
                index: *index as int,
                label: label@,
                depth: *depth as int,
            },
        }
    }
}

impl Clone for NavigationRow {
    fn clone(&self) -> (copy: Self)
        ensures
            copy@ == self@,
    {
        match self {
            NavigationRow::Status { label } => NavigationRow::Status { label: label.clone() },
            NavigationRow::Group { path, label } => NavigationRow::Group {
                path: copy_path(path),
                label: label.clone(),
            },
            NavigationRow::File { index, label, depth } => NavigationRow::File {
                index: *index,
                label: label.clone(),
                depth: *depth,
            },
        }
    }
}

/// The folder that a file is listed under, if it is in one.
pub open spec fn folder_of(path: Seq<u8>) -> Option<Seq<u8>> {
    match parent_path(path) {
        Some(folder) => if folder.len() == 0 {
            None
        } else {
            Some(folder)
        },
        None => None,
    }
}

pub open spec fn folder_key(folder: Option<Seq<u8>>) -> Option<Seq<ComponentView>> {
    match folder {
        Some(path) => Some(components(path)),
        None => None,
    }
}

/// What a file is called in the sidebar.
pub open spec fn file_label(path: Seq<u8>) -> Seq<char> {
    match final_name(path) {
        Some(name) => lossy(name),
        None => lossy(path),
    }
}

/// The row for a folder, where a new one begins.
pub open spec fn folder_row(
    folder: Option<Seq<u8>>,
    current: Option<Seq<ComponentView>>,
) -> Seq<RowView> {
    match folder {
        Some(path) => if current != Some(components(path)) {
            seq![RowView::Group { path, label: lossy(path) + "/"@ }]
        } else {
            Seq::empty()
        },
        None => Seq::empty(),
    }
}

/// The row for a file, unless its folder is closed.
pub open spec fn file_row(
    index: int,
    path: Seq<u8>,
    tab: Tab,
    closed: Set<Group>,
) -> Seq<RowView> {
    let folder = folder_of(path);
    if folder matches Some(inner) && closed.contains((tab, components(inner))) {
        Seq::empty()
    } else {
        seq![
            RowView::File {
                index,
                label: file_label(path),
                depth: if folder is Some {
                    1
                } else {
                    0
                },
            },
        ]
    }
}

/// The rows for the files, `current` being the folder of the file before them.
pub open spec fn rows_from(
    entries: Seq<(int, Seq<u8>)>,
    current: Option<Seq<ComponentView>>,
    tab: Tab,
    closed: Set<Group>,
) -> Seq<RowView>
    decreases entries.len(),
{
    if entries.len() == 0 {
        Seq::empty()
    } else {
        let (index, path) = entries[0];
        let folder = folder_of(path);
        folder_row(folder, current) + file_row(index, path, tab, closed) + rows_from(
            entries.skip(1),
            folder_key(folder),
            tab,
            closed,
        )
    }
}

/// An item that is listed: its index and its path.
#[derive(Debug)]
pub struct Listed {
    pub index: usize,
    pub path: Vec<u8>,
}

impl View for Listed {
    type V = (int, Seq<u8>);

    open spec fn view(&self) -> (int, Seq<u8>) {
        (self.index as int, self.path@)
    }
}

pub fn folder_path(path: &[u8]) -> (folder: Option<Vec<u8>>)
    ensures
        option_view(folder) == folder_of(path@),
{
    match parent(path) {
        Some(folder) => {
            if folder.len() == 0 {
                None
            } else {
                Some(folder)
            }
        },
        None => None,
    }
}

fn label_of_file(path: &[u8]) -> (label: String)
    ensures
        label@ == file_label(path@),
{
    match file_name(path) {
        Some(name) => lossy_text(&name),
        None => lossy_text(path),
    }
}

pub open spec fn parts_view(parts: Option<Vec<Component>>) -> Option<Seq<ComponentView>> {
    match parts {
        Some(inner) => Some(views(inner@)),
        None => None,
    }
}

/// The rows for the items, grouped by folder.
pub fn group_rows(entries: &Vec<Listed>, tab: Tab, closed: &GroupSet) -> (rows: Vec<NavigationRow>)
    ensures
        views(rows@) == rows_from(views(entries@), None, tab, closed@),
{
    broadcast use group_views;

    let ghost all = views(entries@);
    let ghost wanted = rows_from(all, None, tab, closed@);
    let mut rows: Vec<NavigationRow> = Vec::new();
    let mut current: Option<Vec<Component>> = None;
    let mut i: usize = 0;
    proof {
        assert(all.skip(0) =~= all);
        assert(views(rows@) + wanted =~= wanted);
    }
    while i < entries.len()
        invariant
            i <= entries@.len(),
            all == views(entries@),
            wanted == rows_from(all, None, tab, closed@),
            views(rows@) + rows_from(all.skip(i as int), parts_view(current), tab, closed@)
                == wanted,
        decreases entries@.len() - i,
    {
        let ghost rest = all.skip(i as int);
        let ghost done = views(rows@);
        let ghost before = parts_view(current);
        let path = &entries[i].path;
        let index = entries[i].index;
        proof {
            assert(rest[0] == (index as int, path@));
            assert(rest.skip(1) =~= all.skip(i + 1));
        }
        let mut hidden = false;
        let folder = folder_path(path);
        let nested = folder.is_some();
        let ghost shown_folder = option_view(folder);
        match folder {
            Some(inner) => {
                let parts = split_path(&inner);
                let same = match &current {
                    Some(known) => same_parts(known, &parts),
                    None => false,
                };
                hidden = closed.contains(tab, &inner);
                if !same {
                    let mut label = lossy_text(&inner);
                    label.append("/");
                    let row = NavigationRow::Group { path: inner, label };
                    proof {
                        assert(folder_row(shown_folder, before) =~= seq![row@]);
                        assert(done + seq![row@] =~= done.push(row@));
                    }
                    rows.push(row);
                } else {
                    proof {
                        assert(done + Seq::<RowView>::empty() =~= done);
                    }
                }
                current = Some(parts);
            },
            None => {
                proof {
                    assert(done + Seq::<RowView>::empty() =~= done);
                }
                current = None;
            },
        }
        proof {
            assert(views(rows@) == done + folder_row(shown_folder, before));
            assert(parts_view(current) == folder_key(shown_folder));
        }
        let ghost headed = views(rows@);
        if !hidden {
            let depth: usize = if nested {
                1
            } else {
                0
            };
            let row = NavigationRow::File { index, label: label_of_file(path), depth };
            proof {
                assert(file_row(index as int, path@, tab, closed@) =~= seq![row@]);
                assert(headed + seq![row@] =~= headed.push(row@));
            }
            rows.push(row);
        } else {
            proof {
                assert(headed + Seq::<RowView>::empty() =~= headed);
            }
        }
        proof {
            let tail = rows_from(rest.skip(1), folder_key(shown_folder), tab, closed@);
            let head = folder_row(shown_folder, before);
            let body = file_row(index as int, path@, tab, closed@);
            assert(views(rows@) == headed + body);
            assert(rows_from(rest, before, tab, closed@) == head + body + tail);
            assert(done + (head + body + tail) =~= done + head + body + tail);
        }
        i += 1;
    }
    proof {
        assert(all.skip(i as int) =~= Seq::empty());
        assert(views(rows@) + Seq::<RowView>::empty() =~= views(rows@));
    }
    rows
}

/// The indices of the files among the rows.
pub open spec fn file_rows(rows: Seq<RowView>) -> Seq<int>
    decreases rows.len(),
{
    if rows.len() == 0 {
        Seq::empty()
    } else {
        (match rows[0] {
            RowView::File { index, .. } => seq![index],
            _ => Seq::empty(),
        }) + file_rows(rows.skip(1))
    }
}

/// The entries whose folder is not closed.
pub open spec fn open_entries(
    entries: Seq<(int, Seq<u8>)>,
    tab: Tab,
    closed: Set<Group>,
) -> Seq<int>
    decreases entries.len(),
{
    if entries.len() == 0 {
        Seq::empty()
    } else {
        let rest = open_entries(entries.skip(1), tab, closed);
        if folder_of(entries[0].1) matches Some(inner) && closed.contains((tab, components(inner))) {
            rest
        } else {
            seq![entries[0].0] + rest
        }
    }
}

pub proof fn lemma_file_rows_concat(a: Seq<RowView>, b: Seq<RowView>)
    ensures
        file_rows(a + b) == file_rows(a) + file_rows(b),
    decreases a.len(),
{
    if a.len() == 0 {
        assert(a + b =~= b);
        assert(file_rows(a) + file_rows(b) =~= file_rows(b));
    } else {
        lemma_file_rows_concat(a.skip(1), b);
        assert((a + b).skip(1) =~= a.skip(1) + b);
        assert(file_rows(a + b) =~= file_rows(a) + file_rows(b));
    }
}

proof fn lemma_one_file_row(rows: Seq<RowView>)
    requires
        rows.len() <= 1,
    ensures
        file_rows(rows) == (if rows.len() == 1 && rows[0] is File {
            seq![rows[0]->File_index]
        } else {
            Seq::empty()
        }),
{
    if rows.len() == 1 {
        reveal_with_fuel(file_rows, 2);
        assert(rows.skip(1) =~= Seq::empty());
        if rows[0] is File {
            assert(file_rows(rows) =~= seq![rows[0]->File_index]);
        } else {
            assert(file_rows(rows) =~= Seq::empty());
        }
    }
}

/// Whether the path is that of something in a folder.
pub open spec fn is_nested(path: Seq<u8>) -> bool {
    components(path).len() >= 2
}

/// The folder of what the path names, by its components.
pub open spec fn folder_parts(path: Seq<u8>) -> Seq<ComponentView> {
    components(path).drop_last()
}

pub proof fn lemma_folder(path: Seq<u8>)
    ensures
        folder_of(path) is Some <==> is_nested(path),
        folder_of(path) matches Some(folder) ==> components(folder) == folder_parts(path),
{
    lemma_parent_components(path);
    if let Some(folder) = parent_path(path) {
        lemma_some_components(folder);
        if folder.len() == 0 {
            lemma_single_piece(folder);
            assert(folder_parts(path).len() == 0);
        }
    }
}

/// Whether the folder of what the path names is open, where it has one.
pub open spec fn is_open(path: Seq<u8>, tab: Tab, closed: Set<Group>) -> bool {
    is_nested(path) ==> !closed.contains((tab, folder_parts(path)))
}

/// Whether the row shows the file: by its name, and set in where it is in a folder.
pub open spec fn row_shows(row: RowView, index: int, path: Seq<u8>) -> bool {
    match row {
        RowView::File { index: at, label, depth } => {
            &&& at == index
            &&& components(path).len() > 0 && components(path).last() is Normal ==> label == lossy(
                components(path).last()->Normal_0,
            )
            &&& depth == if is_nested(path) {
                1int
            } else {
                0
            }
        },
        _ => false,
    }
}

/// Whether the row is that of the folder.
pub open spec fn is_folder_row(row: RowView, folder: Seq<ComponentView>) -> bool {
    row matches RowView::Group { path, .. } && components(path) == folder
}

/// Whether the row at `k` stands under that of the folder, with nothing but files
/// between.
pub open spec fn stands_under(rows: Seq<RowView>, k: int, folder: Seq<ComponentView>) -> bool {
    exists|g: int|
        0 <= g < k && is_folder_row(#[trigger] rows[g], folder) && only_files(rows, g + 1, k)
}

pub open spec fn only_files(rows: Seq<RowView>, from: int, to: int) -> bool {
    forall|j: int| from <= j < to ==> #[trigger] rows[j] is File
}

proof fn lemma_file_stands(
    entries: Seq<(int, Seq<u8>)>,
    current: Option<Seq<ComponentView>>,
    tab: Tab,
    closed: Set<Group>,
    k: int,
) -> (e: int)
    requires
        0 <= k < rows_from(entries, current, tab, closed).len(),
        rows_from(entries, current, tab, closed)[k] is File,
    ensures
        ({
            let rows = rows_from(entries, current, tab, closed);
            &&& 0 <= e < entries.len()
            &&& row_shows(rows[k], entries[e].0, entries[e].1)
            &&& is_open(entries[e].1, tab, closed)
            &&& is_nested(entries[e].1) ==> stands_under(rows, k, folder_parts(entries[e].1)) || (
            current == Some(folder_parts(entries[e].1)) && only_files(rows, 0, k))
        }),
    decreases entries.len(),
{
    let rows = rows_from(entries, current, tab, closed);
    let (index, path) = entries[0];
    let folder = folder_of(path);
    lemma_folder(path);
    let head = folder_row(folder, current);
    let body = file_row(index, path, tab, closed);
    let tail = rows_from(entries.skip(1), folder_key(folder), tab, closed);
    let first = head + body;
    assert(rows == first + tail);
    if k < first.len() {
        assert(rows[k] == first[k]);
        assert(k == head.len());
        assert(rows[k] == body[0]);
        if head.len() == 1 {
            assert(rows[0] == head[0]);
            assert(is_folder_row(rows[0], folder_parts(path)));
            assert(only_files(rows, 1, k));
            assert(stands_under(rows, k, folder_parts(path)));
        }
        0
    } else {
        let at = k - first.len();
        assert(rows[k] == tail[at]);
        let later = lemma_file_stands(entries.skip(1), folder_key(folder), tab, closed, at);
        let e = later + 1;
        assert(entries.skip(1)[later] == entries[e]);
        let wanted = folder_parts(entries[e].1);
        if is_nested(entries[e].1) {
            if stands_under(tail, at, wanted) {
                let g = choose|g: int|
                    0 <= g < at && is_folder_row(#[trigger] tail[g], wanted) && only_files(
                        tail,
                        g + 1,
                        at,
                    );
                let there = g + first.len();
                assert(rows[there] == tail[g]);
                assert forall|j: int| there + 1 <= j < k implies #[trigger] rows[j] is File by {
                    assert(rows[j] == tail[j - first.len()]);
                }
                assert(only_files(rows, there + 1, k));
                assert(stands_under(rows, k, wanted));
            } else {
                assert forall|j: int| head.len() <= j < k implies #[trigger] rows[j] is File by {
                    if j < first.len() {
                        assert(rows[j] == first[j]);
                        assert(rows[j] == body[j - head.len()]);
                    } else {
                        assert(rows[j] == tail[j - first.len()]);
                    }
                }
                if head.len() == 1 {
                    assert(rows[0] == head[0]);
                    assert(is_folder_row(rows[0], wanted));
                    assert(only_files(rows, 1, k));
                    assert(stands_under(rows, k, wanted));
                } else {
                    assert(only_files(rows, 0, k));
                }
            }
        }
        e
    }
}

/// A file is shown by its name, and only while its folder is open; one in a folder
/// stands under the row of that folder, with nothing but files between.
pub proof fn law_files_stand_under_their_folders(
    entries: Seq<(int, Seq<u8>)>,
    tab: Tab,
    closed: Set<Group>,
    k: int,
) -> (e: int)
    requires
        0 <= k < rows_from(entries, None, tab, closed).len(),
        rows_from(entries, None, tab, closed)[k] is File,
    ensures
        ({
            let rows = rows_from(entries, None, tab, closed);
            &&& 0 <= e < entries.len()
            &&& row_shows(rows[k], entries[e].0, entries[e].1)
            &&& is_open(entries[e].1, tab, closed)
            &&& is_nested(entries[e].1) ==> stands_under(rows, k, folder_parts(entries[e].1))
        }),
{
    lemma_file_stands(entries, None, tab, closed, k)
}

/// Whether the row ends what stands under the folder: it is that of another folder, or
/// that of a file in none.
pub open spec fn leaves_folder(row: RowView, folder: Seq<ComponentView>) -> bool {
    match row {
        RowView::Group { path, .. } => components(path) != folder,
        RowView::File { depth, .. } => depth == 0,
        RowView::Status { .. } => true,
    }
}

proof fn lemma_folder_left(
    entries: Seq<(int, Seq<u8>)>,
    folder: Seq<ComponentView>,
    tab: Tab,
    closed: Set<Group>,
    g: int,
)
    requires
        0 <= g < rows_from(entries, Some(folder), tab, closed).len(),
        is_folder_row(rows_from(entries, Some(folder), tab, closed)[g], folder),
    ensures
        left_between(rows_from(entries, Some(folder), tab, closed), folder, -1, g),
    decreases entries.len(),
{
    let rows = rows_from(entries, Some(folder), tab, closed);
    let (index, path) = entries[0];
    lemma_folder(path);
    let head = folder_row(folder_of(path), Some(folder));
    let body = file_row(index, path, tab, closed);
    let first = head + body;
    let tail = rows_from(entries.skip(1), folder_key(folder_of(path)), tab, closed);
    assert(rows == first + tail);
    if is_nested(path) && folder_parts(path) == folder {
        assert(head.len() == 0);
        let at = g - first.len();
        if g < first.len() {
            assert(rows[g] == body[g]);
        } else {
            assert(rows[g] == tail[at]);
            lemma_folder_left(entries.skip(1), folder, tab, closed, at);
            let j = choose|j: int| -1 < j < at && leaves_folder(#[trigger] tail[j], folder);
            assert(rows[j + first.len()] == tail[j]);
        }
    } else {
        assert(rows[0] == first[0]);
        assert(leaves_folder(rows[0], folder));
    }
}

pub open spec fn left_between(
    rows: Seq<RowView>,
    folder: Seq<ComponentView>,
    from: int,
    to: int,
) -> bool {
    exists|j: int| from < j < to && leaves_folder(#[trigger] rows[j], folder)
}

/// A folder has one row for all that stands under it: between two rows of a folder
/// stands one that leaves it.
pub proof fn law_folders_are_shown_once(
    entries: Seq<(int, Seq<u8>)>,
    current: Option<Seq<ComponentView>>,
    tab: Tab,
    closed: Set<Group>,
    folder: Seq<ComponentView>,
    a: int,
    b: int,
)
    requires
        0 <= a < b < rows_from(entries, current, tab, closed).len(),
        is_folder_row(rows_from(entries, current, tab, closed)[a], folder),
        is_folder_row(rows_from(entries, current, tab, closed)[b], folder),
    ensures
        left_between(rows_from(entries, current, tab, closed), folder, a, b),
    decreases entries.len(),
{
    let rows = rows_from(entries, current, tab, closed);
    let (index, path) = entries[0];
    lemma_folder(path);
    let head = folder_row(folder_of(path), current);
    let body = file_row(index, path, tab, closed);
    let first = head + body;
    let next = folder_key(folder_of(path));
    let tail = rows_from(entries.skip(1), next, tab, closed);
    assert(rows == first + tail);
    let width = first.len() as int;
    if b < width {
        assert(rows[b] == body[b - head.len()]);
    } else {
        assert(rows[b] == tail[b - width]);
        if a >= width {
            assert(rows[a] == tail[a - width]);
            law_folders_are_shown_once(
                entries.skip(1),
                next,
                tab,
                closed,
                folder,
                a - width,
                b - width,
            );
            let j = choose|j: int|
                a - width < j < b - width && leaves_folder(#[trigger] tail[j], folder);
            assert(rows[j + width] == tail[j]);
        } else {
            assert(rows[a] == first[a]);
            if a >= head.len() {
                assert(rows[a] == body[a - head.len()]);
            }
            assert(next == Some(folder));
            lemma_folder_left(entries.skip(1), folder, tab, closed, b - width);
            let j = choose|j: int| -1 < j < b - width && leaves_folder(#[trigger] tail[j], folder);
            assert(rows[j + width] == tail[j]);
        }
    }
}

/// The row of a folder carries the folder's path, and is there for something that is
/// listed in it.
pub proof fn law_folder_rows_are_of_listed_items(
    entries: Seq<(int, Seq<u8>)>,
    current: Option<Seq<ComponentView>>,
    tab: Tab,
    closed: Set<Group>,
    k: int,
) -> (e: int)
    requires
        0 <= k < rows_from(entries, current, tab, closed).len(),
        rows_from(entries, current, tab, closed)[k] is Group,
    ensures
        ({
            let row = rows_from(entries, current, tab, closed)[k];
            &&& 0 <= e < entries.len()
            &&& is_nested(entries[e].1)
            &&& is_folder_row(row, folder_parts(entries[e].1))
            &&& row->Group_label == lossy(row->Group_path) + "/"@
        }),
    decreases entries.len(),
{
    let rows = rows_from(entries, current, tab, closed);
    let (index, path) = entries[0];
    lemma_folder(path);
    let head = folder_row(folder_of(path), current);
    let body = file_row(index, path, tab, closed);
    let first = head + body;
    let next = folder_key(folder_of(path));
    let tail = rows_from(entries.skip(1), next, tab, closed);
    assert(rows == first + tail);
    if k < first.len() {
        assert(rows[k] == first[k]);
        if k >= head.len() {
            assert(rows[k] == body[k - head.len()]);
        }
        0
    } else {
        let at = k - first.len();
        assert(rows[k] == tail[at]);
        let later = law_folder_rows_are_of_listed_items(entries.skip(1), next, tab, closed, at);
        assert(entries.skip(1)[later] == entries[later + 1]);
        later + 1
    }
}

/// Every item is listed once and in order, but for those whose folder is closed.
pub proof fn law_rows_list_every_open_file(
    entries: Seq<(int, Seq<u8>)>,
    current: Option<Seq<ComponentView>>,
    tab: Tab,
    closed: Set<Group>,
)
    ensures
        file_rows(rows_from(entries, current, tab, closed)) == open_entries(entries, tab, closed),
    decreases entries.len(),
{
    if entries.len() > 0 {
        let (index, path) = entries[0];
        let folder = folder_of(path);
        let head = folder_row(folder, current);
        let body = file_row(index, path, tab, closed);
        let tail = rows_from(entries.skip(1), folder_key(folder), tab, closed);
        law_rows_list_every_open_file(entries.skip(1), folder_key(folder), tab, closed);
        lemma_file_rows_concat(head + body, tail);
        lemma_file_rows_concat(head, body);
        lemma_one_file_row(head);
        lemma_one_file_row(body);
        assert(file_rows(head) =~= Seq::empty());
        assert(rows_from(entries, current, tab, closed) == head + body + tail);
        assert(file_rows(head + body + tail) =~= file_rows(body) + file_rows(tail));
        assert(open_entries(entries, tab, closed) =~= file_rows(body) + file_rows(tail));
    }
}

} // verus!
