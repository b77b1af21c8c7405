//! What a scan of the workspace takes in, and what may be read from it.
use std::collections::hash_map::DefaultHasher;
use std::hash::Hasher;

use vstd::bytes::{
    spec_u128_to_le_bytes, spec_u64_to_le_bytes, u128_to_le_bytes, u64_to_le_bytes,
};
use vstd::prelude::*;
use vstd::std_specs::hash::DefaultHasherAdditionalSpecFns;
use vstd::utf8::{encode_utf8, valid_utf8};

use crate::error::{error_text, result_view, Error, ErrorView};
use crate::model::{CurrentFile, FileView, TextEligibility, INLINE_TEXT_LIMIT};
use crate::path::{
    components, join, joined, lemma_parts_before_total, names, normal_names, parts_before,
    parts_start_with, same_parts, split_path, Component, ComponentView, DOT, SEPARATOR,
};
use crate::project::{absolute_in_scope, ProjectScope, ScopeView};
use crate::seqs::{bytes_equal, group_views, option_view, views};
use crate::sort::{
    arranged, as_ints, key_before, key_views, law_order_is_sorted, order, sorted_indices, Keys,
};
use crate::text::{decimal, decimal_text, join3, lossy, lossy_text, utf8_text};

verus! {

/// Most bytes that a scan takes in.
pub const MAX_SCAN_BYTES: u64 = 1024 * 1024 * 1024;

/// Most files that a scan takes in.
pub const MAX_SCAN_FILES: usize = 100_000;

/// The directories that are never looked into.
pub open spec fn always_ignored(name: Seq<u8>) -> bool {
    ||| name == encode_utf8(".git"@)
    ||| name == encode_utf8(".hg"@)
    ||| name == encode_utf8(".svn"@)
    ||| name == encode_utf8("node_modules"@)
    ||| name == encode_utf8("target"@)
    ||| name == encode_utf8("dist"@)
    ||| name == encode_utf8(".next"@)
    ||| name == encode_utf8(".cache"@)
}

fn is_named(name: &[u8], text: &str) -> (same: bool)
    ensures
        same == (name@ == encode_utf8(text@)),
{
    let bytes = text.as_bytes_vec();
    bytes_equal(name, &bytes)
}

/// Whether the entry is a directory that is never looked into.
pub fn is_always_ignored(is_directory: bool, name: &[u8]) -> (ignored: bool)
    ensures
        ignored == (is_directory && always_ignored(name@)),
{
    is_directory && (is_named(name, ".git") || is_named(name, ".hg") || is_named(name, ".svn")
        || is_named(name, "node_modules") || is_named(name, "target") || is_named(name, "dist")
        || is_named(name, ".next") || is_named(name, ".cache"))
}

/// Whether a walk looks at an entry.
pub open spec fn admitted(
    scope: Option<ScopeView>,
    path: Seq<u8>,
    name: Seq<u8>,
    is_directory: bool,
) -> bool {
    &&& !(is_directory && always_ignored(name))
    &&& scope matches Some(view) ==> absolute_in_scope(view, path, is_directory)
}

/// Whether a walk looks at an entry.
pub fn admits(scope: &Option<ProjectScope>, path: &[u8], name: &[u8], is_directory: bool) -> (looked:
    bool)
    ensures
        looked == admitted(option_view(*scope), path@, name@, is_directory),
{
    !is_always_ignored(is_directory, name) && match scope {
        Some(view) => view.allows_entry(path, is_directory),
        None => true,
    }
}

/// The path that components make.
pub open spec fn path_of(parts: Seq<ComponentView>) -> Seq<u8>
    decreases parts.len(),
{
    if parts.len() == 0 {
        Seq::empty()
    } else {
        joined(path_of(parts.drop_last()), part_bytes(parts.last()))
    }
}

pub open spec fn part_bytes(part: ComponentView) -> Seq<u8> {
    match part {
        ComponentView::RootDir => seq![SEPARATOR],
        ComponentView::CurDir => seq![DOT],
        ComponentView::ParentDir => seq![DOT, DOT],
        ComponentView::Normal(name) => name,
    }
}

/// The path from `base` to `path`, where `path` is `base` or below it.
pub open spec fn relative_to(path: Seq<u8>, base: Seq<u8>) -> Option<Seq<u8>> {
    if components(base).is_prefix_of(components(path)) {
        Some(path_of(components(path).skip(components(base).len() as int)))
    } else {
        None
    }
}

fn relative_path(path: &[u8], base: &[u8]) -> (result: Option<Vec<u8>>)
    ensures
        option_view(result) == relative_to(path@, base@),
{
    let parts = split_path(path);
    let prefix = split_path(base);
    if !parts_start_with(&parts, &prefix) {
        return None;
    }
    let ghost rest = views(parts@).skip(prefix@.len() as int);
    let mut result: Vec<u8> = Vec::new();
    let mut i: usize = prefix.len();
    let first = prefix.len();
    proof {
        assert(views(prefix@).len() <= views(parts@).len());
        assert(rest.take(0) =~= Seq::empty());
        assert(result@ =~= path_of(rest.take(0)));
    }
    while i < parts.len()
        invariant
            first <= i <= parts@.len(),
            rest == views(parts@).skip(first as int),
            result@ == path_of(rest.take(i - first)),
        decreases parts@.len() - i,
    {
        proof {
            assert(rest.take(i + 1 - first).drop_last() =~= rest.take(i - first));
            assert(rest.take(i + 1 - first).last() == parts@[i as int]@);
        }
        match &parts[i] {
            Component::Normal(name) => {
                result = join(&result, name);
            },
            Component::RootDir => {
                let piece = vec![SEPARATOR];
                proof {
                    assert(piece@ =~= seq![SEPARATOR]);
                }
                result = join(&result, &piece);
            },
            Component::CurDir => {
                let piece = vec![DOT];
                proof {
                    assert(piece@ =~= seq![DOT]);
                }
                result = join(&result, &piece);
            },
            Component::ParentDir => {
                let piece = vec![DOT, DOT];
                proof {
                    assert(piece@ =~= seq![DOT, DOT]);
                }
                result = join(&result, &piece);
            },
        }
        i += 1;
    }
    proof {
        assert(rest.take(i - first) =~= rest);
    }
    Some(result)
}

/// What is known of a file before it is opened.
#[derive(Clone, Copy, Debug, PartialEq, Eq, Structural)]
pub struct FileMetadata {
    pub size: u64,
    pub modified_unix_ns: Option<u128>,
}

/// What a walk of the workspace comes upon.
#[derive(Debug)]
pub enum WalkItem {
    /// The walk could not go on somewhere.
    Failed(String),
    /// An entry whose type cannot be told.
    Untyped,
    /// A link, a directory or another thing that is no regular file.
    NotAFile,
    /// A regular file.
    File { path: Vec<u8>, metadata: Result<FileMetadata, String> },
}

pub ghost enum WalkItemView {
    Failed(Seq<char>),
    Untyped,
    NotAFile,
    File { path: Seq<u8>, metadata: Result<FileMetadata, Seq<char>> },
}

impl View for WalkItem {
    type V = WalkItemView;

    open spec fn view(&self) -> WalkItemView {
        match self {
            WalkItem::Failed(text) => WalkItemView::Failed(text@),
            WalkItem::Untyped => WalkItemView::Untyped,
            WalkItem::NotAFile => WalkItemView::NotAFile,
            WalkItem::File { path, metadata } => WalkItemView::File {
                path: path@,
                metadata: match metadata {
                    Ok(data) => Ok(*data),
                    Err(text) => Err(text@),
                },
            },
        }
    }
}

/// A file that a scan has counted and not yet looked into.
#[derive(Debug)]
pub struct PendingFile {
    pub relative: Vec<u8>,
    pub absolute: Vec<u8>,
    pub metadata: FileMetadata,
}

pub ghost struct PendingView {
    pub relative: Seq<u8>,
    pub absolute: Seq<u8>,
    pub metadata: FileMetadata,
}

impl View for PendingFile {
    type V = PendingView;

    open spec fn view(&self) -> PendingView {
        PendingView {
            relative: self.relative@,
            absolute: self.absolute@,
            metadata: self.metadata,
        }
    }
}

/// What a scan does about an item.
#[derive(Debug)]
pub enum ScanAction {
    Next,
    Inspect(PendingFile),
    Stop(Error),
}

pub ghost enum ScanActionView {
    Next,
    Inspect(PendingView),
    Stop(ErrorView),
}

impl View for ScanAction {
    type V = ScanActionView;

    open spec fn view(&self) -> ScanActionView {
        match self {
            ScanAction::Next => ScanActionView::Next,
            ScanAction::Inspect(file) => ScanActionView::Inspect(file@),
            ScanAction::Stop(error) => ScanActionView::Stop(error@),
        }
    }
}

/// A scan of the workspace under way.
#[derive(Debug)]
pub struct Scan {
    pub root: Vec<u8>,
    pub files: Vec<CurrentFile>,
    pub notices: Vec<String>,
    pub scanned_files: usize,
    pub scanned_bytes: u64,
}

pub ghost struct ScanView {
    pub root: Seq<u8>,
    pub files: Seq<FileView>,
    pub notices: Seq<Seq<char>>,
    pub scanned_files: int,
    pub scanned_bytes: int,
}

impl View for Scan {
    type V = ScanView;

    open spec fn view(&self) -> ScanView {
        ScanView {
            root: self.root@,
            files: views(self.files@),
            notices: views(self.notices@),
            scanned_files: self.scanned_files as int,
            scanned_bytes: self.scanned_bytes as int,
        }
    }
}

pub open spec fn scan_start(root: Seq<u8>) -> ScanView {
    ScanView {
        root,
        files: Seq::empty(),
        notices: Seq::empty(),
        scanned_files: 0,
        scanned_bytes: 0,
    }
}

pub open spec fn with_notice(scan: ScanView, notice: Seq<char>) -> ScanView {
    ScanView { notices: scan.notices.push(notice), ..scan }
}

pub open spec fn scan_limit_message() -> Seq<char> {
    "scan limits exceeded ("@ + decimal(MAX_SCAN_FILES as nat) + " files or "@ + decimal(
        MAX_SCAN_BYTES as nat,
    ) + " bytes)"@
}

/// A scan after an item, and what it does about it.
pub open spec fn offered(scan: ScanView, item: WalkItemView) -> (ScanView, ScanActionView) {
    match item {
        WalkItemView::Failed(text) => (with_notice(scan, text), ScanActionView::Next),
        WalkItemView::Untyped => (scan, ScanActionView::Next),
        WalkItemView::NotAFile => (scan, ScanActionView::Next),
        WalkItemView::File { path, metadata } => match relative_to(path, scan.root) {
            None => (
                with_notice(scan, "escaped traversal root: "@ + lossy(path)),
                ScanActionView::Next,
            ),
            Some(relative) => match metadata {
                Err(text) => (
                    with_notice(scan, lossy(relative) + ": "@ + text),
                    ScanActionView::Next,
                ),
                Ok(data) => if scan.scanned_files >= MAX_SCAN_FILES || scan.scanned_bytes
                    + data.size > MAX_SCAN_BYTES {
                    (scan, ScanActionView::Stop(ErrorView::Message(scan_limit_message())))
                } else {
                    (
                        ScanView {
                            scanned_files: scan.scanned_files + 1,
                            scanned_bytes: scan.scanned_bytes + data.size,
                            ..scan
                        },
                        ScanActionView::Inspect(
                            PendingView { relative, absolute: path, metadata: data },
                        ),
                    )
                },
            },
        },
    }
}

pub open spec fn file_of(pending: PendingView, text: TextEligibility) -> FileView {
    FileView {
        relative: pending.relative,
        absolute: pending.absolute,
        size: pending.metadata.size,
        modified_unix_ns: pending.metadata.modified_unix_ns,
        text,
    }
}

/// A scan after a file has been looked into.
pub open spec fn with_file(
    scan: ScanView,
    pending: PendingView,
    inspected: Result<TextEligibility, ErrorView>,
) -> ScanView {
    match inspected {
        Ok(text) => ScanView { files: scan.files.push(file_of(pending, text)), ..scan },
        Err(error) => ScanView {
            files: scan.files.push(file_of(pending, TextEligibility::Unreadable)),
            notices: scan.notices.push(lossy(pending.relative) + ": "@ + error_text(error)),
            ..scan
        },
    }
}

pub open spec fn eligibility_view(result: Result<TextEligibility, Error>) -> Result<
    TextEligibility,
    ErrorView,
> {
    match result {
        Ok(text) => Ok(text),
        Err(error) => Err(error@),
    }
}

pub open spec fn file_paths(files: Seq<FileView>) -> Keys {
    Seq::new(files.len(), |i: int| components(files[i].relative))
}

/// The last file of each run with one path.
pub open spec fn last_of_runs(files: Seq<FileView>) -> Seq<FileView>
    decreases files.len(),
{
    if files.len() == 0 {
        Seq::empty()
    } else if files.len() > 1 && components(files[0].relative) == components(files[1].relative) {
        last_of_runs(files.skip(1))
    } else {
        seq![files[0]] + last_of_runs(files.skip(1))
    }
}

/// The files by path, each path once; of two with one path the later stays.
pub open spec fn listed(files: Seq<FileView>) -> Seq<FileView> {
    last_of_runs(arranged(files, order(file_paths(files))))
}

impl Scan {
    /// Within the limits.
    pub open spec fn within_limits(self) -> bool {
        self.scanned_files <= MAX_SCAN_FILES && self.scanned_bytes <= MAX_SCAN_BYTES
    }

    pub fn new(root: Vec<u8>) -> (scan: Scan)
        ensures
            scan@ == scan_start(root@),
            scan.within_limits(),
    {
        broadcast use group_views;

        Scan {
            root,
            files: Vec::new(),
            notices: Vec::new(),
            scanned_files: 0,
            scanned_bytes: 0,
        }
    }

    /// Takes in what the walk came upon.
    pub fn offer(&mut self, item: WalkItem) -> (action: ScanAction)
        requires
            old(self).within_limits(),
        ensures
            (final(self)@, action@) == offered(old(self)@, item@),
            final(self).within_limits(),
    {
        broadcast use group_views;

        match item {
            WalkItem::Failed(text) => {
                self.notices.push(text);
                ScanAction::Next
            },
            WalkItem::Untyped => ScanAction::Next,
            WalkItem::NotAFile => ScanAction::Next,
            WalkItem::File { path, metadata } => {
                let relative = match relative_path(&path, &self.root) {
                    None => {
                        let shown = lossy_text(&path);
                        let mut notice = "escaped traversal root: ".to_owned();
                        notice.append(shown.as_str());
                        self.notices.push(notice);
                        return ScanAction::Next;
                    },
                    Some(relative) => relative,
                };
                match metadata {
                    Err(text) => {
                        let shown = lossy_text(&relative);
                        self.notices.push(join3(shown.as_str(), ": ", text.as_str()));
                        ScanAction::Next
                    },
                    Ok(data) => {
                        if self.scanned_files >= MAX_SCAN_FILES || data.size > MAX_SCAN_BYTES
                            || self.scanned_bytes + data.size > MAX_SCAN_BYTES {
                            return ScanAction::Stop(scan_limit_error());
                        }
                        self.scanned_files = self.scanned_files + 1;
                        self.scanned_bytes = self.scanned_bytes + data.size;
                        ScanAction::Inspect(
                            PendingFile { relative, absolute: path, metadata: data },
                        )
                    },
                }
            },
        }
    }

    /// Takes in what a file turned out to be.
    pub fn record(&mut self, pending: PendingFile, inspected: Result<TextEligibility, Error>)
        requires
            old(self).within_limits(),
        ensures
            final(self)@ == with_file(old(self)@, pending@, eligibility_view(inspected)),
            final(self).within_limits(),
    {
        broadcast use group_views;

        let text = match inspected {
            Ok(text) => text,
            Err(error) => {
                let shown = lossy_text(&pending.relative);
                self.notices.push(join3(shown.as_str(), ": ", error.text()));
                TextEligibility::Unreadable
            },
        };
        let file = CurrentFile {
            relative: pending.relative,
            absolute: pending.absolute,
            size: pending.metadata.size,
            modified_unix_ns: pending.metadata.modified_unix_ns,
            text,
        };
        self.files.push(file);
    }

    /// The files found, by path, and what went wrong.
    pub fn finish(self) -> (result: (Vec<CurrentFile>, Vec<String>))
        ensures
            views(result.0@) == listed(self@.files),
            views(result.1@) == self@.notices,
    {
        let sorted = sort_files(&self.files);
        (keep_last(&sorted), self.notices)
    }
}

fn scan_limit_error() -> (error: Error)
    ensures
        error@ == ErrorView::Message(scan_limit_message()),
{
    let files = decimal_text(MAX_SCAN_FILES as u64);
    let bytes = decimal_text(MAX_SCAN_BYTES);
    let mut text = join3("scan limits exceeded (", files.as_str(), " files or ");
    text.append(bytes.as_str());
    text.append(" bytes)");
    Error::Message(text)
}

fn sort_files(files: &Vec<CurrentFile>) -> (sorted: Vec<CurrentFile>)
    ensures
        views(sorted@) == arranged(views(files@), order(file_paths(views(files@)))),
{
    broadcast use group_views;

    let mut keys: Vec<Vec<Component>> = Vec::new();
    let ghost all = views(files@);
    let mut i: usize = 0;
    while i < files.len()
        invariant
            i <= files@.len(),
            all == views(files@),
            key_views(keys@) == file_paths(all).take(i as int),
        decreases files@.len() - i,
    {
        let key = split_path(&files[i].relative);
        let ghost before = key_views(keys@);
        keys.push(key);
        proof {
            assert(key_views(keys@) =~= before.push(views(key@)));
            assert(file_paths(all).take(i + 1) =~= before.push(views(key@)));
        }
        i += 1;
    }
    proof {
        assert(file_paths(all).take(i as int) =~= file_paths(all));
        assert(keys@.len() == key_views(keys@).len());
    }
    let indices = sorted_indices(&keys);
    let ghost wanted = arranged(all, order(file_paths(all)));
    let mut sorted: Vec<CurrentFile> = Vec::new();
    let mut k: usize = 0;
    proof {
        assert(wanted.take(0) =~= Seq::empty());
    }
    while k < indices.len()
        invariant
            k <= indices@.len(),
            all == views(files@),
            wanted == arranged(all, order(file_paths(all))),
            as_ints(indices@) == order(file_paths(all)),
            forall|i: int| 0 <= i < indices@.len() ==> #[trigger] indices@[i] < files@.len(),
            views(sorted@) == wanted.take(k as int),
        decreases indices@.len() - k,
    {
        let file = files[indices[k]].clone();
        proof {
            assert(as_ints(indices@)[k as int] == indices@[k as int] as int);
            assert(wanted[k as int] == file@);
            assert(wanted.take(k + 1) =~= wanted.take(k as int).push(file@));
        }
        sorted.push(file);
        k += 1;
    }
    proof {
        assert(as_ints(indices@).len() == indices@.len());
        assert(wanted.take(k as int) =~= wanted);
    }
    sorted
}

fn keep_last(files: &Vec<CurrentFile>) -> (kept: Vec<CurrentFile>)
    ensures
        views(kept@) == last_of_runs(views(files@)),
{
    broadcast use group_views;

    let ghost all = views(files@);
    let mut kept: Vec<CurrentFile> = Vec::new();
    let mut i: usize = 0;
    proof {
        assert(all.skip(0) =~= all);
        assert(views(kept@) + last_of_runs(all) =~= last_of_runs(all));
    }
    while i < files.len()
        invariant
            i <= files@.len(),
            all == views(files@),
            views(kept@) + last_of_runs(all.skip(i as int)) == last_of_runs(all),
        decreases files@.len() - i,
    {
        let ghost rest = all.skip(i as int);
        let ghost done = views(kept@);
        proof {
            assert(rest.skip(1) =~= all.skip(i + 1));
            assert(rest[0] == all[i as int]);
        }
        let again = if files.len() - i > 1 {
            proof {
                assert(rest[1] == all[i + 1]);
            }
            let this = split_path(&files[i].relative);
            let next = split_path(&files[i + 1].relative);
            same_parts(&this, &next)
        } else {
            false
        };
        if !again {
            let file = files[i].clone();
            proof {
                assert(last_of_runs(rest) =~= seq![file@] + last_of_runs(rest.skip(1)));
                assert(done + (seq![file@] + last_of_runs(rest.skip(1))) =~= done.push(file@)
                    + last_of_runs(rest.skip(1)));
            }
            kept.push(file);
        }
        i += 1;
    }
    proof {
        assert(all.skip(i as int) =~= Seq::empty());
        assert(views(kept@) + Seq::<FileView>::empty() =~= views(kept@));
    }
    kept
}

/// What the text of a file is, going by its bytes.
pub open spec fn text_kind(bytes: Seq<u8>) -> TextEligibility {
    if bytes.len() > INLINE_TEXT_LIMIT {
        TextEligibility::Oversized
    } else if bytes.contains(0) {
        TextEligibility::Binary
    } else if !valid_utf8(bytes) {
        TextEligibility::InvalidUtf8
    } else {
        TextEligibility::Text
    }
}

/// What looking into a file needs next, or what came of it.
#[derive(Debug)]
pub enum InspectStep {
    /// Read at most so many bytes.
    Read(u64),
    Finished(Result<TextEligibility, Error>),
}

pub ghost enum InspectStepView {
    Read(u64),
    Finished(Result<TextEligibility, ErrorView>),
}

impl View for InspectStep {
    type V = InspectStepView;

    open spec fn view(&self) -> InspectStepView {
        match self {
            InspectStep::Read(limit) => InspectStepView::Read(*limit),
            InspectStep::Finished(result) => InspectStepView::Finished(eligibility_view(*result)),
        }
    }
}

pub open spec fn bytes_reply_view(read: Option<Result<Vec<u8>, Error>>) -> Option<
    Result<Seq<u8>, ErrorView>,
> {
    match read {
        Some(result) => Some(result_view(result)),
        None => None,
    }
}

pub open spec fn inspect_step(size: u64, read: Option<Result<Seq<u8>, ErrorView>>)
    -> InspectStepView {
    if size > INLINE_TEXT_LIMIT {
        InspectStepView::Finished(Ok(TextEligibility::Oversized))
    } else {
        match read {
            None => InspectStepView::Read((INLINE_TEXT_LIMIT + 1) as u64),
            Some(Err(error)) => InspectStepView::Finished(Err(error)),
            Some(Ok(bytes)) => InspectStepView::Finished(Ok(text_kind(bytes))),
        }
    }
}

fn holds_zero(bytes: &[u8]) -> (found: bool)
    ensures
        found == bytes@.contains(0),
{
    let mut i: usize = 0;
    while i < bytes.len()
        invariant
            i <= bytes@.len(),
            forall|j: int| 0 <= j < i ==> bytes@[j] != 0,
        decreases bytes@.len() - i,
    {
        if bytes[i] == 0 {
            proof {
                assert(bytes@.contains(bytes@[i as int]));
            }
            return true;
        }
        i += 1;
    }
    false
}

/// Whether the file can be shown as text, given its size and what was read of
/// it.
pub fn inspect_file(size: u64, read: Option<Result<Vec<u8>, Error>>) -> (step: InspectStep)
    ensures
        step@ == inspect_step(size, bytes_reply_view(read)),
{
    if size > INLINE_TEXT_LIMIT {
        return InspectStep::Finished(Ok(TextEligibility::Oversized));
    }
    match read {
        None => InspectStep::Read(INLINE_TEXT_LIMIT + 1),
        Some(Err(error)) => InspectStep::Finished(Err(error)),
        Some(Ok(bytes)) => {
            let text = if bytes.len() as u64 > INLINE_TEXT_LIMIT {
                TextEligibility::Oversized
            } else if holds_zero(&bytes) {
                TextEligibility::Binary
            } else if utf8_text(&bytes).is_none() {
                TextEligibility::InvalidUtf8
            } else {
                TextEligibility::Text
            };
            InspectStep::Finished(Ok(text))
        },
    }
}

/// Whether the path can only lead down: it has no root, parent or leading dot
/// component.
pub open spec fn only_descends(path: Seq<u8>) -> bool {
    forall|i: int| 0 <= i < components(path).len() ==> #[trigger] components(path)[i] is Normal
}

fn descends(parts: &Vec<Component>) -> (down: bool)
    ensures
        down == (forall|i: int|
            0 <= i < views(parts@).len() ==> #[trigger] views(parts@)[i] is Normal),
{
    let ghost all = views(parts@);
    let mut i: usize = 0;
    while i < parts.len()
        invariant
            i <= parts@.len(),
            all == views(parts@),
            forall|j: int| 0 <= j < i ==> #[trigger] all[j] is Normal,
        decreases parts@.len() - i,
    {
        let normal = match &parts[i] {
            Component::Normal(_) => true,
            _ => false,
        };
        if !normal {
            proof {
                assert(!(all[i as int] is Normal));
            }
            return false;
        }
        i += 1;
    }
    true
}

/// How far a read from the workspace has come.
#[derive(Debug)]
pub enum ReadEvent {
    Start,
    RootOpened,
    Content(Vec<u8>),
    Failed(Error),
}

pub ghost enum ReadEventView {
    Start,
    RootOpened,
    Content(Seq<u8>),
    Failed(ErrorView),
}

impl View for ReadEvent {
    type V = ReadEventView;

    open spec fn view(&self) -> ReadEventView {
        match self {
            ReadEvent::Start => ReadEventView::Start,
            ReadEvent::RootOpened => ReadEventView::RootOpened,
            ReadEvent::Content(bytes) => ReadEventView::Content(bytes@),
            ReadEvent::Failed(error) => ReadEventView::Failed(error@),
        }
    }
}

/// What a read needs next, or what came of it.
#[derive(Debug)]
pub enum ReadStep {
    /// Open the directory of the workspace.
    OpenRoot,
    /// From the root, open one name after another without following links, and
    /// read at most so many bytes of the last.
    ReadBeneath(Vec<Vec<u8>>, u64),
    Finished(Result<Vec<u8>, Error>),
}

pub ghost enum ReadStepView {
    OpenRoot,
    ReadBeneath(Seq<Seq<u8>>, u64),
    Finished(Result<Seq<u8>, ErrorView>),
}

impl View for ReadStep {
    type V = ReadStepView;

    open spec fn view(&self) -> ReadStepView {
        match self {
            ReadStep::OpenRoot => ReadStepView::OpenRoot,
            ReadStep::ReadBeneath(path, limit) => ReadStepView::ReadBeneath(views(path@), *limit),
            ReadStep::Finished(result) => ReadStepView::Finished(result_view(*result)),
        }
    }
}

pub open spec fn one_more(limit: u64) -> u64 {
    if limit == u64::MAX {
        limit
    } else {
        (limit + 1) as u64
    }
}

pub open spec fn limit_text(limit: u64) -> Seq<char> {
    "file exceeds inline limit ("@ + decimal(limit as nat) + " bytes)"@
}

pub open spec fn safe_read_step(relative: Seq<u8>, limit: u64, event: ReadEventView)
    -> ReadStepView {
    if !only_descends(relative) {
        ReadStepView::Finished(Err(ErrorView::Message("path escapes workspace root"@)))
    } else {
        match event {
            ReadEventView::Start => ReadStepView::OpenRoot,
            ReadEventView::RootOpened => if components(relative).len() == 0 {
                ReadStepView::Finished(Err(ErrorView::Message("path is empty"@)))
            } else {
                ReadStepView::ReadBeneath(normal_names(components(relative)), one_more(limit))
            },
            ReadEventView::Content(bytes) => if bytes.len() > limit {
                ReadStepView::Finished(Err(ErrorView::Message(limit_text(limit))))
            } else {
                ReadStepView::Finished(Ok(bytes))
            },
            ReadEventView::Failed(error) => ReadStepView::Finished(Err(error)),
        }
    }
}

/// Reads a file of the workspace, at most `limit` bytes of it, without leaving
/// the workspace.
pub fn safe_read(relative: &[u8], limit: u64, event: ReadEvent) -> (step: ReadStep)
    ensures
        step@ == safe_read_step(relative@, limit, event@),
{
    let parts = split_path(relative);
    if !descends(&parts) {
        return ReadStep::Finished(Err(Error::message("path escapes workspace root")));
    }
    match event {
        ReadEvent::Start => ReadStep::OpenRoot,
        ReadEvent::RootOpened => {
            if parts.len() == 0 {
                return ReadStep::Finished(Err(Error::message("path is empty")));
            }
            let most = if limit == u64::MAX {
                limit
            } else {
                limit + 1
            };
            ReadStep::ReadBeneath(names(&parts), most)
        },
        ReadEvent::Content(bytes) => {
            if bytes.len() as u64 > limit {
                let number = decimal_text(limit);
                let text = join3("file exceeds inline limit (", number.as_str(), " bytes)");
                ReadStep::Finished(Err(Error::Message(text)))
            } else {
                ReadStep::Finished(Ok(bytes))
            }
        },
        ReadEvent::Failed(error) => ReadStep::Finished(Err(error)),
    }
}

/// What a file is hashed from: its path, how many bytes that has, how large the
/// file is, when it was modified where that is known, and where it is stored.
pub open spec fn hashed_bytes(
    relative: Seq<u8>,
    size: u64,
    modified: Option<u128>,
    device: u64,
    inode: u64,
) -> Seq<Seq<u8>> {
    seq![
        relative,
        spec_u64_to_le_bytes(relative.len() as u64),
        spec_u64_to_le_bytes(size),
        match modified {
            Some(time) => seq![1u8] + spec_u128_to_le_bytes(time),
            None => seq![0u8],
        },
        spec_u64_to_le_bytes(device),
        spec_u64_to_le_bytes(inode),
    ]
}

/// A number for a file that changes with its path and with what is known of it
/// before it is opened: what std's default hasher makes of those.
pub fn file_hash(
    relative: &[u8],
    size: u64,
    modified: Option<u128>,
    device: u64,
    inode: u64,
) -> (hash: u64)
    ensures
        hash == DefaultHasher::spec_finish(
            hashed_bytes(relative@, size, modified, device, inode),
        ),
{
    let mut hasher = DefaultHasher::new();
    hasher.write(relative);
    hasher.write(u64_to_le_bytes(relative.len() as u64).as_slice());
    hasher.write(u64_to_le_bytes(size).as_slice());
    match modified {
        Some(time) => {
            let mut bytes: Vec<u8> = Vec::new();
            bytes.push(1);
            let mut stamp = u128_to_le_bytes(time);
            bytes.append(&mut stamp);
            proof {
                assert(bytes@ =~= seq![1u8] + spec_u128_to_le_bytes(time));
            }
            hasher.write(bytes.as_slice());
        },
        None => {
            let mut bytes: Vec<u8> = Vec::new();
            bytes.push(0);
            proof {
                assert(bytes@ =~= seq![0u8]);
            }
            hasher.write(bytes.as_slice());
        },
    }
    hasher.write(u64_to_le_bytes(device).as_slice());
    hasher.write(u64_to_le_bytes(inode).as_slice());
    proof {
        assert(hasher@ =~= hashed_bytes(relative@, size, modified, device, inode));
    }
    hasher.finish()
}

/// What an item of a walk adds to the fingerprint: a number for a regular file
/// below the root whose metadata could be read, nothing for anything else.
pub open spec fn hash_of_item(root: Seq<u8>, item: WalkItemView, device: u64, inode: u64) -> Option<
    u64,
> {
    match item {
        WalkItemView::File { path, metadata: Ok(data) } => match relative_to(path, root) {
            Some(relative) => Some(
                DefaultHasher::spec_finish(
                    hashed_bytes(relative, data.size, data.modified_unix_ns, device, inode),
                ),
            ),
            None => None,
        },
        _ => None,
    }
}

/// What an item of a walk adds to the fingerprint, if anything.
pub fn item_hash(root: &[u8], item: &WalkItem, device: u64, inode: u64) -> (hash: Option<u64>)
    ensures
        hash == hash_of_item(root@, item@, device, inode),
{
    match item {
        WalkItem::File { path, metadata: Ok(data) } => match relative_path(path, root) {
            Some(relative) => Some(
                file_hash(&relative, data.size, data.modified_unix_ns, device, inode),
            ),
            None => None,
        },
        _ => None,
    }
}

/// Files that differ in their path or in what is known of them are hashed from
/// different bytes.
pub proof fn law_hashed_bytes_tell_files_apart(
    a: (Seq<u8>, u64, Option<u128>, u64, u64),
    b: (Seq<u8>, u64, Option<u128>, u64, u64),
)
    requires
        hashed_bytes(a.0, a.1, a.2, a.3, a.4) == hashed_bytes(b.0, b.1, b.2, b.3, b.4),
    ensures
        a == b,
{
    let left = hashed_bytes(a.0, a.1, a.2, a.3, a.4);
    let right = hashed_bytes(b.0, b.1, b.2, b.3, b.4);
    vstd::bytes::lemma_auto_spec_u64_to_from_le_bytes();
    vstd::bytes::lemma_auto_spec_u128_to_from_le_bytes();
    assert(left[0] == right[0]);
    assert(left[2] == right[2]);
    assert(left[3] == right[3]);
    assert(left[4] == right[4]);
    assert(left[5] == right[5]);
    assert(left[3][0] == right[3][0]);
    match (a.2, b.2) {
        (Some(x), Some(y)) => {
            assert(left[3].skip(1) =~= spec_u128_to_le_bytes(x));
            assert(right[3].skip(1) =~= spec_u128_to_le_bytes(y));
        },
        _ => {},
    }
}

/// The sum of two numbers, wrapping round.
pub open spec fn wrapped_sum(a: u64, b: u64) -> u64 {
    if a + b > u64::MAX {
        (a + b - 0x1_0000_0000_0000_0000) as u64
    } else {
        (a + b) as u64
    }
}

/// The sum of what each file was hashed to, wrapping round.
pub open spec fn fingerprint(hashes: Seq<u64>) -> u64 {
    hashes.fold_left(0u64, |sum: u64, hash: u64| wrapped_sum(sum, hash))
}

/// The fingerprint of the workspace, from what each of its files was hashed to,
/// and how many files there are.
pub fn workspace_fingerprint(hashes: &Vec<u64>) -> (result: (u64, usize))
    ensures
        result.0 == fingerprint(hashes@),
        result.1 == hashes@.len(),
{
    let ghost step = |sum: u64, hash: u64| wrapped_sum(sum, hash);
    let mut sum: u64 = 0;
    let mut i: usize = 0;
    proof {
        assert(hashes@.take(0) =~= Seq::empty());
    }
    while i < hashes.len()
        invariant
            i <= hashes@.len(),
            step == (|sum: u64, hash: u64| wrapped_sum(sum, hash)),
            sum == hashes@.take(i as int).fold_left(0u64, step),
        decreases hashes@.len() - i,
    {
        proof {
            assert(hashes@.take(i + 1).drop_last() =~= hashes@.take(i as int));
            assert(hashes@.take(i + 1).last() == hashes@[i as int]);
        }
        sum = sum.wrapping_add(hashes[i]);
        i += 1;
    }
    proof {
        assert(hashes@.take(i as int) =~= hashes@);
    }
    (sum, hashes.len())
}

/// The fingerprint does not depend on the order in which the files are met.
pub proof fn law_fingerprint_ignores_order(a: Seq<u64>, b: Seq<u64>)
    requires
        a.to_multiset() == b.to_multiset(),
    ensures
        fingerprint(a) == fingerprint(b),
{
    let step = |sum: u64, hash: u64| wrapped_sum(sum, hash);
    vstd::seq_lib::lemma_fold_left_permutation(a, b, step, 0u64);
}

/// The fingerprint changes whenever what one of the files was hashed to changes.
pub proof fn law_fingerprint_sees_a_changed_file(hashes: Seq<u64>, i: int, hash: u64)
    requires
        0 <= i < hashes.len(),
        hash != hashes[i],
    ensures
        fingerprint(hashes.update(i, hash)) != fingerprint(hashes),
    decreases hashes.len(),
{
    let changed = hashes.update(i, hash);
    if i == hashes.len() - 1 {
        assert(changed.drop_last() =~= hashes.drop_last());
    } else {
        law_fingerprint_sees_a_changed_file(hashes.drop_last(), i, hash);
        assert(changed.drop_last() =~= hashes.drop_last().update(i, hash));
    }
}

/// A read that is not refused names only steps down from the root, and what it
/// hands over is within the limit.
pub proof fn law_reads_stay_inside(relative: Seq<u8>, limit: u64, event: ReadEventView)
    ensures
        safe_read_step(relative, limit, event) matches ReadStepView::ReadBeneath(path, most) ==> {
            &&& only_descends(relative)
            &&& path.len() > 0
            &&& path.len() == components(relative).len()
            &&& forall|i: int|
                0 <= i < path.len() ==> components(relative)[i] == ComponentView::Normal(
                    #[trigger] path[i],
                )
        },
        safe_read_step(relative, limit, event) matches ReadStepView::Finished(Ok(bytes))
            ==> bytes.len() <= limit,
{
    if only_descends(relative) {
        lemma_all_names(components(relative));
    }
}

proof fn lemma_all_names(parts: Seq<ComponentView>)
    requires
        forall|i: int| 0 <= i < parts.len() ==> #[trigger] parts[i] is Normal,
    ensures
        normal_names(parts).len() == parts.len(),
        forall|i: int|
            0 <= i < parts.len() ==> parts[i] == ComponentView::Normal(
                #[trigger] normal_names(parts)[i],
            ),
    decreases parts.len(),
{
    if parts.len() > 0 {
        let rest = parts.skip(1);
        assert forall|i: int| 0 <= i < rest.len() implies #[trigger] rest[i] is Normal by {
            assert(rest[i] == parts[i + 1]);
        }
        lemma_all_names(rest);
        let all = normal_names(parts);
        assert forall|i: int| 0 <= i < parts.len() implies parts[i] == ComponentView::Normal(
            #[trigger] all[i],
        ) by {
            assert(parts[0] is Normal);
            if i > 0 {
                assert(all[i] == normal_names(rest)[i - 1]);
                assert(parts[i] == rest[i - 1]);
            }
        }
    }
}

/// A scan never goes over its limits: once one would be passed it stops, and
/// counts nothing more.
pub proof fn law_scan_keeps_its_limits(scan: ScanView, item: WalkItemView)
    requires
        0 <= scan.scanned_files <= MAX_SCAN_FILES,
        0 <= scan.scanned_bytes <= MAX_SCAN_BYTES,
    ensures
        offered(scan, item).0.scanned_files <= MAX_SCAN_FILES,
        offered(scan, item).0.scanned_bytes <= MAX_SCAN_BYTES,
        offered(scan, item).1 is Stop ==> offered(scan, item).0 == scan,
{
}

spec fn runs_in_order(files: Seq<FileView>) -> bool {
    forall|i: int, j: int|
        #![trigger files[i], files[j]]
        0 <= i < j < files.len() ==> !parts_before(
            components(files[j].relative),
            components(files[i].relative),
        )
}

proof fn lemma_first_run_before(files: Seq<FileView>, m: int)
    requires
        runs_in_order(files),
        1 <= m < files.len(),
        components(files[0].relative) != components(files[1].relative),
    ensures
        parts_before(components(files[0].relative), components(files[m].relative)),
{
    let c = components(files[0].relative);
    let d = components(files[m].relative);
    let e = components(files[1].relative);
    assert(!parts_before(d, c));
    assert(!parts_before(e, c));
    lemma_parts_before_total(c, d);
    lemma_parts_before_total(c, e);
    if c == d && m > 1 {
        assert(!parts_before(d, e));
    }
}

#[verifier::spinoff_prover]
proof fn lemma_last_of_runs(files: Seq<FileView>)
    requires
        runs_in_order(files),
    ensures
        forall|k: int|
            0 <= k < last_of_runs(files).len() ==> files.contains(#[trigger] last_of_runs(files)[k]),
        forall|i: int, j: int|
            #![trigger last_of_runs(files)[i], last_of_runs(files)[j]]
            0 <= i < j < last_of_runs(files).len() ==> parts_before(
                components(last_of_runs(files)[i].relative),
                components(last_of_runs(files)[j].relative),
            ),
        forall|i: int|
            0 <= i < files.len() ==> exists|k: int|
                0 <= k < last_of_runs(files).len() && components(
                    (#[trigger] last_of_runs(files)[k]).relative,
                ) == components((#[trigger] files[i]).relative),
    decreases files.len(),
{
    if files.len() > 0 {
        let rest = files.skip(1);
        let all = last_of_runs(files);
        let tail = last_of_runs(rest);
        assert(runs_in_order(rest)) by {
            assert forall|i: int, j: int|
                #![trigger rest[i], rest[j]]
                0 <= i < j < rest.len() implies !parts_before(
                components(rest[j].relative),
                components(rest[i].relative),
            ) by {
                assert(rest[i] == files[i + 1] && rest[j] == files[j + 1]);
            }
        }
        lemma_last_of_runs(rest);
        assert forall|k: int| 0 <= k < tail.len() implies files.contains(#[trigger] tail[k]) by {
            let m = rest.index_of(tail[k]);
            assert(rest.contains(tail[k]));
            assert(files[m + 1] == tail[k]);
        }
        let again = files.len() > 1 && components(files[0].relative) == components(
            files[1].relative,
        );
        if again {
            assert(all == tail);
        } else {
            assert(all == seq![files[0]] + tail);
            assert forall|k: int| 0 <= k < all.len() implies files.contains(#[trigger] all[k]) by {
                if k > 0 {
                    assert(all[k] == tail[k - 1]);
                }
            }
            assert forall|i: int, j: int|
                #![trigger all[i], all[j]]
                0 <= i < j < all.len() implies parts_before(
                components(all[i].relative),
                components(all[j].relative),
            ) by {
                assert(all[j] == tail[j - 1]);
                if i > 0 {
                    assert(all[i] == tail[i - 1]);
                } else {
                    let m = rest.index_of(tail[j - 1]);
                    assert(rest.contains(tail[j - 1]));
                    assert(rest[m] == files[m + 1]);
                    lemma_first_run_before(files, m + 1);
                }
            }
        }
        assert forall|i: int| 0 <= i < files.len() implies exists|k: int|
            0 <= k < all.len() && components((#[trigger] all[k]).relative) == components(
                (#[trigger] files[i]).relative,
            ) by {
            if i > 0 || again {
                let at = if i > 0 {
                    i - 1
                } else {
                    0
                };
                assert(rest[at] == files[at + 1]);
                let k = choose|k: int|
                    0 <= k < tail.len() && components((#[trigger] tail[k]).relative) == components(
                        rest[at].relative,
                    );
                if again {
                    assert(all[k] == tail[k]);
                } else {
                    assert(all[k + 1] == tail[k]);
                }
            } else {
                assert(all[0] == files[0]);
            }
        }
    }
}

/// The files that a scan lists stand by path, no path twice; each was found,
/// and each path that was found is listed.
pub proof fn law_scan_lists_each_path_once(files: Seq<FileView>)
    ensures
        forall|k: int|
            0 <= k < listed(files).len() ==> files.contains(#[trigger] listed(files)[k]),
        forall|i: int, j: int|
            #![trigger listed(files)[i], listed(files)[j]]
            0 <= i < j < listed(files).len() ==> parts_before(
                components(listed(files)[i].relative),
                components(listed(files)[j].relative),
            ),
        forall|i: int|
            0 <= i < files.len() ==> exists|k: int|
                0 <= k < listed(files).len() && components((#[trigger] listed(files)[k]).relative)
                    == components((#[trigger] files[i]).relative),
{
    let keys = file_paths(files);
    let indices = order(keys);
    let sorted = arranged(files, indices);
    law_order_is_sorted(keys);
    assert forall|i: int, j: int|
        #![trigger sorted[i], sorted[j]]
        0 <= i < j < sorted.len() implies !parts_before(
        components(sorted[j].relative),
        components(sorted[i].relative),
    ) by {
        assert(indices.contains(indices[i]));
        assert(indices.contains(indices[j]));
        assert(!key_before(keys, indices[j], indices[i]));
    }
    lemma_last_of_runs(sorted);
    assert forall|k: int| 0 <= k < listed(files).len() implies files.contains(
        #[trigger] listed(files)[k],
    ) by {
        let file = listed(files)[k];
        let m = sorted.index_of(file);
        assert(sorted.contains(file));
        assert(indices.contains(indices[m]));
        assert(files[indices[m]] == file);
    }
    assert forall|i: int| 0 <= i < files.len() implies exists|k: int|
        0 <= k < listed(files).len() && components((#[trigger] listed(files)[k]).relative)
            == components((#[trigger] files[i]).relative) by {
        assert(indices.contains(i));
        let m = indices.index_of(i);
        assert(sorted[m] == files[i]);
    }
}

/// A file counts as text if and only if it is small, holds no zero byte and is valid
/// UTF-8; otherwise it counts as the first of these that fails tells.
pub proof fn law_text_is_told_by_its_bytes(size: u64, bytes: Seq<u8>)
    ensures
        inspect_step(size, Some(Ok(bytes))) matches InspectStepView::Finished(Ok(kind)) && {
            let large = size > 2 * 1024 * 1024 || bytes.len() > 2 * 1024 * 1024;
            let zero = exists|i: int| 0 <= i < bytes.len() && #[trigger] bytes[i] == 0;
            &&& kind == TextEligibility::Oversized <==> large
            &&& kind == TextEligibility::Binary <==> !large && zero
            &&& kind == TextEligibility::InvalidUtf8 <==> !large && !zero && !valid_utf8(bytes)
            &&& kind == TextEligibility::Text <==> !large && !zero && valid_utf8(bytes)
        },
{
    if exists|i: int| 0 <= i < bytes.len() && #[trigger] bytes[i] == 0 {
        let i = choose|i: int| 0 <= i < bytes.len() && #[trigger] bytes[i] == 0;
        assert(bytes.contains(bytes[i]));
    }
}

/// A read hands over what was read, all of it and nothing else, where that is within
/// the limit; it asks for one byte more than the limit, so that more is noticed.
pub proof fn law_reads_hand_over_what_was_read(relative: Seq<u8>, limit: u64, bytes: Seq<u8>)
    requires
        only_descends(relative),
        components(relative).len() > 0,
        limit < u64::MAX,
    ensures
        bytes.len() <= limit ==> safe_read_step(relative, limit, ReadEventView::Content(bytes))
            == ReadStepView::Finished(Ok(bytes)),
        bytes.len() > limit ==> safe_read_step(
            relative,
            limit,
            ReadEventView::Content(bytes),
        ) matches ReadStepView::Finished(Err(_)),
        safe_read_step(relative, limit, ReadEventView::RootOpened) matches ReadStepView::ReadBeneath(
            _,
            most,
        ) && most == limit + 1,
        safe_read_step(relative, limit, ReadEventView::Start) is OpenRoot,
{
}

/// A walk looks at everything but the directories of tools and what a project view
/// leaves out; a file is never left out for its name.
pub proof fn law_walks_leave_out_directories_of_tools(
    scope: Option<ScopeView>,
    path: Seq<u8>,
    name: Seq<u8>,
    is_directory: bool,
)
    ensures
        ({
            let of_tools = name == encode_utf8(".git"@) || name == encode_utf8(".hg"@) || name
                == encode_utf8(".svn"@) || name == encode_utf8("node_modules"@) || name
                == encode_utf8("target"@) || name == encode_utf8("dist"@) || name == encode_utf8(
                ".next"@,
            ) || name == encode_utf8(".cache"@);
            admitted(scope, path, name, is_directory) <==> !(is_directory && of_tools) && (scope
                is None || absolute_in_scope(scope->0, path, is_directory))
        }),
{
}

pub open spec fn as_parts(found: Seq<Seq<u8>>) -> Seq<ComponentView> {
    Seq::new(found.len(), |i: int| ComponentView::Normal(found[i]))
}

proof fn lemma_path_of_names(found: Seq<Seq<u8>>)
    requires
        forall|i: int| 0 <= i < found.len() ==> crate::path::plain_name(#[trigger] found[i]),
    ensures
        components(path_of(as_parts(found))) == as_parts(found),
    decreases found.len(),
{
    let parts = as_parts(found);
    if found.len() == 0 {
        crate::path::lemma_single_piece(Seq::empty());
        assert(components(path_of(parts)) =~= parts);
    } else {
        let front = found.drop_last();
        assert forall|i: int| 0 <= i < front.len() implies crate::path::plain_name(
            #[trigger] front[i],
        ) by {
            assert(front[i] == found[i]);
        }
        lemma_path_of_names(front);
        assert(parts.drop_last() =~= as_parts(front));
        assert(crate::path::plain_name(found[found.len() - 1]));
        crate::path::lemma_joined_name(path_of(as_parts(front)), found.last());
        assert(components(path_of(parts)) =~= parts);
    }
}

/// A regular file below the root is taken in as it was found, by its path from the root,
/// while the scan is within its limits; what is no file, and what is not below the
/// root, is not.
pub proof fn law_scan_takes_in_files_below_its_root(
    scan: ScanView,
    path: Seq<u8>,
    found: Seq<Seq<u8>>,
    data: FileMetadata,
)
    requires
        components(path) == components(scan.root) + as_parts(found),
        forall|i: int| 0 <= i < found.len() ==> crate::path::plain_name(#[trigger] found[i]),
        scan.scanned_files < 100_000,
        scan.scanned_bytes + data.size <= 1024 * 1024 * 1024,
    ensures
        ({
            let (next, action) = offered(
                scan,
                WalkItemView::File { path, metadata: Ok(data) },
            );
            &&& action matches ScanActionView::Inspect(file) && {
                &&& components(file.relative) == as_parts(found)
                &&& file.absolute == path
                &&& file.metadata == data
            }
            &&& next == ScanView {
                scanned_files: scan.scanned_files + 1,
                scanned_bytes: scan.scanned_bytes + data.size,
                ..scan
            }
        }),
        offered(scan, WalkItemView::NotAFile) == (scan, ScanActionView::Next),
{
    let parts = components(path);
    let base = components(scan.root);
    assert(parts.subrange(0, base.len() as int) =~= base);
    assert(base.is_prefix_of(parts));
    assert(parts.skip(base.len() as int) =~= as_parts(found));
    lemma_path_of_names(found);
}

/// A file that was looked into is kept as it was found, with what its text is; one that
/// could not be read is kept too, as unreadable, and is told of.
pub proof fn law_scan_keeps_what_it_looked_into(
    scan: ScanView,
    pending: PendingView,
    inspected: Result<TextEligibility, ErrorView>,
)
    ensures
        ({
            let next = with_file(scan, pending, inspected);
            let file = next.files.last();
            &&& next.files.len() == scan.files.len() + 1
            &&& next.files.drop_last() == scan.files
            &&& file.relative == pending.relative
            &&& file.absolute == pending.absolute
            &&& file.size == pending.metadata.size
            &&& file.modified_unix_ns == pending.metadata.modified_unix_ns
            &&& inspected matches Ok(text) ==> file.text == text && next.notices == scan.notices
            &&& inspected is Err ==> file.text == TextEligibility::Unreadable && next.notices.len()
                == scan.notices.len() + 1
        }),
{
    let next = with_file(scan, pending, inspected);
    assert(next.files.drop_last() =~= scan.files);
}

/// A scan stops where it would take in more than a hundred thousand files or a gibibyte,
/// and changes nothing then; what it could not look at, and what lies outside its root,
/// it tells of and goes on.
pub proof fn law_a_scan_stops_or_tells(
    scan: ScanView,
    path: Seq<u8>,
    metadata: Result<FileMetadata, Seq<char>>,
    text: Seq<char>,
)
    ensures
        ({
            let (next, action) = offered(scan, WalkItemView::File { path, metadata });
            let below = components(scan.root).is_prefix_of(components(path));
            let told = next == ScanView { notices: next.notices, ..scan } && next.notices.len()
                == scan.notices.len() + 1 && next.notices.drop_last() == scan.notices && action
                == ScanActionView::Next;
            &&& below && metadata is Ok && (scan.scanned_files >= 100_000 || scan.scanned_bytes
                + metadata->Ok_0.size > 1_073_741_824) ==> next == scan && action is Stop
            &&& !below ==> told
            &&& below && metadata is Err ==> told
        }),
        ({
            let (next, action) = offered(scan, WalkItemView::Failed(text));
            &&& next == ScanView { notices: scan.notices.push(text), ..scan }
            &&& action == ScanActionView::Next
        }),
        offered(scan, WalkItemView::Untyped) == (scan, ScanActionView::Next),
{
    let (next, action) = offered(scan, WalkItemView::File { path, metadata });
    if next.notices.len() > 0 {
        assert(next.notices.drop_last() =~= scan.notices || next.notices == scan.notices);
    }
}

proof fn lemma_last_of_run(files: Seq<FileView>, k: int) -> (m: int)
    requires
        runs_in_order(files),
        0 <= k < last_of_runs(files).len(),
    ensures
        0 <= m < files.len(),
        last_of_runs(files)[k] == files[m],
        forall|later: int|
            m < later < files.len() ==> components((#[trigger] files[later]).relative)
                != components(files[m].relative),
    decreases files.len(),
{
    let rest = files.skip(1);
    assert forall|i: int, j: int|
        #![trigger rest[i], rest[j]]
        0 <= i < j < rest.len() implies !parts_before(
        components(rest[j].relative),
        components(rest[i].relative),
    ) by {
        assert(rest[i] == files[i + 1] && rest[j] == files[j + 1]);
    }
    let doubled = files.len() > 1 && components(files[0].relative) == components(
        files[1].relative,
    );
    if !doubled && k == 0 {
        assert forall|later: int| 0 < later < files.len() implies components(
            (#[trigger] files[later]).relative,
        ) != components(files[0].relative) by {
            lemma_first_run_before(files, later);
            lemma_parts_before_total(
                components(files[0].relative),
                components(files[later].relative),
            );
        }
        0
    } else {
        let at = lemma_last_of_run(
            rest,
            if doubled {
                k
            } else {
                k - 1
            },
        );
        let m = at + 1;
        assert(rest[at] == files[m]);
        assert forall|later: int| m < later < files.len() implies components(
            (#[trigger] files[later]).relative,
        ) != components(files[m].relative) by {
            assert(rest[later - 1] == files[later]);
        }
        m
    }
}

/// Of files that were found under one path the last one that was found is listed.
pub proof fn law_the_last_file_of_a_path_is_listed(files: Seq<FileView>, k: int) -> (i: int)
    requires
        0 <= k < listed(files).len(),
    ensures
        0 <= i < files.len(),
        listed(files)[k] == files[i],
        forall|j: int|
            i < j < files.len() ==> components((#[trigger] files[j]).relative) != components(
                files[i].relative,
            ),
{
    let keys = file_paths(files);
    let indices = order(keys);
    let sorted = arranged(files, indices);
    law_order_is_sorted(keys);
    assert forall|a: int| 0 <= a < indices.len() implies 0 <= #[trigger] indices[a]
        < files.len() by {
        assert(indices.contains(indices[a]));
    }
    assert forall|a: int, b: int|
        #![trigger sorted[a], sorted[b]]
        0 <= a < b < sorted.len() implies !parts_before(
        components(sorted[b].relative),
        components(sorted[a].relative),
    ) by {
        assert(!key_before(keys, indices[b], indices[a]));
    }
    let m = lemma_last_of_run(sorted, k);
    let i = indices[m];
    assert forall|j: int| i < j < files.len() implies components((#[trigger] files[j]).relative)
        != components(files[i].relative) by {
        if components(files[j].relative) == components(files[i].relative) {
            assert(indices.contains(j));
            let at = indices.index_of(j);
            assert(sorted[at] == files[j]);
            assert(sorted[m] == files[i]);
            assert(keys[j] == keys[i]);
            if at < m {
                assert(indices[at] < indices[m]);
            }
        }
    }
    i
}

/// A scan begins with nothing counted, found or told.
pub proof fn law_a_scan_begins_with_nothing(root: Seq<u8>)
    ensures
        scan_start(root).root == root,
        scan_start(root).files.len() == 0,
        scan_start(root).notices.len() == 0,
        scan_start(root).scanned_files == 0,
        scan_start(root).scanned_bytes == 0,
{
}

} // verus!
