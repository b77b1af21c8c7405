//! Where the plugin keeps its state, and what is read, written and removed there.
use sha2::Digest;
use vstd::prelude::*;
use vstd::utf8::encode_utf8;

use crate::error::{result_view, Error, ErrorView};
use crate::model::{Manifest, ManifestView, INLINE_TEXT_LIMIT, MANIFEST_VERSION};
use crate::path::{
    components, join, joined, lemma_joined_name, plain_name, ComponentView, DOT, SEPARATOR,
};
use crate::seqs::{copy_bytes, group_views, option_view, views};
use crate::text::{decimal, decimal_text, join3, lossy, lossy_text, same_text, to_chars};

verus! {

/// Which pane shows the changes of which.
#[derive(Debug, PartialEq, Eq)]
pub struct ViewerMapping {
    pub target_pane_id: String,
    pub viewer_pane_id: String,
}

pub ghost struct MappingView {
    pub target_pane_id: Seq<char>,
    pub viewer_pane_id: Seq<char>,
}

impl View for ViewerMapping {
    type V = MappingView;

    open spec fn view(&self) -> MappingView {
        MappingView {
            target_pane_id: self.target_pane_id@,
            viewer_pane_id: self.viewer_pane_id@,
        }
    }
}

/// Where a viewer is opened.
#[derive(Clone, Copy, Debug, PartialEq, Eq, Structural)]
pub enum ViewerPlacement {
    Split,
    Tab,
}

impl Default for ViewerPlacement {
    fn default() -> (placement: Self)
        ensures
            placement == ViewerPlacement::Split,
    {
        ViewerPlacement::Split
    }
}

pub open spec fn placement_name(placement: ViewerPlacement) -> Seq<char> {
    match placement {
        ViewerPlacement::Split => "split"@,
        ViewerPlacement::Tab => "tab"@,
    }
}

impl ViewerPlacement {
    pub fn as_str(self) -> (name: &'static str)
        ensures
            name@ == placement_name(self),
    {
        match self {
            ViewerPlacement::Split => "split",
            ViewerPlacement::Tab => "tab",
        }
    }
}

/// What SHA-256 makes of bytes.
pub uninterp spec fn sha256(bytes: Seq<u8>) -> Seq<u8>;

/// `sha2::Sha256::digest`: the digest is a function of the bytes, and 32 bytes
/// long. What the bytes of the digest are is left to the name.
#[verifier::external_body]
fn sha256_digest(bytes: &[u8]) -> (digest: Vec<u8>)
    ensures
        digest@ == sha256(bytes@),
        digest@.len() == 32,
{
    sha2::Sha256::digest(bytes).to_vec()
}

pub open spec fn hex_digit(value: int) -> char {
    if value < 10 {
        (48 + value) as char
    } else {
        (87 + value) as char
    }
}

/// Bytes in hexadecimal, two lower-case digits for each.
pub open spec fn hex(bytes: Seq<u8>) -> Seq<char>
    decreases bytes.len(),
{
    if bytes.len() == 0 {
        Seq::empty()
    } else {
        hex(bytes.drop_last()).push(hex_digit(bytes.last() as int / 16)).push(
            hex_digit(bytes.last() as int % 16),
        )
    }
}

fn hex_char(value: u8) -> (c: char)
    requires
        value < 16,
    ensures
        c == hex_digit(value as int),
{
    if value < 10 {
        (48 + value) as char
    } else {
        (87 + value) as char
    }
}

/// The name of a blob: the SHA-256 digest of its bytes in hexadecimal.
pub open spec fn blob_name(bytes: Seq<u8>) -> Seq<char> {
    hex(sha256(bytes))
}

fn hex_text(bytes: &[u8]) -> (text: String)
    ensures
        text@ == hex(bytes@),
{
    let mut text = String::new();
    let mut i: usize = 0;
    proof {
        assert(bytes@.take(0) =~= Seq::empty());
        assert(text@ =~= hex(bytes@.take(0)));
    }
    while i < bytes.len()
        invariant
            i <= bytes@.len(),
            text@ == hex(bytes@.take(i as int)),
        decreases bytes@.len() - i,
    {
        proof {
            assert(bytes@.take(i + 1).drop_last() =~= bytes@.take(i as int));
        }
        text.push(hex_char(bytes[i] / 16));
        text.push(hex_char(bytes[i] % 16));
        i += 1;
    }
    proof {
        assert(bytes@.take(i as int) =~= bytes@);
    }
    text
}

/// The name of a blob: the SHA-256 digest of its bytes in hexadecimal.
pub fn hex_digest(bytes: &[u8]) -> (name: String)
    ensures
        name@ == blob_name(bytes@),
        is_blob_name(name@),
{
    let digest = sha256_digest(bytes);
    proof {
        lemma_hex(digest@);
    }
    hex_text(&digest)
}

pub open spec fn is_hex_digit(c: char) -> bool {
    ('0' <= c <= '9') || ('a' <= c <= 'f')
}

/// What can be the name of a blob: 64 lower-case hexadecimal digits.
pub open spec fn is_blob_name(name: Seq<char>) -> bool {
    name.len() == 64 && forall|i: int| 0 <= i < name.len() ==> is_hex_digit(#[trigger] name[i])
}

proof fn lemma_hex(bytes: Seq<u8>)
    ensures
        hex(bytes).len() == 2 * bytes.len(),
        forall|i: int| 0 <= i < hex(bytes).len() ==> is_hex_digit(#[trigger] hex(bytes)[i]),
    decreases bytes.len(),
{
    if bytes.len() > 0 {
        lemma_hex(bytes.drop_last());
    }
}

fn is_blob_hash(hash: &str) -> (valid: bool)
    ensures
        valid == is_blob_name(hash@),
{
    let chars = to_chars(hash);
    if chars.len() != 64 {
        return false;
    }
    let mut i: usize = 0;
    while i < chars.len()
        invariant
            i <= chars@.len(),
            chars@ == hash@,
            forall|j: int| 0 <= j < i ==> is_hex_digit(#[trigger] chars@[j]),
        decreases chars@.len() - i,
    {
        let c = chars[i];
        if !(('0' <= c && c <= '9') || ('a' <= c && c <= 'f')) {
            proof {
                assert(!is_hex_digit(chars@[i as int]));
            }
            return false;
        }
        i += 1;
    }
    true
}

pub open spec fn key_char(c: char) -> bool {
    ('a' <= c <= 'z') || ('A' <= c <= 'Z') || ('0' <= c <= '9') || c == '-' || c == '_'
}

/// A pane's name as part of a file name.
pub open spec fn pane_file_key(pane: Seq<char>) -> Seq<char> {
    Seq::new(
        pane.len(),
        |i: int|
            if key_char(pane[i]) {
                pane[i]
            } else {
                '_'
            },
    )
}

/// What the files of a pane are called: its name with an underscore for every
/// character but letters, digits, `-` and `_`.
pub fn pane_key(pane: &str) -> (key: String)
    ensures
        key@ == pane_file_key(pane@),
{
    let chars = to_chars(pane);
    let mut key = String::new();
    let mut i: usize = 0;
    while i < chars.len()
        invariant
            i <= chars@.len(),
            chars@ == pane@,
            key@ == pane_file_key(pane@).take(i as int),
        decreases chars@.len() - i,
    {
        let c = chars[i];
        let kept = ('a' <= c && c <= 'z') || ('A' <= c && c <= 'Z') || ('0' <= c && c <= '9') || c
            == '-' || c == '_';
        let next = if kept {
            c
        } else {
            '_'
        };
        proof {
            assert(pane_file_key(pane@).take(i + 1) =~= pane_file_key(pane@).take(i as int).push(
                next,
            ));
        }
        key.push(next);
        i += 1;
    }
    proof {
        assert(pane_file_key(pane@).take(i as int) =~= pane_file_key(pane@));
    }
    key
}

/// A directory of the state.
pub open spec fn state_directory(root: Seq<u8>, directory: Seq<char>) -> Seq<u8> {
    joined(root, encode_utf8(directory))
}

/// A file in a directory of the state.
pub open spec fn state_file(root: Seq<u8>, directory: Seq<char>, name: Seq<char>) -> Seq<u8> {
    joined(state_directory(root, directory), encode_utf8(name))
}

pub open spec fn manifest_file(root: Seq<u8>, pane: Seq<char>) -> Seq<u8> {
    state_file(root, "manifests"@, pane_file_key(pane) + ".json"@)
}

pub open spec fn marker_file(root: Seq<u8>, pane: Seq<char>) -> Seq<u8> {
    state_file(root, "markers"@, pane_file_key(pane) + ".capture"@)
}

pub open spec fn viewer_suffix(placement: ViewerPlacement) -> Seq<char> {
    match placement {
        ViewerPlacement::Split => ""@,
        ViewerPlacement::Tab => ".tab"@,
    }
}

pub open spec fn viewer_file(
    root: Seq<u8>,
    pane: Seq<char>,
    placement: ViewerPlacement,
) -> Seq<u8> {
    state_file(root, "viewers"@, pane_file_key(pane) + viewer_suffix(placement) + ".json"@)
}

pub open spec fn blob_file(root: Seq<u8>, name: Seq<char>) -> Seq<u8> {
    state_file(root, "blobs"@, name)
}

/// Access rights of the directories that hold the state.
pub const PRIVATE_DIRECTORY_MODE: u32 = 0o700;

/// Access rights of the files that hold the state.
pub const PRIVATE_FILE_MODE: u32 = 0o600;

/// The plugin's state, kept in files under a root directory.
#[derive(Debug)]
pub struct StateStore {
    root: Vec<u8>,
}

impl View for StateStore {
    type V = Seq<u8>;

    closed spec fn view(&self) -> Seq<u8> {
        self.root@
    }
}

impl Clone for StateStore {
    fn clone(&self) -> (copy: Self)
        ensures
            copy@ == self@,
    {
        let root = copy_bytes(&self.root, 0, self.root.len());
        proof {
            assert(root@ =~= self.root@);
        }
        StateStore { root }
    }
}

impl StateStore {
    /// The state under a root directory.
    pub fn new(root: Vec<u8>) -> (store: StateStore)
        ensures
            store@ == root@,
    {
        StateStore { root }
    }

    /// The root directory.
    pub fn root(&self) -> (root: &Vec<u8>)
        ensures
            root@ == self@,
    {
        &self.root
    }

    /// One of the directories under the root.
    pub fn directory(&self, name: &str) -> (path: Vec<u8>)
        ensures
            path@ == state_directory(self@, name@),
    {
        let bytes = name.as_bytes_vec();
        join(&self.root, &bytes)
    }

    /// The directories under the root, which are made when the state is opened.
    pub fn directories(&self) -> (paths: Vec<Vec<u8>>)
        ensures
            views(paths@) == seq![
                state_directory(self@, "manifests"@),
                state_directory(self@, "blobs"@),
                state_directory(self@, "markers"@),
                state_directory(self@, "viewers"@),
            ],
    {
        broadcast use group_views;

        let mut paths: Vec<Vec<u8>> = Vec::new();
        paths.push(self.directory("manifests"));
        paths.push(self.directory("blobs"));
        paths.push(self.directory("markers"));
        paths.push(self.directory("viewers"));
        paths
    }

    fn file(&self, directory: &str, name: &str) -> (path: Vec<u8>)
        ensures
            path@ == state_file(self@, directory@, name@),
    {
        let base = self.directory(directory);
        let bytes = name.as_bytes_vec();
        join(&base, &bytes)
    }

    fn manifest_path(&self, pane_id: &str) -> (path: Vec<u8>)
        ensures
            path@ == manifest_file(self@, pane_id@),
    {
        let mut name = pane_key(pane_id);
        name.append(".json");
        self.file("manifests", name.as_str())
    }

    fn marker_path(&self, pane_id: &str) -> (path: Vec<u8>)
        ensures
            path@ == marker_file(self@, pane_id@),
    {
        let mut name = pane_key(pane_id);
        name.append(".capture");
        self.file("markers", name.as_str())
    }

    fn viewer_path(&self, pane_id: &str, placement: ViewerPlacement) -> (path: Vec<u8>)
        ensures
            path@ == viewer_file(self@, pane_id@, placement),
    {
        let key = pane_key(pane_id);
        let name = match placement {
            ViewerPlacement::Split => join3(key.as_str(), "", ".json"),
            ViewerPlacement::Tab => join3(key.as_str(), ".tab", ".json"),
        };
        self.file("viewers", name.as_str())
    }

    fn blob_path(&self, name: &str) -> (path: Vec<u8>)
        ensures
            path@ == blob_file(self@, name@),
    {
        self.file("blobs", name)
    }
}

/// What an operation on the state needs done to the files.
#[derive(Debug)]
pub enum StateRequest {
    /// Is there such a file?
    Exists(Vec<u8>),
    /// Make the file new; it must not exist.
    Create(Vec<u8>),
    /// Write this process's number to the file.
    WriteOwner(Vec<u8>),
    /// Give the file to its owner alone.
    Protect(Vec<u8>),
    /// Put the contents in the file, all or nothing.
    Write(Vec<u8>),
    /// Read at most so many bytes, following no link.
    ReadPrefix(Vec<u8>, u64),
    /// Read the file.
    Read(Vec<u8>),
    /// Remove the files in turn; one that is not there is no fault.
    RemoveAll(Vec<Vec<u8>>),
    /// Is anything in the directory?
    AnyEntry(Vec<u8>),
    /// Read every manifest in the directory.
    ReadManifests(Vec<u8>),
    /// Read every viewer mapping in the directory.
    ReadMappings(Vec<u8>),
    /// The names in the directory.
    List(Vec<u8>),
    /// Remove the blobs that nothing refers to.
    CollectBlobs,
}

pub ghost enum RequestView {
    Exists(Seq<u8>),
    Create(Seq<u8>),
    WriteOwner(Seq<u8>),
    Protect(Seq<u8>),
    Write(Seq<u8>),
    ReadPrefix(Seq<u8>, u64),
    Read(Seq<u8>),
    RemoveAll(Seq<Seq<u8>>),
    AnyEntry(Seq<u8>),
    ReadManifests(Seq<u8>),
    ReadMappings(Seq<u8>),
    List(Seq<u8>),
    CollectBlobs,
}

impl View for StateRequest {
    type V = RequestView;

    open spec fn view(&self) -> RequestView {
        match self {
            StateRequest::Exists(path) => RequestView::Exists(path@),
            StateRequest::Create(path) => RequestView::Create(path@),
            StateRequest::WriteOwner(path) => RequestView::WriteOwner(path@),
            StateRequest::Protect(path) => RequestView::Protect(path@),
            StateRequest::Write(path) => RequestView::Write(path@),
            StateRequest::ReadPrefix(path, limit) => RequestView::ReadPrefix(path@, *limit),
            StateRequest::Read(path) => RequestView::Read(path@),
            StateRequest::RemoveAll(paths) => RequestView::RemoveAll(views(paths@)),
            StateRequest::AnyEntry(path) => RequestView::AnyEntry(path@),
            StateRequest::ReadManifests(path) => RequestView::ReadManifests(path@),
            StateRequest::ReadMappings(path) => RequestView::ReadMappings(path@),
            StateRequest::List(path) => RequestView::List(path@),
            StateRequest::CollectBlobs => RequestView::CollectBlobs,
        }
    }
}

/// What an operation needs next, or what came of it.
#[derive(Debug)]
pub enum Step<T> {
    Ask(StateRequest),
    Finished(Result<T, Error>),
}

pub ghost enum StepView<V> {
    Ask(RequestView),
    Finished(Result<V, ErrorView>),
}

impl<T: View> View for Step<T> {
    type V = StepView<T::V>;

    open spec fn view(&self) -> StepView<T::V> {
        match self {
            Step::Ask(request) => StepView::Ask(request@),
            Step::Finished(result) => StepView::Finished(result_view(*result)),
        }
    }
}

/// What a result in an option holds, by its views.
pub open spec fn reply_view<T: View>(reply: Option<Result<T, Error>>) -> Option<
    Result<T::V, ErrorView>,
> {
    match reply {
        Some(result) => Some(result_view(result)),
        None => None,
    }
}

/// A capture that has begun: the marker to remove when it ends.
#[derive(Debug)]
pub struct CaptureGuard {
    pub path: Vec<u8>,
}

impl View for CaptureGuard {
    type V = Seq<u8>;

    open spec fn view(&self) -> Seq<u8> {
        self.path@
    }
}

/// How far the beginning of a capture has come.
#[derive(Debug)]
pub enum CaptureEvent {
    Start,
    Created,
    AlreadyExists,
    CreateFailed(Error),
    OwnerWritten,
    WriteFailed(Error),
    Protected,
    ProtectFailed(Error),
    Removed(Error),
}

pub ghost enum CaptureEventView {
    Start,
    Created,
    AlreadyExists,
    CreateFailed(ErrorView),
    OwnerWritten,
    WriteFailed(ErrorView),
    Protected,
    ProtectFailed(ErrorView),
    Removed(ErrorView),
}

impl View for CaptureEvent {
    type V = CaptureEventView;

    open spec fn view(&self) -> CaptureEventView {
        match self {
            CaptureEvent::Start => CaptureEventView::Start,
            CaptureEvent::Created => CaptureEventView::Created,
            CaptureEvent::AlreadyExists => CaptureEventView::AlreadyExists,
            CaptureEvent::CreateFailed(error) => CaptureEventView::CreateFailed(error@),
            CaptureEvent::OwnerWritten => CaptureEventView::OwnerWritten,
            CaptureEvent::WriteFailed(error) => CaptureEventView::WriteFailed(error@),
            CaptureEvent::Protected => CaptureEventView::Protected,
            CaptureEvent::ProtectFailed(error) => CaptureEventView::ProtectFailed(error@),
            CaptureEvent::Removed(error) => CaptureEventView::Removed(error@),
        }
    }
}

/// What the beginning of a capture needs next, or what came of it: a guard, or
/// none where another capture is under way.
#[derive(Debug)]
pub enum CaptureStep {
    Ask(StateRequest),
    Finished(Result<Option<CaptureGuard>, Error>),
}

pub ghost enum CaptureStepView {
    Ask(RequestView),
    Finished(Result<Option<Seq<u8>>, ErrorView>),
}

impl View for CaptureStep {
    type V = CaptureStepView;

    open spec fn view(&self) -> CaptureStepView {
        match self {
            CaptureStep::Ask(request) => CaptureStepView::Ask(request@),
            CaptureStep::Finished(Ok(guard)) => CaptureStepView::Finished(Ok(option_view(*guard))),
            CaptureStep::Finished(Err(error)) => CaptureStepView::Finished(Err(error@)),
        }
    }
}

pub open spec fn capture_step(marker: Seq<u8>, event: CaptureEventView) -> CaptureStepView {
    match event {
        CaptureEventView::Start => CaptureStepView::Ask(RequestView::Create(marker)),
        CaptureEventView::Created => CaptureStepView::Ask(RequestView::WriteOwner(marker)),
        CaptureEventView::AlreadyExists => CaptureStepView::Finished(Ok(None)),
        CaptureEventView::CreateFailed(error) => CaptureStepView::Finished(Err(error)),
        CaptureEventView::OwnerWritten => CaptureStepView::Ask(RequestView::Protect(marker)),
        CaptureEventView::WriteFailed(error) => CaptureStepView::Finished(Err(error)),
        CaptureEventView::Protected => CaptureStepView::Finished(Ok(Some(marker))),
        CaptureEventView::ProtectFailed(_) => CaptureStepView::Ask(
            RequestView::RemoveAll(seq![marker]),
        ),
        CaptureEventView::Removed(error) => CaptureStepView::Finished(Err(error)),
    }
}

/// Whether a capture is under way: the file to look for, or the answer.
#[derive(Debug, PartialEq, Eq)]
pub enum Lookup {
    Look(Vec<u8>),
    Known(bool),
}

pub ghost enum LookupView {
    Look(Seq<u8>),
    Known(bool),
}

impl View for Lookup {
    type V = LookupView;

    open spec fn view(&self) -> LookupView {
        match self {
            Lookup::Look(path) => LookupView::Look(path@),
            Lookup::Known(found) => LookupView::Known(*found),
        }
    }
}

pub open spec fn capturing_step(marker: Seq<u8>, found: Option<bool>) -> LookupView {
    match found {
        None => LookupView::Look(marker),
        Some(found) => LookupView::Known(found),
    }
}

pub open spec fn write_blob_step(
    root: Seq<u8>,
    bytes: Seq<u8>,
    found: Option<bool>,
    written: Option<Result<(), ErrorView>>,
) -> StepView<Seq<char>> {
    let name = blob_name(bytes);
    match found {
        None => StepView::Ask(RequestView::Exists(blob_file(root, name))),
        Some(true) => StepView::Finished(Ok(name)),
        Some(false) => match written {
            None => StepView::Ask(RequestView::Write(blob_file(root, name))),
            Some(Ok(())) => StepView::Finished(Ok(name)),
            Some(Err(error)) => StepView::Finished(Err(error)),
        },
    }
}

pub open spec fn read_blob_step(
    root: Seq<u8>,
    name: Seq<char>,
    read: Option<Result<Seq<u8>, ErrorView>>,
) -> StepView<Seq<u8>> {
    if !is_blob_name(name) {
        StepView::Finished(Err(ErrorView::Message("invalid blob hash"@)))
    } else {
        match read {
            None => StepView::Ask(
                RequestView::ReadPrefix(blob_file(root, name), (INLINE_TEXT_LIMIT + 1) as u64),
            ),
            Some(Err(error)) => StepView::Finished(Err(error)),
            Some(Ok(bytes)) => if bytes.len() > INLINE_TEXT_LIMIT {
                StepView::Finished(Err(ErrorView::Message("blob exceeds inline limit"@)))
            } else {
                StepView::Finished(Ok(bytes))
            },
        }
    }
}

pub open spec fn commit_step(
    root: Seq<u8>,
    manifest: ManifestView,
    written: Option<Result<(), ErrorView>>,
    collected: Option<Result<(), ErrorView>>,
) -> StepView<()> {
    if manifest.version != MANIFEST_VERSION {
        StepView::Finished(Err(ErrorView::Message("unsupported manifest version"@)))
    } else {
        match written {
            None => StepView::Ask(RequestView::Write(manifest_file(root, manifest.pane_id))),
            Some(Err(error)) => StepView::Finished(Err(error)),
            Some(Ok(())) => match collected {
                None => StepView::Ask(RequestView::CollectBlobs),
                Some(result) => StepView::Finished(result),
            },
        }
    }
}

/// What reading a file gave.
#[derive(Debug)]
pub enum FileRead<T> {
    Missing,
    Failed(Error),
    Found(T),
}

pub ghost enum FileReadView<V> {
    Missing,
    Failed(ErrorView),
    Found(V),
}

impl<T: View> View for FileRead<T> {
    type V = FileReadView<T::V>;

    open spec fn view(&self) -> FileReadView<T::V> {
        match self {
            FileRead::Missing => FileReadView::Missing,
            FileRead::Failed(error) => FileReadView::Failed(error@),
            FileRead::Found(value) => FileReadView::Found(value@),
        }
    }
}

/// What loading a file needs next, or what it holds where there is one.
#[derive(Debug)]
pub enum LoadStep<T> {
    Ask(StateRequest),
    Finished(Result<Option<T>, Error>),
}

pub ghost enum LoadStepView<V> {
    Ask(RequestView),
    Finished(Result<Option<V>, ErrorView>),
}

impl<T: View> View for LoadStep<T> {
    type V = LoadStepView<T::V>;

    open spec fn view(&self) -> LoadStepView<T::V> {
        match self {
            LoadStep::Ask(request) => LoadStepView::Ask(request@),
            LoadStep::Finished(Ok(value)) => LoadStepView::Finished(Ok(option_view(*value))),
            LoadStep::Finished(Err(error)) => LoadStepView::Finished(Err(error@)),
        }
    }
}

pub open spec fn version_message(version: u32) -> Seq<char> {
    "manifest version "@ + decimal(version as nat) + " is not supported"@
}

pub open spec fn load_manifest_step(
    root: Seq<u8>,
    pane: Seq<char>,
    read: Option<FileReadView<ManifestView>>,
) -> LoadStepView<ManifestView> {
    match read {
        None => LoadStepView::Ask(RequestView::Read(manifest_file(root, pane))),
        Some(FileReadView::Missing) => LoadStepView::Finished(Ok(None)),
        Some(FileReadView::Failed(error)) => LoadStepView::Finished(Err(error)),
        Some(FileReadView::Found(manifest)) => if manifest.version != MANIFEST_VERSION {
            LoadStepView::Finished(Err(ErrorView::Message(version_message(manifest.version))))
        } else {
            LoadStepView::Finished(Ok(Some(manifest)))
        },
    }
}

pub open spec fn load_mapping_step(
    root: Seq<u8>,
    target: Seq<char>,
    placement: ViewerPlacement,
    read: Option<FileReadView<MappingView>>,
) -> LoadStepView<MappingView> {
    match read {
        None => LoadStepView::Ask(RequestView::Read(viewer_file(root, target, placement))),
        Some(FileReadView::Missing) => LoadStepView::Finished(Ok(None)),
        Some(FileReadView::Failed(error)) => LoadStepView::Finished(Err(error)),
        Some(FileReadView::Found(mapping)) => LoadStepView::Finished(Ok(Some(mapping))),
    }
}

impl StateStore {
    /// Begins a capture for a pane by making its marker.
    pub fn begin_capture(&self, pane_id: &str, event: CaptureEvent) -> (step: CaptureStep)
        ensures
            step@ == capture_step(marker_file(self@, pane_id@), event@),
    {
        broadcast use group_views;

        let path = self.marker_path(pane_id);
        match event {
            CaptureEvent::Start => CaptureStep::Ask(StateRequest::Create(path)),
            CaptureEvent::Created => CaptureStep::Ask(StateRequest::WriteOwner(path)),
            CaptureEvent::AlreadyExists => CaptureStep::Finished(Ok(None)),
            CaptureEvent::CreateFailed(error) => CaptureStep::Finished(Err(error)),
            CaptureEvent::OwnerWritten => CaptureStep::Ask(StateRequest::Protect(path)),
            CaptureEvent::WriteFailed(error) => CaptureStep::Finished(Err(error)),
            CaptureEvent::Protected => CaptureStep::Finished(Ok(Some(CaptureGuard { path }))),
            CaptureEvent::ProtectFailed(_) => {
                let mut paths: Vec<Vec<u8>> = Vec::new();
                paths.push(path);
                CaptureStep::Ask(StateRequest::RemoveAll(paths))
            },
            CaptureEvent::Removed(error) => CaptureStep::Finished(Err(error)),
        }
    }

    /// Whether a capture for the pane is under way.
    pub fn capturing(&self, pane_id: &str, found: Option<bool>) -> (lookup: Lookup)
        ensures
            lookup@ == capturing_step(marker_file(self@, pane_id@), found),
    {
        match found {
            None => Lookup::Look(self.marker_path(pane_id)),
            Some(found) => Lookup::Known(found),
        }
    }

    /// Keeps bytes as a blob, unless they are kept already, and names it.
    pub fn write_blob(
        &self,
        bytes: &[u8],
        found: Option<bool>,
        written: Option<Result<(), Error>>,
    ) -> (step: Step<String>)
        ensures
            step@ == write_blob_step(self@, bytes@, found, reply_view(written)),
            is_blob_name(blob_name(bytes@)),
    {
        let name = hex_digest(bytes);
        match found {
            None => Step::Ask(StateRequest::Exists(self.blob_path(name.as_str()))),
            Some(true) => Step::Finished(Ok(name)),
            Some(false) => match written {
                None => Step::Ask(StateRequest::Write(self.blob_path(name.as_str()))),
                Some(Ok(())) => Step::Finished(Ok(name)),
                Some(Err(error)) => Step::Finished(Err(error)),
            },
        }
    }

    /// The bytes of a blob.
    pub fn read_blob(&self, hash: &str, read: Option<Result<Vec<u8>, Error>>) -> (step: Step<
        Vec<u8>,
    >)
        ensures
            step@ == read_blob_step(self@, hash@, reply_view(read)),
    {
        if !is_blob_hash(hash) {
            return Step::Finished(Err(Error::message("invalid blob hash")));
        }
        match read {
            None => Step::Ask(
                StateRequest::ReadPrefix(self.blob_path(hash), INLINE_TEXT_LIMIT + 1),
            ),
            Some(Err(error)) => Step::Finished(Err(error)),
            Some(Ok(bytes)) => {
                if bytes.len() as u64 > INLINE_TEXT_LIMIT {
                    Step::Finished(Err(Error::message("blob exceeds inline limit")))
                } else {
                    Step::Finished(Ok(bytes))
                }
            },
        }
    }

    /// Keeps a manifest, and then only the blobs that manifests refer to.
    pub fn commit_manifest(
        &self,
        manifest: &Manifest,
        written: Option<Result<(), Error>>,
        collected: Option<Result<(), Error>>,
    ) -> (step: Step<()>)
        ensures
            step@ == commit_step(self@, manifest@, reply_view(written), reply_view(collected)),
    {
        if manifest.version != MANIFEST_VERSION {
            return Step::Finished(Err(Error::message("unsupported manifest version")));
        }
        match written {
            None => Step::Ask(StateRequest::Write(self.manifest_path(manifest.pane_id.as_str()))),
            Some(Err(error)) => Step::Finished(Err(error)),
            Some(Ok(())) => match collected {
                None => Step::Ask(StateRequest::CollectBlobs),
                Some(result) => Step::Finished(result),
            },
        }
    }

    /// The manifest kept for a pane.
    pub fn load_manifest(&self, pane_id: &str, read: Option<FileRead<Manifest>>) -> (step: LoadStep<
        Manifest,
    >)
        ensures
            step@ == load_manifest_step(self@, pane_id@, option_view(read)),
    {
        match read {
            None => LoadStep::Ask(StateRequest::Read(self.manifest_path(pane_id))),
            Some(FileRead::Missing) => LoadStep::Finished(Ok(None)),
            Some(FileRead::Failed(error)) => LoadStep::Finished(Err(error)),
            Some(FileRead::Found(manifest)) => {
                if manifest.version != MANIFEST_VERSION {
                    let version = decimal_text(manifest.version as u64);
                    let text = join3("manifest version ", version.as_str(), " is not supported");
                    LoadStep::Finished(Err(Error::Message(text)))
                } else {
                    LoadStep::Finished(Ok(Some(manifest)))
                }
            },
        }
    }

    /// The file that keeps the mapping of a viewer in a split.
    pub fn set_viewer_mapping(&self, mapping: &ViewerMapping) -> (path: Vec<u8>)
        ensures
            path@ == viewer_file(self@, mapping@.target_pane_id, ViewerPlacement::Split),
    {
        self.set_viewer_mapping_for(mapping, ViewerPlacement::Split)
    }

    /// The file that keeps the mapping.
    pub fn set_viewer_mapping_for(
        &self,
        mapping: &ViewerMapping,
        placement: ViewerPlacement,
    ) -> (path: Vec<u8>)
        ensures
            path@ == viewer_file(self@, mapping@.target_pane_id, placement),
    {
        self.viewer_path(mapping.target_pane_id.as_str(), placement)
    }

    /// The mapping kept for a pane's viewer in a split.
    pub fn viewer_mapping(
        &self,
        target_pane_id: &str,
        read: Option<FileRead<ViewerMapping>>,
    ) -> (step: LoadStep<ViewerMapping>)
        ensures
            step@ == load_mapping_step(
                self@,
                target_pane_id@,
                ViewerPlacement::Split,
                option_view(read),
            ),
    {
        self.viewer_mapping_for(target_pane_id, ViewerPlacement::Split, read)
    }

    /// The mapping kept for a pane's viewer.
    pub fn viewer_mapping_for(
        &self,
        target_pane_id: &str,
        placement: ViewerPlacement,
        read: Option<FileRead<ViewerMapping>>,
    ) -> (step: LoadStep<ViewerMapping>)
        ensures
            step@ == load_mapping_step(self@, target_pane_id@, placement, option_view(read)),
    {
        match read {
            None => LoadStep::Ask(StateRequest::Read(self.viewer_path(target_pane_id, placement))),
            Some(FileRead::Missing) => LoadStep::Finished(Ok(None)),
            Some(FileRead::Failed(error)) => LoadStep::Finished(Err(error)),
            Some(FileRead::Found(mapping)) => LoadStep::Finished(Ok(Some(mapping))),
        }
    }

    /// The file to remove so that a pane has no mapping to a viewer in a split.
    pub fn remove_viewer_mapping(&self, target_pane_id: &str) -> (path: Vec<u8>)
        ensures
            path@ == viewer_file(self@, target_pane_id@, ViewerPlacement::Split),
    {
        self.remove_viewer_mapping_for(target_pane_id, ViewerPlacement::Split)
    }

    /// The file to remove so that a pane has no mapping.
    pub fn remove_viewer_mapping_for(
        &self,
        target_pane_id: &str,
        placement: ViewerPlacement,
    ) -> (path: Vec<u8>)
        ensures
            path@ == viewer_file(self@, target_pane_id@, placement),
    {
        self.viewer_path(target_pane_id, placement)
    }
}

/// A file among the viewer mappings, with the mapping it holds if it holds one.
#[derive(Debug)]
pub struct StoredMapping {
    pub path: Vec<u8>,
    pub mapping: Option<ViewerMapping>,
}

impl View for StoredMapping {
    type V = (Seq<u8>, Option<MappingView>);

    open spec fn view(&self) -> (Seq<u8>, Option<MappingView>) {
        (self.path@, option_view(self.mapping))
    }
}

pub open spec fn shows_in(stored: (Seq<u8>, Option<MappingView>), viewer: Seq<char>) -> bool {
    stored.1 matches Some(mapping) && mapping.viewer_pane_id == viewer
}

/// The files whose mapping names the viewer.
pub open spec fn files_of_viewer(
    stored: Seq<(Seq<u8>, Option<MappingView>)>,
    viewer: Seq<char>,
) -> Seq<Seq<u8>>
    decreases stored.len(),
{
    if stored.len() == 0 {
        Seq::empty()
    } else {
        let rest = files_of_viewer(stored.drop_last(), viewer);
        if shows_in(stored.last(), viewer) {
            rest.push(stored.last().0)
        } else {
            rest
        }
    }
}

/// The files that are a pane's own.
pub open spec fn own_files(root: Seq<u8>, pane: Seq<char>) -> Seq<Seq<u8>> {
    seq![
        manifest_file(root, pane),
        marker_file(root, pane),
        viewer_file(root, pane, ViewerPlacement::Split),
        viewer_file(root, pane, ViewerPlacement::Tab),
    ]
}

/// What has come of removing a pane so far.
#[derive(Debug)]
pub struct PaneRemoval {
    pub own_removed: Option<Result<(), Error>>,
    pub mappings: Option<Result<Vec<StoredMapping>, Error>>,
    pub mappings_removed: Option<Result<(), Error>>,
    pub collected: Option<Result<(), Error>>,
}

pub ghost struct PaneRemovalView {
    pub own_removed: Option<Result<(), ErrorView>>,
    pub mappings: Option<Result<Seq<(Seq<u8>, Option<MappingView>)>, ErrorView>>,
    pub mappings_removed: Option<Result<(), ErrorView>>,
    pub collected: Option<Result<(), ErrorView>>,
}

/// What a result of a list holds, by the views of the items.
pub open spec fn list_reply_view<T: View>(reply: Option<Result<Vec<T>, Error>>) -> Option<
    Result<Seq<T::V>, ErrorView>,
> {
    match reply {
        Some(Ok(items)) => Some(Ok(views(items@))),
        Some(Err(error)) => Some(Err(error@)),
        None => None,
    }
}

impl View for PaneRemoval {
    type V = PaneRemovalView;

    open spec fn view(&self) -> PaneRemovalView {
        PaneRemovalView {
            own_removed: reply_view(self.own_removed),
            mappings: list_reply_view(self.mappings),
            mappings_removed: reply_view(self.mappings_removed),
            collected: reply_view(self.collected),
        }
    }
}

pub open spec fn remove_pane_step(
    root: Seq<u8>,
    pane: Seq<char>,
    done: PaneRemovalView,
) -> StepView<()> {
    match done.own_removed {
        None => StepView::Ask(RequestView::RemoveAll(own_files(root, pane))),
        Some(Err(error)) => StepView::Finished(Err(error)),
        Some(Ok(())) => match done.mappings {
            None => StepView::Ask(RequestView::ReadMappings(state_directory(root, "viewers"@))),
            Some(Err(error)) => StepView::Finished(Err(error)),
            Some(Ok(stored)) => match done.mappings_removed {
                None => StepView::Ask(RequestView::RemoveAll(files_of_viewer(stored, pane))),
                Some(Err(error)) => StepView::Finished(Err(error)),
                Some(Ok(())) => match done.collected {
                    None => StepView::Ask(RequestView::CollectBlobs),
                    Some(result) => StepView::Finished(result),
                },
            },
        },
    }
}

/// Whether one of the manifests refers to the blob.
pub open spec fn refers(manifest: ManifestView, name: Seq<char>) -> bool {
    exists|i: int|
        0 <= i < manifest.files.len() && (#[trigger] manifest.files[i]).1.blob == Some(name)
}

pub open spec fn referenced(manifests: Seq<Option<ManifestView>>, name: Seq<char>) -> bool {
    exists|i: int|
        0 <= i < manifests.len() && (#[trigger] manifests[i] matches Some(manifest) && refers(
            manifest,
            name,
        ))
}

/// The files of the blobs that no manifest refers to.
pub open spec fn unreferenced_files(
    directory: Seq<u8>,
    manifests: Seq<Option<ManifestView>>,
    names: Seq<Seq<u8>>,
) -> Seq<Seq<u8>>
    decreases names.len(),
{
    if names.len() == 0 {
        Seq::empty()
    } else {
        let rest = unreferenced_files(directory, manifests, names.drop_last());
        if referenced(manifests, lossy(names.last())) {
            rest
        } else {
            rest.push(joined(directory, names.last()))
        }
    }
}

/// What has come of collecting blobs so far. A manifest that cannot be read is
/// listed as `None`.
#[derive(Debug)]
pub struct Collection {
    pub markers: Option<Result<bool, Error>>,
    pub manifests: Option<Result<Vec<Option<Manifest>>, Error>>,
    pub blobs: Option<Result<Vec<Vec<u8>>, Error>>,
    pub removed: Option<Result<(), Error>>,
}

pub ghost struct CollectionView {
    pub markers: Option<Result<bool, ErrorView>>,
    pub manifests: Option<Result<Seq<Option<ManifestView>>, ErrorView>>,
    pub blobs: Option<Result<Seq<Seq<u8>>, ErrorView>>,
    pub removed: Option<Result<(), ErrorView>>,
}

pub open spec fn option_views<T: View>(items: Seq<Option<T>>) -> Seq<Option<T::V>> {
    Seq::new(items.len(), |i: int| option_view(items[i]))
}

impl View for Collection {
    type V = CollectionView;

    open spec fn view(&self) -> CollectionView {
        CollectionView {
            markers: reply_view(self.markers),
            manifests: match self.manifests {
                Some(Ok(items)) => Some(Ok(option_views(items@))),
                Some(Err(error)) => Some(Err(error@)),
                None => None,
            },
            blobs: list_reply_view(self.blobs),
            removed: reply_view(self.removed),
        }
    }
}

pub open spec fn all_readable(manifests: Seq<Option<ManifestView>>) -> bool {
    forall|i: int| 0 <= i < manifests.len() ==> #[trigger] manifests[i] is Some
}

pub open spec fn collect_step(root: Seq<u8>, done: CollectionView) -> StepView<()> {
    let directory = state_directory(root, "blobs"@);
    match done.markers {
        None => StepView::Ask(RequestView::AnyEntry(state_directory(root, "markers"@))),
        Some(Err(error)) => StepView::Finished(Err(error)),
        Some(Ok(true)) => StepView::Finished(Ok(())),
        Some(Ok(false)) => match done.manifests {
            None => StepView::Ask(RequestView::ReadManifests(state_directory(root, "manifests"@))),
            Some(Err(error)) => StepView::Finished(Err(error)),
            Some(Ok(manifests)) => if !all_readable(manifests) {
                StepView::Finished(Ok(()))
            } else {
                match done.blobs {
                    None => StepView::Ask(RequestView::List(directory)),
                    Some(Err(error)) => StepView::Finished(Err(error)),
                    Some(Ok(names)) => match done.removed {
                        None => StepView::Ask(
                            RequestView::RemoveAll(unreferenced_files(directory, manifests, names)),
                        ),
                        Some(result) => StepView::Finished(result),
                    },
                }
            },
        },
    }
}

fn same_result(result: &Result<(), Error>) -> (copy: Result<(), Error>)
    ensures
        result_view(copy) == result_view(*result),
{
    match result {
        Ok(()) => Ok(()),
        Err(error) => Err(error.clone()),
    }
}

fn is_referenced(manifests: &Vec<Option<Manifest>>, name: &str) -> (found: bool)
    ensures
        found == referenced(option_views(manifests@), name@),
{
    let ghost all = option_views(manifests@);
    let mut i: usize = 0;
    while i < manifests.len()
        invariant
            i <= manifests@.len(),
            all == option_views(manifests@),
            forall|j: int|
                0 <= j < i ==> !(#[trigger] all[j] matches Some(manifest) && refers(
                    manifest,
                    name@,
                )),
        decreases manifests@.len() - i,
    {
        if let Some(manifest) = &manifests[i] {
            let ghost files = manifest@.files;
            let mut k: usize = 0;
            proof {
                assert(all[i as int] == Some(manifest@));
            }
            while k < manifest.files.len()
                invariant
                    i < manifests@.len(),
                    k <= manifest.files@.len(),
                    all == option_views(manifests@),
                    all[i as int] == Some(manifest@),
                    files == manifest@.files,
                    forall|j: int| 0 <= j < k ==> (#[trigger] files[j]).1.blob != Some(name@),
                decreases manifest.files@.len() - k,
            {
                if let Some(blob) = &manifest.files[k].1.blob {
                    if same_text(blob.as_str(), name) {
                        proof {
                            assert(files[k as int].1.blob == Some(name@));
                            assert(refers(manifest@, name@));
                        }
                        return true;
                    }
                }
                proof {
                    assert(files[k as int].1.blob != Some(name@));
                }
                k += 1;
            }
            proof {
                assert(!refers(manifest@, name@));
            }
        }
        i += 1;
    }
    false
}

impl StateStore {
    /// The files whose mapping names the viewer.
    fn remove_mappings_for_viewer(
        &self,
        viewer_pane_id: &str,
        stored: &Vec<StoredMapping>,
    ) -> (paths: Vec<Vec<u8>>)
        ensures
            views(paths@) == files_of_viewer(views(stored@), viewer_pane_id@),
    {
        broadcast use group_views;

        let ghost all = views(stored@);
        let mut paths: Vec<Vec<u8>> = Vec::new();
        let mut i: usize = 0;
        proof {
            assert(all.take(0) =~= Seq::empty());
        }
        while i < stored.len()
            invariant
                i <= stored@.len(),
                all == views(stored@),
                views(paths@) == files_of_viewer(all.take(i as int), viewer_pane_id@),
            decreases stored@.len() - i,
        {
            proof {
                assert(all.take(i + 1).drop_last() =~= all.take(i as int));
                assert(all.take(i + 1).last() == all[i as int]);
            }
            if let Some(mapping) = &stored[i].mapping {
                if same_text(mapping.viewer_pane_id.as_str(), viewer_pane_id) {
                    let path = copy_bytes(&stored[i].path, 0, stored[i].path.len());
                    proof {
                        assert(path@ =~= stored[i as int].path@);
                    }
                    paths.push(path);
                }
            }
            i += 1;
        }
        proof {
            assert(all.take(i as int) =~= all);
        }
        paths
    }

    /// Removes all that is kept for a pane and for viewers in it.
    pub fn remove_pane(&self, pane_id: &str, done: &PaneRemoval) -> (step: Step<()>)
        ensures
            step@ == remove_pane_step(self@, pane_id@, done@),
    {
        broadcast use group_views;

        match &done.own_removed {
            None => {
                let mut paths: Vec<Vec<u8>> = Vec::new();
                paths.push(self.manifest_path(pane_id));
                paths.push(self.marker_path(pane_id));
                paths.push(self.viewer_path(pane_id, ViewerPlacement::Split));
                paths.push(self.viewer_path(pane_id, ViewerPlacement::Tab));
                proof {
                    assert(views(paths@) =~= own_files(self@, pane_id@));
                }
                return Step::Ask(StateRequest::RemoveAll(paths));
            },
            Some(Err(error)) => {
                return Step::Finished(Err(error.clone()));
            },
            Some(Ok(())) => {},
        }
        let stored = match &done.mappings {
            None => {
                return Step::Ask(StateRequest::ReadMappings(self.directory("viewers")));
            },
            Some(Err(error)) => {
                return Step::Finished(Err(error.clone()));
            },
            Some(Ok(stored)) => stored,
        };
        match &done.mappings_removed {
            None => {
                return Step::Ask(
                    StateRequest::RemoveAll(self.remove_mappings_for_viewer(pane_id, stored)),
                );
            },
            Some(Err(error)) => {
                return Step::Finished(Err(error.clone()));
            },
            Some(Ok(())) => {},
        }
        match &done.collected {
            None => Step::Ask(StateRequest::CollectBlobs),
            Some(result) => Step::Finished(same_result(result)),
        }
    }

    fn unreferenced(&self, manifests: &Vec<Option<Manifest>>, names: &Vec<Vec<u8>>) -> (paths: Vec<
        Vec<u8>,
    >)
        ensures
            views(paths@) == unreferenced_files(
                state_directory(self@, "blobs"@),
                option_views(manifests@),
                views(names@),
            ),
    {
        broadcast use group_views;

        let directory = self.directory("blobs");
        let ghost all = views(names@);
        let mut paths: Vec<Vec<u8>> = Vec::new();
        let mut i: usize = 0;
        proof {
            assert(all.take(0) =~= Seq::empty());
        }
        while i < names.len()
            invariant
                i <= names@.len(),
                all == views(names@),
                directory@ == state_directory(self@, "blobs"@),
                views(paths@) == unreferenced_files(
                    directory@,
                    option_views(manifests@),
                    all.take(i as int),
                ),
            decreases names@.len() - i,
        {
            proof {
                assert(all.take(i + 1).drop_last() =~= all.take(i as int));
                assert(all.take(i + 1).last() == all[i as int]);
            }
            let name = lossy_text(&names[i]);
            if !is_referenced(manifests, name.as_str()) {
                paths.push(join(&directory, &names[i]));
            }
            i += 1;
        }
        proof {
            assert(all.take(i as int) =~= all);
        }
        paths
    }

    /// Removes the blobs that no manifest refers to, unless a capture is under
    /// way or a manifest cannot be read.
    pub fn gc_blobs(&self, done: &Collection) -> (step: Step<()>)
        ensures
            step@ == collect_step(self@, done@),
    {
        match &done.markers {
            None => {
                return Step::Ask(StateRequest::AnyEntry(self.directory("markers")));
            },
            Some(Err(error)) => {
                return Step::Finished(Err(error.clone()));
            },
            Some(Ok(any)) => {
                if *any {
                    return Step::Finished(Ok(()));
                }
            },
        }
        let manifests = match &done.manifests {
            None => {
                return Step::Ask(StateRequest::ReadManifests(self.directory("manifests")));
            },
            Some(Err(error)) => {
                return Step::Finished(Err(error.clone()));
            },
            Some(Ok(manifests)) => manifests,
        };
        let ghost seen = option_views(manifests@);
        let mut i: usize = 0;
        while i < manifests.len()
            invariant
                i <= manifests@.len(),
                seen == option_views(manifests@),
                done@.markers == Some(Ok::<bool, ErrorView>(false)),
                done@.manifests == Some(Ok::<Seq<Option<ManifestView>>, ErrorView>(seen)),
                forall|j: int| 0 <= j < i ==> #[trigger] seen[j] is Some,
            decreases manifests@.len() - i,
        {
            if manifests[i].is_none() {
                proof {
                    assert(seen[i as int] is None);
                }
                return Step::Finished(Ok(()));
            }
            i += 1;
        }
        let names = match &done.blobs {
            None => {
                return Step::Ask(StateRequest::List(self.directory("blobs")));
            },
            Some(Err(error)) => {
                return Step::Finished(Err(error.clone()));
            },
            Some(Ok(names)) => names,
        };
        match &done.removed {
            None => Step::Ask(StateRequest::RemoveAll(self.unreferenced(manifests, names))),
            Some(result) => Step::Finished(same_result(result)),
        }
    }
}

/// What a directory entry is, itself and not what a link leads to.
#[derive(Clone, Copy, Debug, PartialEq, Eq, Structural)]
pub enum EntryKind {
    Symlink,
    Directory,
    File,
}

/// What is done to a part of the state so that it is private.
#[derive(Clone, Copy, Debug, PartialEq, Eq, Structural)]
pub enum Hardening {
    /// Make the directory private, and harden what is in it.
    Directory,
    /// Make the file private.
    File,
}

pub open spec fn hardening(top: bool, kind: EntryKind, path: Seq<u8>) -> Result<
    Hardening,
    ErrorView,
> {
    match kind {
        EntryKind::Symlink => Err(
            ErrorView::Message(
                (if top {
                    "state path must not be a symlink: "@
                } else {
                    "state path must not contain symlinks: "@
                }) + lossy(path),
            ),
        ),
        EntryKind::Directory => Ok(Hardening::Directory),
        EntryKind::File => if top {
            Err(ErrorView::Message("state path is not a directory: "@ + lossy(path)))
        } else {
            Ok(Hardening::File)
        },
    }
}

/// What is done to a part of the state, the top of a tree or something in it. A
/// link is refused.
pub fn harden_state_tree(top: bool, kind: EntryKind, path: &[u8]) -> (result: Result<
    Hardening,
    Error,
>)
    ensures
        (match result {
            Ok(action) => Ok(action),
            Err(error) => Err(error@),
        }) == hardening(top, kind, path@),
{
    let shown = lossy_text(path);
    match kind {
        EntryKind::Symlink => {
            let mut text = if top {
                "state path must not be a symlink: ".to_owned()
            } else {
                "state path must not contain symlinks: ".to_owned()
            };
            text.append(shown.as_str());
            Err(Error::Message(text))
        },
        EntryKind::Directory => Ok(Hardening::Directory),
        EntryKind::File => {
            if top {
                let mut text = "state path is not a directory: ".to_owned();
                text.append(shown.as_str());
                Err(Error::Message(text))
            } else {
                Ok(Hardening::File)
            }
        },
    }
}

/// A character that can stand in the name of a file of the state.
pub open spec fn file_char(c: char) -> bool {
    key_char(c) || c == '.'
}

/// Text made of such characters, with more than a dot or two.
pub open spec fn file_text(name: Seq<char>) -> bool {
    name.len() > 2 && forall|i: int| 0 <= i < name.len() ==> file_char(#[trigger] name[i])
}

proof fn lemma_file_text(name: Seq<char>)
    requires
        file_text(name),
    ensures
        plain_name(encode_utf8(name)),
        encode_utf8(name).len() == name.len(),
        forall|i: int| 0 <= i < name.len() ==> encode_utf8(name)[i] == #[trigger] name[i] as u8,
{
    assert(vstd::utf8::is_ascii_chars(name)) by {
        assert forall|i: int| 0 <= i < name.len() implies '\0' <= #[trigger] name[i]
            <= '\u{7f}' by {
            assert(file_char(name[i]));
        }
    }
    vstd::utf8::is_ascii_chars_encode_utf8(name);
    let bytes = encode_utf8(name);
    assert forall|i: int| 0 <= i < bytes.len() implies bytes[i] != SEPARATOR by {
        assert(file_char(name[i]));
        assert(bytes[i] == name[i] as u8);
    }
    assert(seq![DOT].len() == 1);
    assert(seq![DOT, DOT].len() == 2);
}

proof fn lemma_state_file(root: Seq<u8>, directory: Seq<char>, name: Seq<char>)
    requires
        file_text(directory),
        file_text(name),
    ensures
        components(state_file(root, directory, name)) == components(root).push(
            ComponentView::Normal(encode_utf8(directory)),
        ).push(ComponentView::Normal(encode_utf8(name))),
        directly_in(root, directory, state_file(root, directory, name)),
{
    lemma_file_text(directory);
    lemma_file_text(name);
    lemma_joined_name(root, encode_utf8(directory));
    lemma_joined_name(state_directory(root, directory), encode_utf8(name));
    assert(components(state_file(root, directory, name)).drop_last() =~= components(root).push(
        ComponentView::Normal(encode_utf8(directory)),
    ));
}

proof fn lemma_pane_file_name(pane: Seq<char>, suffix: Seq<char>)
    requires
        file_text(suffix),
    ensures
        file_text(pane_file_key(pane) + suffix),
{
    let name = pane_file_key(pane) + suffix;
    assert forall|i: int| 0 <= i < name.len() implies file_char(#[trigger] name[i]) by {
        if i < pane.len() {
            assert(name[i] == pane_file_key(pane)[i]);
        } else {
            assert(name[i] == suffix[i - pane.len()]);
        }
    }
}

/// Whether the path is that of a file in the directory of the state.
pub open spec fn directly_in(root: Seq<u8>, directory: Seq<char>, path: Seq<u8>) -> bool {
    &&& components(path).len() == components(root).len() + 2
    &&& components(path).drop_last() == components(root).push(
        ComponentView::Normal(encode_utf8(directory)),
    )
    &&& components(path).last() is Normal
}

/// Whatever a pane is called, its files stand in the directories of the state
/// that are meant for them; so does a blob under any name that is accepted.
pub proof fn law_state_files_stay_inside(root: Seq<u8>, pane: Seq<char>, name: Seq<char>)
    ensures
        directly_in(root, "manifests"@, manifest_file(root, pane)),
        directly_in(root, "markers"@, marker_file(root, pane)),
        directly_in(root, "viewers"@, viewer_file(root, pane, ViewerPlacement::Split)),
        directly_in(root, "viewers"@, viewer_file(root, pane, ViewerPlacement::Tab)),
        is_blob_name(name) ==> directly_in(root, "blobs"@, blob_file(root, name)),
{
    reveal_strlit("manifests");
    reveal_strlit("markers");
    reveal_strlit("viewers");
    reveal_strlit("blobs");
    reveal_strlit(".json");
    reveal_strlit(".capture");
    reveal_strlit(".tab");
    reveal_strlit("");
    lemma_pane_file_name(pane, ".json"@);
    lemma_pane_file_name(pane, ".capture"@);
    assert(file_text(".tab"@ + ".json"@));
    lemma_pane_file_name(pane, ".tab"@ + ".json"@);
    let key = pane_file_key(pane);
    assert(key + ".tab"@ + ".json"@ =~= key + (".tab"@ + ".json"@));
    assert(key + ""@ + ".json"@ =~= key + ".json"@);
    lemma_state_file(root, "manifests"@, key + ".json"@);
    lemma_state_file(root, "markers"@, key + ".capture"@);
    lemma_state_file(root, "viewers"@, key + ".json"@);
    lemma_state_file(root, "viewers"@, key + ".tab"@ + ".json"@);
    if is_blob_name(name) {
        assert forall|i: int| 0 <= i < name.len() implies file_char(#[trigger] name[i]) by {
            assert(is_hex_digit(name[i]));
        }
        lemma_state_file(root, "blobs"@, name);
    }
}

/// The key of a pane has a letter for each of the pane's, a letter that is kept
/// or an underscore, never one that parts the names of a path; and the key of a
/// key is that key.
pub proof fn law_pane_keys_are_fixed(pane: Seq<char>)
    ensures
        pane_file_key(pane_file_key(pane)) == pane_file_key(pane),
        pane_file_key(pane).len() == pane.len(),
        forall|i: int|
            0 <= i < pane.len() ==> {
                let c = #[trigger] pane_file_key(pane)[i];
                &&& key_char(c)
                &&& c == pane[i] || (c == '_' && !key_char(pane[i]))
                &&& c != '/'
                &&& c != '.'
            },
{
    assert(pane_file_key(pane_file_key(pane)) =~= pane_file_key(pane));
}

/// The mapping of a viewer in a split and that of a viewer in a tab are kept
/// apart, whatever the panes are called.
pub proof fn law_placements_are_kept_apart(root: Seq<u8>, a: Seq<char>, b: Seq<char>)
    ensures
        components(viewer_file(root, a, ViewerPlacement::Split)) != components(
            viewer_file(root, b, ViewerPlacement::Tab),
        ),
{
    reveal_strlit("viewers");
    reveal_strlit(".json");
    reveal_strlit(".tab");
    reveal_strlit("");
    let split_name = pane_file_key(a) + ""@ + ".json"@;
    let tab_name = pane_file_key(b) + ".tab"@ + ".json"@;
    assert(split_name =~= pane_file_key(a) + ".json"@);
    assert(tab_name =~= pane_file_key(b) + (".tab"@ + ".json"@));
    assert(file_text(".tab"@ + ".json"@));
    lemma_pane_file_name(a, ".json"@);
    lemma_pane_file_name(b, ".tab"@ + ".json"@);
    lemma_state_file(root, "viewers"@, split_name);
    lemma_state_file(root, "viewers"@, tab_name);
    lemma_file_text(split_name);
    lemma_file_text(tab_name);
    let base = components(root).push(ComponentView::Normal(encode_utf8("viewers"@)));
    let x = components(viewer_file(root, a, ViewerPlacement::Split));
    let y = components(viewer_file(root, b, ViewerPlacement::Tab));
    assert(x.last() == ComponentView::Normal(encode_utf8(split_name)));
    assert(y.last() == ComponentView::Normal(encode_utf8(tab_name)));
    if encode_utf8(split_name) == encode_utf8(tab_name) {
        let k = b.len() as int;
        assert(tab_name[k] == '.');
        assert(split_name[k] == pane_file_key(a)[k]);
        assert(encode_utf8(split_name)[k] == split_name[k] as u8);
        assert(encode_utf8(tab_name)[k] == tab_name[k] as u8);
        assert(key_char(split_name[k]));
        assert(false);
    }
}

/// A blob is read from the file that it was written to, and what was written
/// comes back, as long as it is within the limit for text.
pub proof fn law_blob_reads_back(root: Seq<u8>, bytes: Seq<u8>)
    ensures
        write_blob_step(root, bytes, Some(false), None) == StepView::<Seq<char>>::Ask(
            RequestView::Write(blob_file(root, blob_name(bytes))),
        ),
        write_blob_step(root, bytes, Some(false), Some(Ok(()))) == StepView::Finished(
            Ok::<Seq<char>, ErrorView>(blob_name(bytes)),
        ),
        is_blob_name(blob_name(bytes)) ==> read_blob_step(root, blob_name(bytes), None)
            == StepView::<Seq<u8>>::Ask(
            RequestView::ReadPrefix(
                blob_file(root, blob_name(bytes)),
                (INLINE_TEXT_LIMIT + 1) as u64,
            ),
        ),
        is_blob_name(blob_name(bytes)) && bytes.len() <= INLINE_TEXT_LIMIT ==> read_blob_step(
            root,
            blob_name(bytes),
            Some(Ok(bytes)),
        ) == StepView::Finished(Ok::<Seq<u8>, ErrorView>(bytes)),
{
}

/// A mapping is read from the file that it was written to, and gone once that
/// file is removed.
pub proof fn law_mapping_reads_back(root: Seq<u8>, mapping: MappingView, placement: ViewerPlacement)
    ensures
        load_mapping_step(root, mapping.target_pane_id, placement, None) == LoadStepView::<
            MappingView,
        >::Ask(RequestView::Read(viewer_file(root, mapping.target_pane_id, placement))),
        load_mapping_step(
            root,
            mapping.target_pane_id,
            placement,
            Some(FileReadView::Found(mapping)),
        ) == LoadStepView::Finished(Ok::<Option<MappingView>, ErrorView>(Some(mapping))),
        load_mapping_step(root, mapping.target_pane_id, placement, Some(FileReadView::Missing))
            == LoadStepView::Finished(Ok::<Option<MappingView>, ErrorView>(None)),
{
}

proof fn lemma_unreferenced(
    directory: Seq<u8>,
    manifests: Seq<Option<ManifestView>>,
    names: Seq<Seq<u8>>,
    path: Seq<u8>,
)
    ensures
        unreferenced_files(directory, manifests, names).contains(path) <==> exists|i: int|
            0 <= i < names.len() && path == joined(directory, #[trigger] names[i]) && !referenced(
                manifests,
                lossy(names[i]),
            ),
    decreases names.len(),
{
    let all = unreferenced_files(directory, manifests, names);
    if names.len() > 0 {
        let rest = unreferenced_files(directory, manifests, names.drop_last());
        let last = names.len() - 1;
        lemma_unreferenced(directory, manifests, names.drop_last(), path);
        assert(names[last] == names.last());
        if rest.contains(path) {
            let k = rest.index_of(path);
            assert(all[k] == path);
            let i = choose|i: int|
                0 <= i < names.drop_last().len() && path == joined(
                    directory,
                    #[trigger] names.drop_last()[i],
                ) && !referenced(manifests, lossy(names.drop_last()[i]));
            assert(names[i] == names.drop_last()[i]);
        }
        if !referenced(manifests, lossy(names.last())) {
            assert(all.last() == joined(directory, names.last()));
            if path == joined(directory, names.last()) {
                assert(all[all.len() - 1] == path);
            }
        }
        if all.contains(path) && !rest.contains(path) {
            let k = all.index_of(path);
            if k < rest.len() {
                assert(rest[k] == path);
            }
        }
        if exists|i: int|
            0 <= i < names.len() && path == joined(directory, #[trigger] names[i]) && !referenced(
                manifests,
                lossy(names[i]),
            ) {
            let i = choose|i: int|
                0 <= i < names.len() && path == joined(directory, #[trigger] names[i])
                    && !referenced(manifests, lossy(names[i]));
            if i < last {
                assert(names.drop_last()[i] == names[i]);
            }
        }
    }
}

/// A mapping is removed with a pane if and only if it names the pane as viewer.
pub proof fn law_removed_pane_loses_its_mappings(
    stored: Seq<(Seq<u8>, Option<MappingView>)>,
    viewer: Seq<char>,
    path: Seq<u8>,
)
    ensures
        files_of_viewer(stored, viewer).contains(path) <==> exists|i: int|
            0 <= i < stored.len() && (#[trigger] stored[i]).0 == path && shows_in(
                stored[i],
                viewer,
            ),
    decreases stored.len(),
{
    let all = files_of_viewer(stored, viewer);
    if stored.len() > 0 {
        let front = stored.drop_last();
        let rest = files_of_viewer(front, viewer);
        let last = stored.len() - 1;
        law_removed_pane_loses_its_mappings(front, viewer, path);
        assert(stored[last] == stored.last());
        if rest.contains(path) {
            assert(all[rest.index_of(path)] == path);
            let i = choose|i: int|
                0 <= i < front.len() && (#[trigger] front[i]).0 == path && shows_in(
                    front[i],
                    viewer,
                );
            assert(stored[i] == front[i]);
        }
        if shows_in(stored.last(), viewer) && stored.last().0 == path {
            assert(all[all.len() - 1] == path);
        }
        if all.contains(path) && !rest.contains(path) {
            let k = all.index_of(path);
            if k < rest.len() {
                assert(rest[k] == path);
            }
        }
        if exists|i: int|
            0 <= i < stored.len() && (#[trigger] stored[i]).0 == path && shows_in(
                stored[i],
                viewer,
            ) {
            let i = choose|i: int|
                0 <= i < stored.len() && (#[trigger] stored[i]).0 == path && shows_in(
                    stored[i],
                    viewer,
                );
            if i < last {
                assert(front[i] == stored[i]);
            }
        }
    }
}

/// Collecting removes a file only where it is a listed blob that no manifest
/// refers to, and only while no capture is under way and every manifest can be
/// read.
pub proof fn law_collecting_keeps_referenced_blobs(
    root: Seq<u8>,
    done: CollectionView,
    path: Seq<u8>,
)
    ensures
        collect_step(root, done) matches StepView::Ask(RequestView::RemoveAll(paths)) ==> {
            &&& done.markers == Some(Ok::<bool, ErrorView>(false))
            &&& done.manifests matches Some(Ok(manifests))
            &&& all_readable(manifests)
            &&& done.blobs matches Some(Ok(names))
            &&& paths.contains(path) <==> exists|i: int|
                0 <= i < names.len() && path == joined(
                    state_directory(root, "blobs"@),
                    #[trigger] names[i],
                ) && !referenced(manifests, lossy(names[i]))
        },
{
    if let Some(Ok(manifests)) = done.manifests {
        if let Some(Ok(names)) = done.blobs {
            lemma_unreferenced(state_directory(root, "blobs"@), manifests, names, path);
        }
    }
}

/// A manifest is written to the file that it is read from for its pane, and what was
/// written comes back; only the first version is written or read, and writing has gone
/// well only once the blobs have been collected too.
pub proof fn law_manifest_reads_back(
    root: Seq<u8>,
    manifest: ManifestView,
    written: Option<Result<(), ErrorView>>,
    collected: Option<Result<(), ErrorView>>,
)
    ensures
        manifest.version == 1 ==> {
            &&& commit_step(root, manifest, None, None) matches StepView::Ask(
                RequestView::Write(path),
            )
            &&& load_manifest_step(root, manifest.pane_id, None) == LoadStepView::<
                ManifestView,
            >::Ask(RequestView::Read(path))
            &&& directly_in(root, "manifests"@, path)
            &&& load_manifest_step(
                root,
                manifest.pane_id,
                Some(FileReadView::Found(manifest)),
            ) == LoadStepView::Finished(Ok::<Option<ManifestView>, ErrorView>(Some(manifest)))
        },
        manifest.version != 1 ==> {
            &&& commit_step(root, manifest, written, collected) matches StepView::Finished(Err(_))
            &&& load_manifest_step(
                root,
                manifest.pane_id,
                Some(FileReadView::Found(manifest)),
            ) matches LoadStepView::Finished(Err(_))
        },
        load_manifest_step(root, manifest.pane_id, Some(FileReadView::Missing))
            == LoadStepView::Finished(Ok::<Option<ManifestView>, ErrorView>(None)),
        (commit_step(root, manifest, written, collected) matches StepView::Finished(Ok(_)))
            <==> manifest.version == 1 && (written matches Some(Ok(_))) && (
        collected matches Some(Ok(_))),
{
    law_state_files_stay_inside(root, manifest.pane_id, Seq::empty());
}

/// Only one capture goes on for a pane: it has begun once its marker is made, and not
/// where there is one already; whether one goes on is looked up at that marker.
pub proof fn law_captures_exclude_each_other(
    root: Seq<u8>,
    pane: Seq<char>,
    event: CaptureEventView,
)
    ensures
        ({
            let marker = marker_file(root, pane);
            &&& directly_in(root, "markers"@, marker)
            &&& capture_step(marker, CaptureEventView::Start) == CaptureStepView::Ask(
                RequestView::Create(marker),
            )
            &&& capturing_step(marker, None) == LookupView::Look(marker)
            &&& capture_step(marker, CaptureEventView::AlreadyExists) == CaptureStepView::Finished(
                Ok::<Option<Seq<u8>>, ErrorView>(None),
            )
            &&& capture_step(marker, event) matches CaptureStepView::Finished(Ok(Some(held))) ==> {
                &&& event is Protected
                &&& held == marker
            }
            &&& event is ProtectFailed ==> capture_step(marker, event) == CaptureStepView::Ask(
                RequestView::RemoveAll(seq![marker]),
            )
            &&& capturing_step(marker, Some(true)) == LookupView::Known(true)
            &&& capturing_step(marker, Some(false)) == LookupView::Known(false)
        }),
{
    law_state_files_stay_inside(root, pane, Seq::empty());
}

/// With a pane everything that was kept for it goes: its manifest, its marker and the
/// mappings of both its viewers first, then the mappings that name it as viewer; and
/// it has gone well only once all of that has, and the blobs have been collected.
pub proof fn law_nothing_is_left_of_a_removed_pane(
    root: Seq<u8>,
    pane: Seq<char>,
    manifest: ManifestView,
    placement: ViewerPlacement,
    done: PaneRemovalView,
)
    requires
        manifest.pane_id == pane,
        manifest.version == 1,
        done.own_removed is None,
    ensures
        remove_pane_step(root, pane, done) matches StepView::Ask(RequestView::RemoveAll(paths)) && {
            &&& commit_step(root, manifest, None, None) matches StepView::Ask(
                RequestView::Write(path),
            ) && paths.contains(path)
            &&& paths.contains(marker_file(root, pane))
            &&& paths.contains(viewer_file(root, pane, placement))
        },
{
    let paths = own_files(root, pane);
    assert(paths[0] == manifest_file(root, pane));
    assert(paths[1] == marker_file(root, pane));
    assert(paths[2] == viewer_file(root, pane, ViewerPlacement::Split));
    assert(paths[3] == viewer_file(root, pane, ViewerPlacement::Tab));
}

/// Removing a pane goes on from step to step, and has gone well if and only if every
/// step has.
pub proof fn law_removing_goes_well_only_as_a_whole(
    root: Seq<u8>,
    pane: Seq<char>,
    done: PaneRemovalView,
)
    ensures
        (remove_pane_step(root, pane, done) matches StepView::Finished(Ok(_))) <==> {
            &&& done.own_removed matches Some(Ok(_))
            &&& done.mappings matches Some(Ok(_))
            &&& done.mappings_removed matches Some(Ok(_))
            &&& done.collected matches Some(Ok(_))
        },
        (done.own_removed matches Some(Ok(_))) && done.mappings is None
            ==> remove_pane_step(root, pane, done) == StepView::<()>::Ask(
            RequestView::ReadMappings(state_directory(root, "viewers"@)),
        ),
        (done.own_removed matches Some(Ok(_))) && done.mappings_removed is None && (
        done.mappings matches Some(Ok(_))) ==> (remove_pane_step(root, pane, done)
            matches StepView::Ask(RequestView::RemoveAll(paths)) && forall|path: Seq<u8>|
            paths.contains(path) <==> exists|i: int|
                0 <= i < done.mappings->0->Ok_0.len() && (
                #[trigger] done.mappings->0->Ok_0[i]).0 == path && (
                done.mappings->0->Ok_0[i].1 matches Some(mapping) && mapping.viewer_pane_id
                    == pane)),
{
    if let Some(Ok(stored)) = done.mappings {
        assert forall|path: Seq<u8>|
            files_of_viewer(stored, pane).contains(path) <==> exists|i: int|
                0 <= i < stored.len() && (#[trigger] stored[i]).0 == path && (
                stored[i].1 matches Some(mapping) && mapping.viewer_pane_id == pane) by {
            law_removed_pane_loses_its_mappings(stored, pane, path);
        }
    }
}

/// Links are refused wherever they stand, and so is a file where the directory of the
/// state should be; a directory and a file in it are made private.
pub proof fn law_links_are_refused(top: bool, kind: EntryKind, path: Seq<u8>)
    ensures
        hardening(top, kind, path) is Err <==> kind == EntryKind::Symlink || (top && kind
            == EntryKind::File),
        kind == EntryKind::Directory ==> hardening(top, kind, path) == Ok::<Hardening, ErrorView>(
            Hardening::Directory,
        ),
        kind == EntryKind::File && !top ==> hardening(top, kind, path) == Ok::<
            Hardening,
            ErrorView,
        >(Hardening::File),
{
}

proof fn lemma_hex_digits(a: int, b: int)
    requires
        0 <= a < 16,
        0 <= b < 16,
        hex_digit(a) == hex_digit(b),
    ensures
        a == b,
{
}

/// Bytes are told apart by the way they are written: two digits for each.
pub proof fn law_hexadecimal_tells_bytes_apart(a: Seq<u8>, b: Seq<u8>)
    ensures
        hex(a).len() == 2 * a.len(),
        hex(a) == hex(b) ==> a == b,
    decreases a.len(),
{
    lemma_hex(a);
    lemma_hex(b);
    if hex(a) == hex(b) {
        if a.len() > 0 {
            let x = hex(a);
            let n = x.len() as int;
            assert(x[n - 1] == hex_digit(a.last() as int % 16));
            assert(x[n - 2] == hex_digit(a.last() as int / 16));
            assert(hex(b)[n - 1] == hex_digit(b.last() as int % 16));
            assert(hex(b)[n - 2] == hex_digit(b.last() as int / 16));
            lemma_hex_digits(a.last() as int % 16, b.last() as int % 16);
            lemma_hex_digits(a.last() as int / 16, b.last() as int / 16);
            assert(hex(a.drop_last()) =~= x.take(n - 2));
            assert(hex(b.drop_last()) =~= hex(b).take(n - 2));
            law_hexadecimal_tells_bytes_apart(a.drop_last(), b.drop_last());
            assert(a =~= a.drop_last().push(a.last()));
            assert(b =~= b.drop_last().push(b.last()));
        } else {
            assert(a =~= b);
        }
    }
}

/// What is kept is for its owner alone: a directory and a file give no rights to anyone
/// else, and a file cannot be run.
pub proof fn law_the_state_is_private()
    ensures
        PRIVATE_DIRECTORY_MODE % 64 == 0,
        PRIVATE_FILE_MODE % 64 == 0,
        PRIVATE_DIRECTORY_MODE / 64 == 7,
        PRIVATE_FILE_MODE / 64 == 6,
{
}

/// What nothing refers to is removed once it is known to be so: no capture goes on, every
/// manifest could be read and the blobs are listed. Where one of these fails to be, nothing
/// is removed, and that is no failure of its own.
pub proof fn law_collecting_removes_what_nothing_refers_to(root: Seq<u8>, done: CollectionView)
    ensures
        done.markers is None ==> collect_step(root, done) == StepView::<()>::Ask(
            RequestView::AnyEntry(state_directory(root, "markers"@)),
        ),
        done.markers == Some(Ok::<bool, ErrorView>(true)) ==> collect_step(
            root,
            done,
        ) matches StepView::Finished(Ok(_)),
        done.markers == Some(Ok::<bool, ErrorView>(false)) ==> {
            &&& done.manifests is None ==> collect_step(root, done) == StepView::<()>::Ask(
                RequestView::ReadManifests(state_directory(root, "manifests"@)),
            )
            &&& done.manifests matches Some(Ok(manifests)) ==> {
                let readable = forall|i: int|
                    0 <= i < manifests.len() ==> #[trigger] manifests[i] is Some;
                &&& !readable ==> (collect_step(root, done) matches StepView::Finished(Ok(_)))
                &&& readable && done.blobs is None ==> collect_step(root, done) == StepView::<
                    (),
                >::Ask(RequestView::List(state_directory(root, "blobs"@)))
                &&& readable && (done.blobs matches Some(Ok(_))) && done.removed is None ==> (
                collect_step(root, done) matches StepView::Ask(RequestView::RemoveAll(_)))
                &&& readable && (done.blobs matches Some(Ok(_))) && (done.removed matches Some(
                    Ok(_),
                )) ==> (collect_step(root, done) matches StepView::Finished(Ok(_)))
            }
        },
{
}

/// A blob that is there already is not written again, and is looked for where it would be
/// written; one under a name that is none is never read.
pub proof fn law_blobs_are_written_once(root: Seq<u8>, bytes: Seq<u8>, name: Seq<char>)
    ensures
        write_blob_step(root, bytes, None, None) == StepView::<Seq<char>>::Ask(
            RequestView::Exists(blob_file(root, blob_name(bytes))),
        ),
        write_blob_step(root, bytes, Some(true), None) == StepView::Finished(
            Ok::<Seq<char>, ErrorView>(blob_name(bytes)),
        ),
        read_blob_step(root, name, None) is Ask <==> name.len() == 64 && forall|i: int|
            0 <= i < name.len() ==> ('0' <= #[trigger] name[i] <= '9') || ('a' <= name[i] <= 'f'),
        read_blob_step(root, name, None) matches StepView::Ask(request) ==> request
            == RequestView::ReadPrefix(blob_file(root, name), 2_097_153),
{
    assert(is_blob_name(name) <==> name.len() == 64 && forall|i: int|
        0 <= i < name.len() ==> ('0' <= #[trigger] name[i] <= '9') || ('a' <= name[i] <= 'f')) by {
        if is_blob_name(name) {
            assert forall|i: int| 0 <= i < name.len() implies ('0' <= #[trigger] name[i] <= '9')
                || ('a' <= name[i] <= 'f') by {
                assert(is_hex_digit(name[i]));
            }
        }
    }
}

/// A blob is referred to where any file of any manifest that could be read was recorded
/// under its name, and only there.
pub proof fn law_any_manifest_can_refer_to_a_blob(
    manifests: Seq<Option<ManifestView>>,
    name: Seq<char>,
    i: int,
    j: int,
)
    requires
        0 <= i < manifests.len(),
        manifests[i] is Some,
        0 <= j < manifests[i]->0.files.len(),
        manifests[i]->0.files[j].1.blob == Some(name),
    ensures
        referenced(manifests, name),
        !referenced(Seq::empty(), name),
{
    assert(refers(manifests[i]->0, name));
}

} // verus!
