//! Files, their recorded states, and the changes between them.
use vstd::prelude::*;

use crate::seqs::{copy_bytes, option_view, views};

verus! {

/// Largest text, in bytes, that is read for display.
pub const INLINE_TEXT_LIMIT: u64 = 2 * 1024 * 1024;

/// Version of the manifests that this program writes and reads.
pub const MANIFEST_VERSION: u32 = 1;

/// Whether a file can be shown as text, or why not.
#[derive(Clone, Copy, Debug, PartialEq, Eq, Structural)]
pub enum TextEligibility {
    Text,
    Binary,
    Oversized,
    InvalidUtf8,
    Unreadable,
}

/// A file as the workspace scan found it.
#[derive(Debug, PartialEq, Eq)]
pub struct CurrentFile {
    pub relative: Vec<u8>,
    pub absolute: Vec<u8>,
    pub size: u64,
    pub modified_unix_ns: Option<u128>,
    pub text: TextEligibility,
}

pub ghost struct FileView {
    pub relative: Seq<u8>,
    pub absolute: Seq<u8>,
    pub size: u64,
    pub modified_unix_ns: Option<u128>,
    pub text: TextEligibility,
}

impl View for CurrentFile {
    type V = FileView;

    open spec fn view(&self) -> FileView {
        FileView {
            relative: self.relative@,
            absolute: self.absolute@,
            size: self.size,
            modified_unix_ns: self.modified_unix_ns,
            text: self.text,
        }
    }
}

#[derive(Clone, Copy, Debug, PartialEq, Eq, Structural)]
pub enum ChangeKind {
    Added,
    Modified,
    Deleted,
    Renamed,
}

/// What a manifest records of one file: the blob that holds its text, where the
/// text was kept.
#[derive(Debug, PartialEq, Eq)]
pub struct FileRecord {
    pub blob: Option<String>,
}

pub ghost struct RecordView {
    pub blob: Option<Seq<char>>,
}

impl View for FileRecord {
    type V = RecordView;

    open spec fn view(&self) -> RecordView {
        RecordView { blob: option_view(self.blob) }
    }
}

/// A difference between a recorded file and the current one.
#[derive(Debug, PartialEq, Eq)]
pub struct Change {
    pub kind: ChangeKind,
    pub path: Vec<u8>,
    pub old_path: Option<Vec<u8>>,
    pub baseline: Option<FileRecord>,
    pub current: Option<CurrentFile>,
}

pub ghost struct ChangeView {
    pub kind: ChangeKind,
    pub path: Seq<u8>,
    pub old_path: Option<Seq<u8>>,
    pub baseline: Option<RecordView>,
    pub current: Option<FileView>,
}

impl View for Change {
    type V = ChangeView;

    open spec fn view(&self) -> ChangeView {
        ChangeView {
            kind: self.kind,
            path: self.path@,
            old_path: option_view(self.old_path),
            baseline: option_view(self.baseline),
            current: option_view(self.current),
        }
    }
}

/// The recorded state of a workspace when a pane's session began.
#[derive(Debug, PartialEq, Eq)]
pub struct Manifest {
    pub version: u32,
    pub pane_id: String,
    pub root: Vec<u8>,
    pub agent: String,
    pub session_ref: Option<String>,
    pub captured_unix_ms: u64,
    pub files: Vec<(Vec<u8>, FileRecord)>,
    pub notices: Vec<String>,
}

pub ghost struct ManifestView {
    pub version: u32,
    pub pane_id: Seq<char>,
    pub root: Seq<u8>,
    pub agent: Seq<char>,
    pub session_ref: Option<Seq<char>>,
    pub captured_unix_ms: u64,
    pub files: Seq<(Seq<u8>, RecordView)>,
    pub notices: Seq<Seq<char>>,
}

impl View for Manifest {
    type V = ManifestView;

    open spec fn view(&self) -> ManifestView {
        ManifestView {
            version: self.version,
            pane_id: self.pane_id@,
            root: self.root@,
            agent: self.agent@,
            session_ref: option_view(self.session_ref),
            captured_unix_ms: self.captured_unix_ms,
            files: views(self.files@),
            notices: views(self.notices@),
        }
    }
}

/// Copies a path.
pub fn copy_path(path: &Vec<u8>) -> (copy: Vec<u8>)
    ensures
        copy@ == path@,
{
    let copy = copy_bytes(path, 0, path.len());
    proof {
        assert(copy@ =~= path@);
    }
    copy
}

pub fn copy_optional_path(path: &Option<Vec<u8>>) -> (copy: Option<Vec<u8>>)
    ensures
        option_view(copy) == option_view(*path),
{
    match path {
        Some(inner) => Some(copy_path(inner)),
        None => None,
    }
}

impl Clone for CurrentFile {
    fn clone(&self) -> (copy: Self)
        ensures
            copy@ == self@,
    {
        CurrentFile {
            relative: copy_path(&self.relative),
            absolute: copy_path(&self.absolute),
            size: self.size,
            modified_unix_ns: self.modified_unix_ns,
            text: self.text,
        }
    }
}

impl Clone for FileRecord {
    fn clone(&self) -> (copy: Self)
        ensures
            copy@ == self@,
    {
        FileRecord {
            blob: match &self.blob {
                Some(blob) => Some(blob.clone()),
                None => None,
            },
        }
    }
}

impl Clone for Change {
    fn clone(&self) -> (copy: Self)
        ensures
            copy@ == self@,
    {
        Change {
            kind: self.kind,
            path: copy_path(&self.path),
            old_path: copy_optional_path(&self.old_path),
            baseline: match &self.baseline {
                Some(record) => Some(record.clone()),
                None => None,
            },
            current: match &self.current {
                Some(file) => Some(file.clone()),
                None => None,
            },
        }
    }
}

} // verus!
