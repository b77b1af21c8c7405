use std::collections::BTreeMap;

use herdr_agent_diff::error::{state_dir, Error};
use herdr_agent_diff::model::{FileRecord, Manifest, INLINE_TEXT_LIMIT, MANIFEST_VERSION};
use herdr_agent_diff::state::{
    harden_state_tree, hex_digest, pane_key, CaptureEvent, CaptureStep, Collection, EntryKind, FileRead,
    Hardening, LoadStep, Lookup, PaneRemoval, StateRequest, StateStore, Step, StoredMapping,
    ViewerMapping, ViewerPlacement,
};

const HELLO: &str = "2cf24dba5fb0a30e26e83b2ac5b9e29e1b161e5c1fa7425e73043362938b9824";

fn store() -> StateStore {
    StateStore::new(b"/state".to_vec())
}

fn text(path: &[u8]) -> String {
    String::from_utf8(path.to_vec()).expect("path")
}

fn manifest(pane_id: &str, blob: Option<&str>) -> Manifest {
    Manifest {
        version: MANIFEST_VERSION,
        pane_id: pane_id.to_owned(),
        root: b"/p".to_vec(),
        agent: "codex".to_owned(),
        session_ref: None,
        captured_unix_ms: 1,
        files: vec![(
            b"a.txt".to_vec(),
            FileRecord {
                blob: blob.map(str::to_owned),
            },
        )],
        notices: Vec::new(),
    }
}

fn mapping(target: &str, viewer: &str) -> ViewerMapping {
    ViewerMapping {
        target_pane_id: target.to_owned(),
        viewer_pane_id: viewer.to_owned(),
    }
}

/// The files of a store, kept in memory.
struct Blobs {
    files: BTreeMap<String, Vec<u8>>,
}

impl Blobs {
    fn write(&mut self, bytes: &[u8]) -> String {
        let path = match store().write_blob(bytes, None, None) {
            Step::Ask(StateRequest::Exists(path)) => path,
            step => panic!("{step:?}"),
        };
        let found = self.files.contains_key(&text(&path));
        match store().write_blob(bytes, Some(found), None) {
            Step::Finished(Ok(name)) => return name,
            Step::Ask(StateRequest::Write(written)) => {
                assert_eq!(written, path);
                self.files.insert(text(&path), bytes.to_vec());
            }
            step => panic!("{step:?}"),
        }
        match store().write_blob(bytes, Some(found), Some(Ok(()))) {
            Step::Finished(Ok(name)) => name,
            step => panic!("{step:?}"),
        }
    }

    fn read(&self, hash: &str) -> Result<Vec<u8>, Error> {
        match store().read_blob(hash, None) {
            Step::Finished(result) => result,
            Step::Ask(StateRequest::ReadPrefix(path, limit)) => {
                assert_eq!(limit, INLINE_TEXT_LIMIT + 1);
                let reply = match self.files.get(&text(&path)) {
                    Some(bytes) => Ok(bytes.iter().copied().take(limit as usize).collect()),
                    None => Err(Error::Io("no such file".to_owned())),
                };
                match store().read_blob(hash, Some(reply)) {
                    Step::Finished(result) => result,
                    step => panic!("{step:?}"),
                }
            }
            step => panic!("{step:?}"),
        }
    }
}

#[test]
fn digests_are_written_in_hexadecimal() {
    assert_eq!(hex_digest(b"hello"), HELLO);
    assert_eq!(
        hex_digest(b""),
        "e3b0c44298fc1c149afbf4c8996fb92427ae41e4649b934ca495991b7852b855"
    );
}

#[test]
fn a_blob_reads_back_as_it_was_written() {
    let mut blobs = Blobs {
        files: BTreeMap::new(),
    };
    assert_eq!(blobs.write(b"hello"), HELLO);
    assert_eq!(blobs.write(b"hello"), HELLO);
    assert_eq!(blobs.files.len(), 1);
    assert_eq!(blobs.read(HELLO), Ok(b"hello".to_vec()));
    assert_eq!(
        blobs.read("../secret"),
        Err(Error::Message("invalid blob hash".to_owned()))
    );
    assert_eq!(
        blobs.read(&HELLO[1..]),
        Err(Error::Message("invalid blob hash".to_owned()))
    );
    assert!(blobs.read(&hex_digest(b"other")).is_err());
    let large = vec![b'a'; INLINE_TEXT_LIMIT as usize + 1];
    let name = blobs.write(&large);
    assert_eq!(
        blobs.read(&name),
        Err(Error::Message("blob exceeds inline limit".to_owned()))
    );
    match store().write_blob(
        b"hello",
        Some(false),
        Some(Err(Error::Io("full".to_owned()))),
    ) {
        Step::Finished(result) => assert_eq!(result, Err(Error::Io("full".to_owned()))),
        step => panic!("{step:?}"),
    }
}

#[test]
fn a_manifest_is_kept_and_loaded_in_its_version() {
    let store = store();
    let kept = manifest("w1:p1", None);
    let path = match store.commit_manifest(&kept, None, None) {
        Step::Ask(StateRequest::Write(path)) => path,
        step => panic!("{step:?}"),
    };
    assert!(text(&path).starts_with("/state/manifests/"));
    match store.load_manifest("w1:p1", None) {
        LoadStep::Ask(StateRequest::Read(read)) => assert_eq!(read, path),
        step => panic!("{step:?}"),
    }
    assert!(matches!(
        store.commit_manifest(&kept, Some(Ok(())), None),
        Step::Ask(StateRequest::CollectBlobs)
    ));
    assert!(matches!(
        store.commit_manifest(&kept, Some(Ok(())), Some(Ok(()))),
        Step::Finished(Ok(()))
    ));
    match store.load_manifest("w1:p1", Some(FileRead::Found(manifest("w1:p1", None)))) {
        LoadStep::Finished(Ok(Some(found))) => assert_eq!(found, kept),
        step => panic!("{step:?}"),
    }
    assert!(matches!(
        store.load_manifest("w1:p1", Some(FileRead::Missing)),
        LoadStep::Finished(Ok(None))
    ));
    let mut newer = manifest("w1:p1", None);
    newer.version = 99;
    match store.commit_manifest(&newer, None, None) {
        Step::Finished(Err(error)) => assert_eq!(error.text(), "unsupported manifest version"),
        step => panic!("{step:?}"),
    }
    match store.load_manifest("w1:p1", Some(FileRead::Found(newer))) {
        LoadStep::Finished(Err(error)) => {
            assert_eq!(error.text(), "manifest version 99 is not supported");
        }
        step => panic!("{step:?}"),
    }
}

#[test]
fn the_viewers_of_a_pane_are_kept_apart() {
    let store = store();
    let kept = mapping("w1:p1", "w1:p2");
    let split = store.set_viewer_mapping(&kept);
    let tab = store.set_viewer_mapping_for(&kept, ViewerPlacement::Tab);
    assert_ne!(split, tab);
    assert_eq!(
        split,
        store.set_viewer_mapping_for(&kept, ViewerPlacement::Split)
    );
    assert_eq!(store.remove_viewer_mapping("w1:p1"), split);
    assert_eq!(
        store.remove_viewer_mapping_for("w1:p1", ViewerPlacement::Tab),
        tab
    );
    match store.viewer_mapping_for("w1:p1", ViewerPlacement::Tab, None) {
        LoadStep::Ask(StateRequest::Read(path)) => assert_eq!(path, tab),
        step => panic!("{step:?}"),
    }
    match store.viewer_mapping("w1:p1", Some(FileRead::Found(mapping("w1:p1", "w1:p2")))) {
        LoadStep::Finished(Ok(Some(found))) => assert_eq!(found, kept),
        step => panic!("{step:?}"),
    }
    assert_eq!(ViewerPlacement::default().as_str(), "split");
    assert_eq!(ViewerPlacement::Tab.as_str(), "tab");
}

#[test]
fn one_capture_of_a_pane_runs_at_a_time() {
    let store = store();
    let marker = match store.begin_capture("w1:p1", CaptureEvent::Start) {
        CaptureStep::Ask(StateRequest::Create(path)) => path,
        step => panic!("{step:?}"),
    };
    assert!(text(&marker).starts_with("/state/markers/"));
    assert!(matches!(
        store.begin_capture("w1:p1", CaptureEvent::AlreadyExists),
        CaptureStep::Finished(Ok(None))
    ));
    assert!(matches!(
        store.begin_capture("w1:p1", CaptureEvent::Created),
        CaptureStep::Ask(StateRequest::WriteOwner(_))
    ));
    assert!(matches!(
        store.begin_capture("w1:p1", CaptureEvent::OwnerWritten),
        CaptureStep::Ask(StateRequest::Protect(_))
    ));
    match store.begin_capture("w1:p1", CaptureEvent::Protected) {
        CaptureStep::Finished(Ok(Some(guard))) => assert_eq!(guard.path, marker),
        step => panic!("{step:?}"),
    }
    match store.capturing("w1:p1", None) {
        Lookup::Look(path) => assert_eq!(path, marker),
        lookup => panic!("{lookup:?}"),
    }
    assert!(matches!(
        store.capturing("w1:p1", Some(true)),
        Lookup::Known(true)
    ));
}

#[test]
fn a_removed_pane_loses_its_files_and_the_mappings_to_it() {
    let store = store();
    let mut done = PaneRemoval {
        own_removed: None,
        mappings: None,
        mappings_removed: None,
        collected: None,
    };
    match store.remove_pane("w1:p2", &done) {
        Step::Ask(StateRequest::RemoveAll(paths)) => {
            assert_eq!(paths.len(), 4);
            assert!(paths.contains(&store.remove_viewer_mapping("w1:p2")));
        }
        step => panic!("{step:?}"),
    }
    done.own_removed = Some(Ok(()));
    assert!(matches!(
        store.remove_pane("w1:p2", &done),
        Step::Ask(StateRequest::ReadMappings(_))
    ));
    done.mappings = Some(Ok(vec![
        StoredMapping {
            path: b"/state/viewers/a".to_vec(),
            mapping: Some(mapping("w1:p1", "w1:p2")),
        },
        StoredMapping {
            path: b"/state/viewers/b".to_vec(),
            mapping: Some(mapping("w1:p3", "w1:p4")),
        },
        StoredMapping {
            path: b"/state/viewers/c".to_vec(),
            mapping: None,
        },
    ]));
    match store.remove_pane("w1:p2", &done) {
        Step::Ask(StateRequest::RemoveAll(paths)) => {
            assert_eq!(paths, [b"/state/viewers/a".to_vec()]);
        }
        step => panic!("{step:?}"),
    }
    done.mappings_removed = Some(Ok(()));
    assert!(matches!(
        store.remove_pane("w1:p2", &done),
        Step::Ask(StateRequest::CollectBlobs)
    ));
    done.collected = Some(Ok(()));
    assert!(matches!(
        store.remove_pane("w1:p2", &done),
        Step::Finished(Ok(()))
    ));
    done.own_removed = Some(Err(Error::Io("busy".to_owned())));
    assert!(matches!(
        store.remove_pane("w1:p2", &done),
        Step::Finished(Err(Error::Io(_)))
    ));
}

#[test]
fn only_blobs_that_no_manifest_refers_to_are_collected() {
    let store = store();
    let other = hex_digest(b"other");
    let mut done = Collection {
        markers: None,
        manifests: None,
        blobs: None,
        removed: None,
    };
    assert!(matches!(
        store.gc_blobs(&done),
        Step::Ask(StateRequest::AnyEntry(_))
    ));
    done.markers = Some(Ok(true));
    assert!(matches!(store.gc_blobs(&done), Step::Finished(Ok(()))));
    done.markers = Some(Ok(false));
    done.manifests = Some(Ok(vec![Some(manifest("w1:p1", Some(HELLO))), None]));
    assert!(matches!(store.gc_blobs(&done), Step::Finished(Ok(()))));
    done.manifests = Some(Ok(vec![Some(manifest("w1:p1", Some(HELLO)))]));
    assert!(matches!(
        store.gc_blobs(&done),
        Step::Ask(StateRequest::List(_))
    ));
    done.blobs = Some(Ok(vec![
        HELLO.as_bytes().to_vec(),
        other.as_bytes().to_vec(),
    ]));
    match store.gc_blobs(&done) {
        Step::Ask(StateRequest::RemoveAll(paths)) => {
            assert_eq!(paths.len(), 1);
            assert_eq!(text(&paths[0]), format!("/state/blobs/{other}"));
        }
        step => panic!("{step:?}"),
    }
}

#[test]
fn the_state_is_made_private_and_holds_no_links() {
    assert_eq!(
        harden_state_tree(true, EntryKind::Directory, b"/state"),
        Ok(Hardening::Directory)
    );
    assert_eq!(
        harden_state_tree(false, EntryKind::File, b"/state/a"),
        Ok(Hardening::File)
    );
    assert_eq!(
        harden_state_tree(true, EntryKind::Symlink, b"/state"),
        Err(Error::Message(
            "state path must not be a symlink: /state".to_owned()
        ))
    );
    assert_eq!(
        harden_state_tree(false, EntryKind::Symlink, b"/state/a"),
        Err(Error::Message(
            "state path must not contain symlinks: /state/a".to_owned()
        ))
    );
    assert_eq!(
        harden_state_tree(true, EntryKind::File, b"/state"),
        Err(Error::Message(
            "state path is not a directory: /state".to_owned()
        ))
    );
}

#[test]
fn the_state_is_kept_where_the_host_says() {
    assert_eq!(state_dir(Some(b"/state".to_vec())), Ok(b"/state".to_vec()));
    assert_eq!(
        state_dir(None),
        Err(Error::Message(
            "HERDR_PLUGIN_STATE_DIR is not set".to_owned()
        ))
    );
    assert_eq!(store().root(), b"/state");
    assert!(store()
        .directories()
        .iter()
        .all(|path| text(path).starts_with("/state/")));
}

#[test]
fn the_key_of_a_pane_is_kept_as_it_is() {
    assert_eq!(pane_key("w1:p1"), "w1_p1");
    assert_eq!(pane_key("w1_p1"), "w1_p1");
    assert_eq!(pane_key("../a b/é-9"), "___a_b__-9");
    assert_eq!(pane_key(&pane_key("../a b/é-9")), "___a_b__-9");
    assert_eq!(pane_key(""), "");
}
