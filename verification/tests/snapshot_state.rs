use std::collections::BTreeMap;

use herdr_agent_diff::error::Error;
use herdr_agent_diff::model::{CurrentFile, TextEligibility, INLINE_TEXT_LIMIT};
use herdr_agent_diff::project::{
    Discovery, DiscoveryAnswer, DiscoveryOutcome, DiscoveryQuestion, ProjectScope,
};
use herdr_agent_diff::snapshot::{
    admits, file_hash, inspect_file, is_always_ignored, item_hash, safe_read,
    workspace_fingerprint, FileMetadata, InspectStep, ReadEvent, ReadStep, Scan, ScanAction,
    WalkItem, MAX_SCAN_FILES, MAX_SCAN_BYTES,
};
use ignore::gitignore::{Gitignore, GitignoreBuilder};

#[derive(Clone)]
enum Node {
    Directory,
    File { bytes: Vec<u8>, size: u64 },
    Link,
}

/// A file system in memory, by absolute path.
struct Disk {
    nodes: BTreeMap<String, Node>,
}

impl Disk {
    fn new() -> Disk {
        Disk {
            nodes: BTreeMap::new(),
        }
    }

    fn create_dir(&mut self, path: &str) {
        let mut parent = String::new();
        for name in path.split('/').filter(|name| !name.is_empty()) {
            parent.push('/');
            parent.push_str(name);
            self.nodes.entry(parent.clone()).or_insert(Node::Directory);
        }
    }

    fn write(&mut self, path: &str, bytes: &[u8]) {
        let end = path.rfind('/').expect("absolute path");
        self.create_dir(&path[..end]);
        self.nodes.insert(
            path.to_owned(),
            Node::File {
                bytes: bytes.to_vec(),
                size: bytes.len() as u64,
            },
        );
    }

    fn set_len(&mut self, path: &str, size: u64) {
        if let Some(Node::File { size: old, .. }) = self.nodes.get_mut(path) {
            *old = size;
        }
    }

    fn symlink(&mut self, path: &str) {
        self.nodes.insert(path.to_owned(), Node::Link);
    }

    fn is_file(&self, path: &str) -> bool {
        matches!(self.nodes.get(path), Some(Node::File { .. }))
    }

    fn children(&self, directory: &str) -> Vec<(String, Node)> {
        let start = format!("{directory}/");
        self.nodes
            .iter()
            .filter(|(path, _)| {
                path.strip_prefix(&start)
                    .is_some_and(|rest| !rest.contains('/'))
            })
            .map(|(path, node)| (path.clone(), node.clone()))
            .collect()
    }
}

fn text_of(path: &[u8]) -> String {
    String::from_utf8(path.to_vec()).expect("path")
}

fn discover(disk: &Disk, root: &str) -> Option<ProjectScope> {
    let mut search = Discovery::discover(root.as_bytes().to_vec());
    loop {
        let answer = match search.question() {
            DiscoveryQuestion::IsFile(path) => DiscoveryAnswer {
                yes: disk.is_file(&text_of(&path)),
                contents: None,
            },
            DiscoveryQuestion::Contents(path) => match disk.nodes.get(&text_of(&path)) {
                Some(Node::File { bytes, .. }) => DiscoveryAnswer {
                    yes: true,
                    contents: String::from_utf8(bytes.clone()).ok(),
                },
                _ => DiscoveryAnswer {
                    yes: false,
                    contents: None,
                },
            },
            DiscoveryQuestion::Exists(path) => DiscoveryAnswer {
                yes: disk.nodes.contains_key(&text_of(&path)),
                contents: None,
            },
        };
        match search.advance(answer) {
            DiscoveryOutcome::Continue(next) => search = next,
            DiscoveryOutcome::Finished(scope) => return scope,
        }
    }
}

fn ignored(disk: &Disk, root: &str) -> Gitignore {
    let mut builder = GitignoreBuilder::new(root);
    if let Some(Node::File { bytes, .. }) = disk.nodes.get(&format!("{root}/.gitignore")) {
        for line in String::from_utf8_lossy(bytes).lines() {
            builder.add_line(None, line).expect("ignore line");
        }
    }
    builder.build().expect("ignore rules")
}

fn walk(
    disk: &Disk,
    directory: &str,
    scope: &Option<ProjectScope>,
    rules: &Gitignore,
    items: &mut Vec<WalkItem>,
) {
    for (path, node) in disk.children(directory) {
        let name = path.rsplit('/').next().expect("name");
        let is_directory = matches!(node, Node::Directory);
        if rules.matched(&path, is_directory).is_ignore()
            || !admits(scope, path.as_bytes(), name.as_bytes(), is_directory)
        {
            continue;
        }
        match node {
            Node::Directory => {
                items.push(WalkItem::NotAFile);
                walk(disk, &path, scope, rules, items);
            }
            Node::Link => items.push(WalkItem::NotAFile),
            Node::File { size, .. } => items.push(WalkItem::File {
                path: path.clone().into_bytes(),
                metadata: Ok(FileMetadata {
                    size,
                    modified_unix_ns: Some(7),
                }),
            }),
        }
    }
}

fn walked(disk: &Disk, root: &str) -> Vec<WalkItem> {
    let scope = discover(disk, root);
    let mut items = Vec::new();
    walk(disk, root, &scope, &ignored(disk, root), &mut items);
    items
}

fn inspect(disk: &Disk, path: &str, size: u64) -> Result<TextEligibility, Error> {
    match inspect_file(size, None) {
        InspectStep::Finished(result) => result,
        InspectStep::Read(limit) => {
            let bytes = match disk.nodes.get(path) {
                Some(Node::File { bytes, .. }) => {
                    bytes.iter().copied().take(limit as usize).collect()
                }
                _ => panic!("{path} is no file"),
            };
            match inspect_file(size, Some(Ok(bytes))) {
                InspectStep::Finished(result) => result,
                InspectStep::Read(_) => panic!("read twice"),
            }
        }
    }
}

type Files = BTreeMap<String, CurrentFile>;

fn scan(disk: &Disk, root: &str) -> Result<(Files, Vec<String>), Error> {
    let mut scan = Scan::new(root.as_bytes().to_vec());
    for item in walked(disk, root) {
        match scan.offer(item) {
            ScanAction::Next => {}
            ScanAction::Stop(error) => return Err(error),
            ScanAction::Inspect(pending) => {
                let text = inspect(disk, &text_of(&pending.absolute), pending.metadata.size);
                scan.record(pending, text);
            }
        }
    }
    let (files, notices) = scan.finish();
    let map = files
        .into_iter()
        .map(|file| (text_of(&file.relative), file))
        .collect();
    Ok((map, notices))
}

fn read(disk: &Disk, root: &str, relative: &str, limit: u64) -> Result<Vec<u8>, Error> {
    let mut event = ReadEvent::Start;
    loop {
        event = match safe_read(relative.as_bytes(), limit, event) {
            ReadStep::Finished(result) => return result,
            ReadStep::OpenRoot => ReadEvent::RootOpened,
            ReadStep::ReadBeneath(names, most) => {
                let mut path = root.to_owned();
                let mut found = ReadEvent::Failed(Error::Io("no such file".to_owned()));
                for name in names {
                    path = format!("{path}/{}", text_of(&name));
                    found = match disk.nodes.get(&path) {
                        Some(Node::Directory) => continue,
                        Some(Node::File { bytes, .. }) => ReadEvent::Content(
                            bytes.iter().copied().take(most as usize).collect(),
                        ),
                        Some(Node::Link) => ReadEvent::Failed(Error::Io("a link".to_owned())),
                        None => ReadEvent::Failed(Error::Io("no such file".to_owned())),
                    };
                    break;
                }
                found
            }
        };
    }
}

fn fingerprint(disk: &Disk, root: &str) -> (u64, usize) {
    let hashes = walked(disk, root)
        .iter()
        .filter_map(|item| item_hash(root.as_bytes(), item, 1, 2))
        .collect();
    workspace_fingerprint(&hashes)
}

#[test]
fn scan_honors_ignore_files_and_classifies_file_content() {
    let mut project = Disk::new();
    project.write("/p/.gitignore", b"ignored.txt\ngenerated/\n");
    project.write("/p/ignored.txt", b"ignored");
    project.write("/p/generated/large.bin", b"");
    project.set_len("/p/generated/large.bin", 1024 * 1024 * 1024 + 1);
    project.write("/p/node_modules/pkg.js", b"ignored");
    project.write("/p/binary.bin", b"a\0b");
    project.write("/p/invalid.txt", &[0xff, 0xfe]);
    project.write("/p/large.txt", b"");
    project.set_len("/p/large.txt", INLINE_TEXT_LIMIT + 1);

    let (files, _) = scan(&project, "/p").expect("scan");
    assert!(!files.contains_key("ignored.txt"));
    assert!(!files.contains_key("generated/large.bin"));
    assert!(!files.contains_key("node_modules/pkg.js"));
    assert_eq!(files["binary.bin"].text, TextEligibility::Binary);
    assert_eq!(files["invalid.txt"].text, TextEligibility::InvalidUtf8);
    assert_eq!(files["large.txt"].text, TextEligibility::Oversized);
}

#[test]
fn workspace_fingerprint_skips_ignored_files_and_detects_metadata_changes() {
    let mut project = Disk::new();
    project.write("/p/.gitignore", b"ignored.txt\n");
    project.write("/p/visible.txt", b"before");

    let initial = fingerprint(&project, "/p");
    project.write("/p/ignored.txt", b"ignored");
    assert_eq!(fingerprint(&project, "/p"), initial);

    project.write("/p/visible.txt", b"after");
    assert_ne!(fingerprint(&project, "/p"), initial);
}

#[test]
fn scan_uses_eclipse_bazelproject_directories_when_present() {
    let mut project = Disk::new();
    project.write(
        "/p/.eclipse/.bazelproject",
        b"directories:\n  java/selected\n  -java/selected/generated\n",
    );
    project.write("/p/java/selected/Main.java", b"selected");
    project.write("/p/java/selected/generated/Build.java", b"excluded");
    project.write("/p/java/other/Other.java", b"other");
    project.write("/p/README.md", b"outside");

    let (files, _) = scan(&project, "/p").expect("scan");
    assert!(files.contains_key("java/selected/Main.java"));
    assert!(!files.contains_key("java/selected/generated/Build.java"));
    assert!(!files.contains_key("java/other/Other.java"));
    assert!(!files.contains_key("README.md"));
}

#[test]
fn non_bazel_repositories_keep_full_filesystem_scope() {
    let mut project = Disk::new();
    project.write("/p/README.md", b"outside");
    project.write("/p/java/other/Other.java", b"other");

    let (files, _) = scan(&project, "/p").expect("scan");
    assert!(files.contains_key("README.md"));
    assert!(files.contains_key("java/other/Other.java"));
}

#[test]
fn root_level_bazelproject_activates_project_scope() {
    let mut project = Disk::new();
    project.write("/p/.bazelproject", b"directories:\n  java/selected\n");
    project.write("/p/java/selected/Main.java", b"selected");
    project.write("/p/README.md", b"outside");

    let (files, _) = scan(&project, "/p").expect("scan");
    assert!(files.contains_key("java/selected/Main.java"));
    assert!(!files.contains_key("README.md"));
}

#[test]
fn project_view_is_found_above_a_nested_workspace_with_upper_git_root() {
    let mut repository = Disk::new();
    repository.create_dir("/r/.git");
    repository.write(
        "/r/.eclipse/.bazelproject",
        b"directories:\n  project/java/selected\n",
    );
    repository.write("/r/project/java/selected/Main.java", b"selected");
    repository.write("/r/project/java/other/Other.java", b"other");

    let (files, _) = scan(&repository, "/r/project").expect("scan");
    assert!(files.contains_key("java/selected/Main.java"));
    assert!(!files.contains_key("java/other/Other.java"));
}

#[test]
fn symlinks_are_not_followed_and_reads_cannot_escape_root() {
    let mut disk = Disk::new();
    disk.write("/secret.txt", b"secret");
    disk.write("/outside/secret.txt", b"secret");
    disk.create_dir("/p");
    disk.symlink("/p/link.txt");
    let (files, _) = scan(&disk, "/p").expect("scan");
    assert!(!files.contains_key("link.txt"));
    assert!(read(&disk, "/p", "../secret.txt", 100).is_err());
    assert!(read(&disk, "/p", "link.txt", 100).is_err());
    disk.create_dir("/p/nested");
    disk.symlink("/p/nested/outside");
    assert!(read(&disk, "/p", "nested/outside/secret.txt", 100).is_err());
}

#[test]
fn safe_read_enforces_the_inline_limit() {
    let mut project = Disk::new();
    project.write("/p/small.txt", b"small");
    assert_eq!(
        read(&project, "/p", "small.txt", 100).expect("read small"),
        b"small"
    );
    assert!(read(&project, "/p", "small.txt", 2).is_err());
}

#[test]
fn a_search_stops_at_the_top_of_a_repository() {
    let mut disk = Disk::new();
    disk.write("/r/.bazelproject", b"directories:\n  elsewhere\n");
    disk.create_dir("/r/project/.git");
    disk.write("/r/project/README.md", b"text");
    assert!(discover(&disk, "/r/project").is_none());
    let (files, _) = scan(&disk, "/r/project").expect("scan");
    assert!(files.contains_key("README.md"));
}

#[test]
fn a_scan_stops_at_its_limits() {
    let file = |size: u64| WalkItem::File {
        path: b"/p/a".to_vec(),
        metadata: Ok(FileMetadata {
            size,
            modified_unix_ns: None,
        }),
    };
    let mut scan = Scan::new(b"/p".to_vec());
    assert!(matches!(
        scan.offer(file(MAX_SCAN_BYTES)),
        ScanAction::Inspect(_)
    ));
    assert!(matches!(
        scan.offer(file(1)),
        ScanAction::Stop(Error::Message(_))
    ));

    let mut scan = Scan::new(b"/p".to_vec());
    for _ in 0..MAX_SCAN_FILES {
        assert!(matches!(scan.offer(file(0)), ScanAction::Inspect(_)));
    }
    assert!(matches!(scan.offer(file(0)), ScanAction::Stop(_)));
}

#[test]
fn a_scan_notes_what_it_cannot_read_and_lists_each_path_once() {
    let mut scan = Scan::new(b"/p".to_vec());
    assert!(matches!(
        scan.offer(WalkItem::Failed("no entry".to_owned())),
        ScanAction::Next
    ));
    assert!(matches!(scan.offer(WalkItem::Untyped), ScanAction::Next));
    for name in ["/p/b.txt", "/p/a.txt", "/p/b.txt"] {
        let item = WalkItem::File {
            path: name.as_bytes().to_vec(),
            metadata: Ok(FileMetadata {
                size: 3,
                modified_unix_ns: None,
            }),
        };
        match scan.offer(item) {
            ScanAction::Inspect(pending) => {
                scan.record(pending, Err(Error::Io("denied".to_owned())));
            }
            _ => panic!("not inspected"),
        }
    }
    let (files, notices) = scan.finish();
    let names: Vec<String> = files.iter().map(|file| text_of(&file.relative)).collect();
    assert_eq!(names, ["a.txt", "b.txt"]);
    assert!(files
        .iter()
        .all(|file| file.text == TextEligibility::Unreadable));
    assert_eq!(notices.len(), 4);
    assert_eq!(notices[0], "no entry");
    assert!(notices[1].contains("b.txt") && notices[1].contains("denied"));
}

#[test]
fn a_file_is_hashed_from_its_path_and_metadata() {
    let first = file_hash(b"src/a", 7, Some(9), 1, 2);
    assert_eq!(first, file_hash(b"src/a", 7, Some(9), 1, 2));
    let others = [
        file_hash(b"src/b", 7, Some(9), 1, 2),
        file_hash(b"src/a", 8, Some(9), 1, 2),
        file_hash(b"src/a", 7, Some(10), 1, 2),
        file_hash(b"src/a", 7, None, 1, 2),
        file_hash(b"src/a", 7, Some(9), 2, 2),
        file_hash(b"src/a", 7, Some(9), 1, 1),
    ];
    for other in others {
        assert_ne!(first, other);
    }
    assert_ne!(
        workspace_fingerprint(&vec![5, first, 8]),
        workspace_fingerprint(&vec![5, others[1], 8])
    );
}

#[test]
fn only_regular_files_below_the_root_are_hashed() {
    let found = |path: &str| WalkItem::File {
        path: path.as_bytes().to_vec(),
        metadata: Ok(FileMetadata {
            size: 7,
            modified_unix_ns: Some(9),
        }),
    };
    assert_eq!(
        item_hash(b"/p", &found("/p/src/a"), 1, 2),
        Some(file_hash(b"src/a", 7, Some(9), 1, 2))
    );
    assert_eq!(item_hash(b"/p", &found("/other/a"), 1, 2), None);
    let unread = WalkItem::File {
        path: b"/p/src/a".to_vec(),
        metadata: Err("gone".to_owned()),
    };
    assert_eq!(item_hash(b"/p", &unread, 1, 2), None);
    assert_eq!(item_hash(b"/p", &WalkItem::NotAFile, 1, 2), None);
    assert_eq!(item_hash(b"/p", &WalkItem::Untyped, 1, 2), None);
    assert_eq!(item_hash(b"/p", &WalkItem::Failed("lost".to_owned()), 1, 2), None);
}

#[test]
fn a_fingerprint_does_not_depend_on_the_order() {
    assert_eq!(
        workspace_fingerprint(&vec![1, u64::MAX, 7]),
        workspace_fingerprint(&vec![7, 1, u64::MAX])
    );
    assert_eq!(workspace_fingerprint(&vec![1, u64::MAX, 7]), (7, 3));
    assert_eq!(workspace_fingerprint(&Vec::new()), (0, 0));
}

#[test]
fn generated_directories_are_never_looked_at() {
    for name in [
        ".git",
        ".hg",
        ".svn",
        "node_modules",
        "target",
        "dist",
        ".next",
        ".cache",
    ] {
        assert!(is_always_ignored(true, name.as_bytes()));
        assert!(!is_always_ignored(false, name.as_bytes()));
    }
    assert!(!is_always_ignored(true, b"src"));
}

#[test]
fn text_is_told_from_what_is_not() {
    let content = |bytes: &[u8]| match inspect_file(bytes.len() as u64, Some(Ok(bytes.to_vec()))) {
        InspectStep::Finished(Ok(text)) => text,
        step => panic!("{step:?}"),
    };
    assert_eq!(content("grüße".as_bytes()), TextEligibility::Text);
    assert_eq!(content(b""), TextEligibility::Text);
    assert_eq!(content(b"\0"), TextEligibility::Binary);
    assert_eq!(content(b"\xc3"), TextEligibility::InvalidUtf8);
    let grown = vec![b'a'; INLINE_TEXT_LIMIT as usize + 1];
    match inspect_file(1, Some(Ok(grown))) {
        InspectStep::Finished(Ok(text)) => assert_eq!(text, TextEligibility::Oversized),
        step => panic!("{step:?}"),
    }
    match inspect_file(1, Some(Err(Error::Io("gone".to_owned())))) {
        InspectStep::Finished(Err(error)) => assert_eq!(error.text(), "gone"),
        step => panic!("{step:?}"),
    }
}
