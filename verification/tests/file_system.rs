use memfs::directory::{GetAction, GetDirError, GetError, GetFileError, GetType};
use memfs::node::Node;
use memfs::traits::{Child, Count, Located, Named, Root};
use memfs::FileSystem;

#[test]
fn empty_fs() {
    let fs: FileSystem<u32, u32> = FileSystem::new();
    let root = fs.root();

    assert!(root.is_root(&fs));
    assert_eq!(root.count(&fs), 0);
}

#[test]
fn get() {
    let mut fs: FileSystem<u32, u32> = FileSystem::new();
    let root = fs.root();
    let file = root.get_file_default(&mut fs, "/test_1/test_2").unwrap();
    assert_eq!(file.is_root(&fs), false);

    let value = *file.read(&fs);
    assert_eq!(value, 0);

    file.write(&mut fs, value + 1);

    let value = *file.read(&fs);
    assert_eq!(value, 1);

    let intermediate = root.get_dir(&mut fs, "/test_1").unwrap();

    match intermediate {
        Some(_) => assert!(true),
        _ => assert!(false),
    }

    assert_eq!(String::from("/test_1/test_2"), file.path(&fs));
}

#[test]
fn count_empty() {
    let fs: FileSystem<(), ()> = FileSystem::new();
    let dir = fs.root();

    assert_eq!(dir.count(&fs), 0);
    assert_eq!(dir.count_dir(&fs), 0);
    assert_eq!(dir.count_file(&fs), 0);
}

#[test]
fn directory_count_empty() {
    let fs: FileSystem<(), ()> = FileSystem::new();
    let dir = fs.root();

    assert_eq!(dir.count(&fs), 0);
    assert_eq!(dir.count_dir(&fs), 0);
    assert_eq!(dir.count_file(&fs), 0);
}

#[test]
fn root_invariants() {
    let fs: FileSystem<u32, u32> = FileSystem::new();
    let root = fs.root();

    assert!(root.is_root(&fs));
    assert!(root.parent(&fs).is_none());
    assert!(root.name(&fs).is_none());
    assert_eq!(root.count(&fs), 0);
    assert_eq!(root.path(&fs), String::from("/"));
}

#[test]
fn idempotent_creation() {
    let mut fs: FileSystem<u32, u32> = FileSystem::new();
    let root = fs.root();

    let first = root.get_file_default(&mut fs, "/a/b").unwrap();
    let second = root.get_file_default(&mut fs, "/a/b").unwrap();
    assert_eq!(first, second);

    // Exactly one directory `a` under the root, holding exactly one file.
    assert_eq!(root.count(&fs), 1);
    assert_eq!(root.count_dir(&fs), 1);
    let a = root.get_dir(&mut fs, "a").unwrap().unwrap();
    assert_eq!(a.count(&fs), 1);
    assert_eq!(a.count_file(&fs), 1);
}

#[test]
fn round_trip_path() {
    let mut fs: FileSystem<u32, u32> = FileSystem::new();
    let root = fs.root();

    let created = root.get_file_default(&mut fs, "/x/y/z.txt").unwrap();
    let resolved = root.get_file(&mut fs, "/x/y/z.txt").unwrap();
    assert_eq!(resolved, Some(created));
    assert_eq!(created.path(&fs), String::from("/x/y/z.txt"));
}

#[test]
fn type_mismatch() {
    let mut fs: FileSystem<u32, u32> = FileSystem::new();
    let root = fs.root();

    root.get_dir_default(&mut fs, "/x").unwrap();
    let r = root.get_file(&mut fs, "/x");
    assert!(matches!(r, Err(GetFileError::UnexpectedDirectory)));

    root.get_file_default(&mut fs, "/f").unwrap();
    let r = root.get_dir(&mut fs, "/f");
    assert!(matches!(r, Err(GetDirError::UnexpectedFile)));
}

#[test]
fn orphan_parent() {
    let mut fs: FileSystem<u32, u32> = FileSystem::new();
    let root = fs.root();

    let r = root.get(&mut fs, "..", GetType::Directory);
    assert!(matches!(r, Err(GetError::UnexpectedOrphan)));
}

#[test]
fn unexpected_root() {
    let mut fs: FileSystem<u32, u32> = FileSystem::new();
    let root = fs.root();

    let sub = root.get_dir_default(&mut fs, "/sub").unwrap();
    let r = sub.get(&mut fs, "/", GetType::Directory);
    assert!(matches!(r, Err(GetError::UnexpectedRoot)));

    // From the root itself, `/` resolves to the root.
    let r = root.get(&mut fs, "/", GetType::Directory).unwrap();
    assert_eq!(r, Some(Node::Directory(root)));
}

#[test]
fn parent_walks_up() {
    let mut fs: FileSystem<u32, u32> = FileSystem::new();
    let root = fs.root();

    let a = root.get_dir_default(&mut fs, "/a").unwrap();
    let b = a.get_dir_default(&mut fs, "b").unwrap();
    assert_eq!(b.parent(&fs), Some(a));
    assert_eq!(a.parent(&fs), Some(root));

    let r = b.get(&mut fs, "..", GetType::Directory).unwrap();
    assert_eq!(r, Some(Node::Directory(a)));
    let r = b.get(&mut fs, "../..", GetType::Directory).unwrap();
    assert_eq!(r, Some(Node::Directory(root)));
}

#[test]
fn missing_segment_policies() {
    let mut fs: FileSystem<u32, u32> = FileSystem::new();
    let root = fs.root();

    // Missing endpoint under the none policy: nothing found, no error.
    let r = root.get(&mut fs, "/nope", GetType::File);
    assert!(matches!(r, Ok(None)));

    // Missing intermediate under the none policy: nothing found either.
    let r = root.get(&mut fs, "/nope/deeper", GetType::File);
    assert!(matches!(r, Ok(None)));

    // The error policy distinguishes the two positions.
    let r = root.get_node(
        &mut fs,
        "/nope",
        GetAction::ReturnError,
        GetAction::ReturnError,
        GetType::File,
    );
    assert!(matches!(r, Err(GetError::EndpointNotFound)));

    let r = root.get_node(
        &mut fs,
        "/nope/deeper",
        GetAction::ReturnError,
        GetAction::ReturnError,
        GetType::File,
    );
    assert!(matches!(r, Err(GetError::IntermediateNotFound)));

    // Mixed policies: create intermediates, but fail on a missing endpoint.
    let r = root.get_node(
        &mut fs,
        "/made/here",
        GetAction::CreateDefault,
        GetAction::ReturnError,
        GetType::File,
    );
    assert!(matches!(r, Err(GetError::EndpointNotFound)));
    // The intermediate created before the failure is kept.
    assert!(root.get_dir(&mut fs, "/made").unwrap().is_some());
}

#[test]
fn intermediate_created_as_directory() {
    let mut fs: FileSystem<u32, u32> = FileSystem::new();
    let root = fs.root();

    // Even when the endpoint kind is File, intermediates are directories.
    root.get_file_default(&mut fs, "/p/q").unwrap();
    let p = root.get_dir(&mut fs, "/p").unwrap();
    assert!(p.is_some());
    assert_eq!(root.count_dir(&fs), 1);
    assert_eq!(root.count_file(&fs), 0);
}

#[test]
fn walk_through_file_fails() {
    let mut fs: FileSystem<u32, u32> = FileSystem::new();
    let root = fs.root();

    root.get_file_default(&mut fs, "/f").unwrap();
    let r = root.get(&mut fs, "/f/under", GetType::File);
    assert!(matches!(r, Err(GetError::UnexpectedFile)));
}

#[test]
fn counts_by_kind() {
    let mut fs: FileSystem<u32, u32> = FileSystem::new();
    let root = fs.root();

    root.get_dir_default(&mut fs, "/d1").unwrap();
    root.get_dir_default(&mut fs, "/d2").unwrap();
    root.get_file_default(&mut fs, "/f1").unwrap();
    root.get_file_default(&mut fs, "/f2").unwrap();
    root.get_file_default(&mut fs, "/f3").unwrap();

    assert_eq!(root.count(&fs), 5);
    assert_eq!(root.count_dir(&fs), 2);
    assert_eq!(root.count_file(&fs), 3);
}

#[test]
fn distinct_cells_do_not_interfere() {
    let mut fs: FileSystem<u32, u32> = FileSystem::new();
    let root = fs.root();

    let f1 = root.get_file_default(&mut fs, "/one").unwrap();
    let f2 = root.get_file_default(&mut fs, "/two").unwrap();

    f1.write(&mut fs, 11);
    f2.write(&mut fs, 22);
    assert_eq!(*f1.read(&fs), 11);
    assert_eq!(*f2.read(&fs), 22);

    // Two writes to the same cell compose in order; the last one wins.
    let old = f1.write(&mut fs, 33);
    assert_eq!(old, 11);
    assert_eq!(*f1.read(&fs), 33);
    assert_eq!(*f2.read(&fs), 22);

    // Directory payloads are cells too.
    let d = root.get_dir_default(&mut fs, "/dir").unwrap();
    assert_eq!(*d.read(&fs), 0);
    d.write(&mut fs, 7);
    assert_eq!(*d.read(&fs), 7);
    assert_eq!(*f1.read(&fs), 33);
}

#[test]
fn node_identity_queries() {
    let mut fs: FileSystem<u32, u32> = FileSystem::new();
    let root = fs.root();

    let file = root.get_file_default(&mut fs, "/x/y/z.txt").unwrap();
    assert_eq!(file.name(&fs), Some(String::from("z.txt")));
    assert!(!file.is_root(&fs));

    let y = file.parent(&fs).unwrap();
    assert_eq!(y.name(&fs), Some(String::from("y")));
    assert_eq!(y.path(&fs), String::from("/x/y"));

    let node = root.get(&mut fs, "/x/y", GetType::Directory).unwrap().unwrap();
    assert_eq!(node, Node::Directory(y));
    assert_eq!(node.name(&fs), Some(String::from("y")));
    assert_eq!(node.path(&fs), String::from("/x/y"));
    assert!(!node.is_root(&fs));
}

#[test]
fn relative_and_dot_paths() {
    let mut fs: FileSystem<u32, u32> = FileSystem::new();
    let root = fs.root();

    let a = root.get_dir_default(&mut fs, "a").unwrap();
    let b = a.get_dir_default(&mut fs, "./b").unwrap();
    assert_eq!(b.path(&fs), String::from("/a/b"));

    // An empty path resolves to the starting node itself.
    let r = a.get(&mut fs, "", GetType::Directory).unwrap();
    assert_eq!(r, Some(Node::Directory(a)));

    // `.` alone does the same.
    let r = a.get(&mut fs, ".", GetType::Directory).unwrap();
    assert_eq!(r, Some(Node::Directory(a)));

    // A trailing slash and repeated slashes change nothing.
    let r = root.get(&mut fs, "/a//b/", GetType::Directory).unwrap();
    assert_eq!(r, Some(Node::Directory(b)));
}

#[test]
fn default_constructions() {
    let fs: FileSystem<u32, u32> = FileSystem::default();
    let root = fs.root();
    assert!(root.is_root(&fs));
    assert_eq!(root.count(&fs), 0);

    assert!(matches!(GetType::default(), GetType::Directory));
    assert!(matches!(GetAction::default(), GetAction::ReturnNone));
}
