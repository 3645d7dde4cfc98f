use memfs::data::Value;
use memfs::directory::Directory;
use memfs::reference::ParentRef;
use memfs::FileSystem;

#[test]
fn from_option_takes_the_value_or_the_default() {
    let cell: Value<u32> = Value::from_option(Some(5));
    assert_eq!(*cell.read(), 5);

    let cell: Value<u32> = Value::from_option(None);
    assert_eq!(*cell.read(), 0);

    let cell: Value<bool> = Value::from_option(None);
    assert_eq!(*cell.read(), false);
}

#[test]
fn value_write_returns_the_old_payload() {
    let mut cell: Value<u64> = Value::from_option(Some(3));
    let old = cell.write(9);
    assert_eq!(old, 3);
    assert_eq!(*cell.read(), 9);
    assert_eq!(cell.into_inner(), 9);
}

#[test]
fn parent_ref_carries_name_and_directory() {
    let fs: FileSystem<u32, u32> = FileSystem::new();
    let root: Directory = fs.root();
    let edge = ParentRef::Directory(String::from("child"), root);
    assert_eq!(edge.name(), String::from("child"));
    assert_eq!(edge.directory(), root);
}
