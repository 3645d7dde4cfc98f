use memfs::directory::{GetAction, GetError, GetPosition, GetType};
use memfs::path::{parse, Component};
use memfs::FileSystem;

fn normal(name: &str) -> Component {
    Component::Normal(String::from(name))
}

#[test]
fn parse_absolute() {
    assert_eq!(
        parse("/a/b/c"),
        vec![Component::RootDir, normal("a"), normal("b"), normal("c")]
    );
}

#[test]
fn parse_normalizes() {
    // Repeated separators, inner `.` segments and a trailing separator
    // all disappear.
    assert_eq!(
        parse("/a//b/./c/"),
        vec![Component::RootDir, normal("a"), normal("b"), normal("c")]
    );
}

#[test]
fn parse_empty_and_dots() {
    assert_eq!(parse(""), vec![]);
    assert_eq!(parse("."), vec![Component::CurDir]);
    assert_eq!(parse("./a"), vec![Component::CurDir, normal("a")]);
    assert_eq!(parse(".."), vec![Component::ParentDir]);
    assert_eq!(parse("a/.."), vec![normal("a"), Component::ParentDir]);
    // `.` survives only at the start of a relative path.
    assert_eq!(parse("a/."), vec![normal("a")]);
    assert_eq!(parse("/."), vec![Component::RootDir]);
    // A name that merely starts with a dot is an ordinary name.
    assert_eq!(parse(".hidden"), vec![normal(".hidden")]);
}

#[test]
fn parse_root_only() {
    assert_eq!(parse("/"), vec![Component::RootDir]);
    assert_eq!(parse("//a"), vec![Component::RootDir, normal("a")]);
}

#[test]
fn prefix_is_rejected_by_the_walk() {
    // No string parses to a prefix, but a caller-built component sequence
    // can hold one; the walk answers with the documented error.
    let mut fs: FileSystem<u32, u32> = FileSystem::new();
    let root = fs.root();
    let comps = vec![Component::Prefix, normal("a")];
    let r = root.get_components(
        &mut fs,
        &comps,
        GetAction::CreateDefault,
        GetAction::CreateDefault,
        GetType::Directory,
    );
    assert!(matches!(r, Err(GetError::UnexpectedPrefix)));
}

#[test]
fn components_walk_matches_string_walk() {
    let mut fs: FileSystem<u32, u32> = FileSystem::new();
    let root = fs.root();
    let by_string = root
        .get_node(
            &mut fs,
            "/k/l",
            GetAction::CreateDefault,
            GetAction::CreateDefault,
            GetType::File,
        )
        .unwrap();
    let comps = vec![Component::RootDir, normal("k"), normal("l")];
    let by_components = root
        .get_components(
            &mut fs,
            &comps,
            GetAction::ReturnNone,
            GetAction::ReturnNone,
            GetType::File,
        )
        .unwrap();
    assert_eq!(by_string, by_components);
}

#[test]
fn position_from_next() {
    let next = normal("b");
    assert_eq!(GetPosition::from_next(Some(&next)), GetPosition::Parent);
    assert_eq!(GetPosition::from_next(None), GetPosition::Child);
}
