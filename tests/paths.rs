use sftp_bridge::entry::{list_entries, EntryKind, RawEntry};
use sftp_bridge::error::{reply, ErrorKind, OpError};
use sftp_bridge::path::{
    ancestor_dirs, child_name, contains_separator, file_name, is_dot_entry, join, parent, rename_target,
    to_forward_slashes,
};
use sftp_bridge::registry::Registry;

fn raw(path: &str, is_dir: bool, size: Option<u64>) -> RawEntry {
    RawEntry { path: path.to_string(), is_dir, size }
}

#[test]
fn file_name_takes_last_component() {
    assert_eq!(file_name("/a/b/file.txt"), Some("file.txt".to_string()));
    assert_eq!(file_name("/a/b/"), Some("b".to_string()));
    assert_eq!(file_name("name"), Some("name".to_string()));
    assert_eq!(file_name("/"), None);
    assert_eq!(file_name(""), None);
    assert_eq!(file_name("/a/.."), None);
    assert_eq!(file_name("/a/."), Some("a".to_string()));
    assert_eq!(file_name("/a/b/./"), Some("b".to_string()));
    assert_eq!(file_name("."), None);
    assert_eq!(file_name("/."), None);
}

#[test]
fn parent_defaults_to_root() {
    assert_eq!(parent("/a/b/file.txt"), "/a/b");
    assert_eq!(parent("/a/b/"), "/a");
    assert_eq!(parent("/x"), "/");
    assert_eq!(parent("x"), "/");
    assert_eq!(parent("/"), "/");
    assert_eq!(parent("/a/b/."), "/a");
}

#[test]
fn join_puts_one_separator() {
    assert_eq!(join("/a", "b"), "/a/b");
    assert_eq!(join("/a/", "b"), "/a/b");
    assert_eq!(join("/", "b"), "/b");
    assert_eq!(join("", "b"), "b");
}

#[test]
fn ancestors_from_the_root_down() {
    assert_eq!(ancestor_dirs("/a/b/c"), vec!["/a", "/a/b", "/a/b/c"]);
    assert_eq!(ancestor_dirs("a//b/./c/"), vec!["/a", "/a/b", "/a/b/c"]);
    assert!(ancestor_dirs("/").is_empty());
    assert!(ancestor_dirs("").is_empty());
}

#[test]
fn separators_are_detected_and_normalised() {
    assert!(contains_separator("x/y.txt"));
    assert!(contains_separator("x\\y.txt"));
    assert!(!contains_separator("new.txt"));
    assert_eq!(to_forward_slashes("\\data\\in"), "/data/in");
    assert!(is_dot_entry(".") && is_dot_entry(".."));
    assert!(!is_dot_entry("...") && !is_dot_entry(".a"));
}

#[test]
fn rename_stays_in_the_same_directory() {
    assert_eq!(rename_target("/a/b/file.txt", "new.txt").unwrap(), "/a/b/new.txt");
    assert_eq!(rename_target("file.txt", "new.txt").unwrap(), "/new.txt");
}

#[test]
fn rename_refuses_separators() {
    let e = rename_target("/a/b/file.txt", "x/y.txt").unwrap_err();
    assert_eq!(e.kind, ErrorKind::InvalidArgument);
    assert_eq!(reply(&Err(e)), "ERR: Invalid new name: cannot contain '/' or '\\'");
    let e = rename_target("/a/b/file.txt", "x\\y.txt").unwrap_err();
    assert_eq!(e.kind, ErrorKind::InvalidArgument);
}

#[test]
fn listing_of_file_and_dir() {
    let raws = vec![
        raw("/d/.", true, None),
        raw("/d/..", true, None),
        raw("/d/file.bin", false, Some(1024)),
        raw("/d/sub", true, Some(4096)),
    ];
    let list = list_entries(&raws);
    assert_eq!(list.len(), 2);
    assert_eq!(list[0].kind, EntryKind::File);
    assert_eq!(list[0].name, "file.bin");
    assert_eq!(list[0].size, Some(1024));
    assert_eq!(list[1].kind, EntryKind::Dir);
    assert_eq!(list[1].name, "sub");
    assert_eq!(list[1].size, None);
}

#[test]
fn listing_of_empty_dir_and_missing_size() {
    assert!(list_entries(&vec![]).is_empty());
    let list = list_entries(&vec![raw("/d/f", false, None)]);
    assert_eq!(list[0].kind, EntryKind::File);
    assert_eq!(list[0].size, None);
}

#[test]
fn replies_are_ok_or_err() {
    assert_eq!(reply(&Ok(())), "OK");
    let e = OpError::new(ErrorKind::RemoteOp, "boom").with_context("Delete failed");
    assert_eq!(e.message, "Delete failed: boom");
    assert_eq!(reply(&Err(e)), "ERR: Delete failed: boom");
}

#[test]
fn registry_lifecycle() {
    let mut reg: Registry<u32> = Registry::new();
    assert_eq!(reg.session().unwrap_err().kind, ErrorKind::NotConnected);
    assert_eq!(reply(&Err(reg.session().unwrap_err())), "ERR: Not connected");
    assert_eq!(reg.install(7), None);
    assert_eq!(*reg.session().unwrap(), 7);
    assert_eq!(reg.install(8), Some(7));
    assert_eq!(*reg.session().unwrap(), 8);
    assert_eq!(reg.clear(), Some(8));
    assert!(!reg.is_connected());
    assert_eq!(reg.session().unwrap_err().kind, ErrorKind::NotConnected);
    assert_eq!(reg.clear(), None);
}

#[test]
fn joined_child_keeps_its_name() {
    for base in ["/remote/dest", "/remote/dest/", "", "/"] {
        assert_eq!(child_name(&join(base, "c.bin")), Some("c.bin".to_string()));
    }
}

#[test]
fn child_names_skip_dot_entries() {
    assert_eq!(child_name("/d/f.txt"), Some("f.txt".to_string()));
    assert_eq!(child_name("/d/sub/"), Some("sub".to_string()));
    assert_eq!(child_name("/d/."), None);
    assert_eq!(child_name("/d/.."), None);
    assert_eq!(child_name("/"), None);
}
