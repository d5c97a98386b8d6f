use boxxy::fs::{FsDriver, SymlinkOutcome, SymlinkWalk, MAX_SYMLINK_DEPTH};
use boxxy::paths::{ancestors, append_all, file_name, parent_dir, path_starts_with, strip_root};

#[test]
fn test_append_all() {
    let buf = "/tmp";
    let parts = vec!["foo", "bar", "baz"];
    let expected = "/tmp/foo/bar/baz".to_string();
    assert_eq!(append_all(buf, parts), expected);
}

#[test]
fn append_all_strips_leading_slash_of_absolute_part() {
    assert_eq!(append_all("/tmp/root", vec!["/etc/passwd"]), "/tmp/root/etc/passwd");
}

#[test]
fn container_root_is_under_containers_dir() {
    let fs = FsDriver::new();
    assert_eq!(fs.all_containers_root(), "/tmp/boxxy-containers");
    assert_eq!(fs.container_root("bold-snow-1234"), "/tmp/boxxy-containers/bold-snow-1234");
}

#[test]
fn append_all_to_root_ending_in_slash() {
    assert_eq!(append_all("/", vec!["/etc"]), "/etc");
    assert_eq!(append_all("/tmp/", vec!["a"]), "/tmp/a");
}

#[test]
fn append_all_relative_and_empty_parts() {
    assert_eq!(append_all("", vec!["a", "b"]), "a/b");
    assert_eq!(append_all("/tmp", vec![""]), "/tmp/");
    assert_eq!(append_all("/tmp", Vec::<&str>::new()), "/tmp");
}

#[test]
fn joined_absolute_path_lies_under_root() {
    let root = "/tmp/boxxy-containers/n";
    let joined = append_all(root, vec!["/home/u/.aws"]);
    assert_eq!(joined, "/tmp/boxxy-containers/n/home/u/.aws");
    assert!(path_starts_with(&joined, root));
}

#[test]
fn file_name_takes_last_component() {
    assert_eq!(file_name("/usr/bin/ls"), Some("ls".to_string()));
    assert_eq!(file_name("ls"), Some("ls".to_string()));
    assert_eq!(file_name("/usr/bin/"), Some("bin".to_string()));
    assert_eq!(file_name("/"), None);
    assert_eq!(file_name(""), None);
    assert_eq!(file_name("/usr/.."), None);
}

#[test]
fn path_prefix_respects_component_boundaries() {
    assert!(path_starts_with("/tmp/ctx-yes", "/tmp/ctx-yes"));
    assert!(path_starts_with("/tmp/ctx-yes/sub", "/tmp/ctx-yes"));
    assert!(!path_starts_with("/tmp/ctx-yes2", "/tmp/ctx-yes"));
    assert!(!path_starts_with("/tmp/ctx-no", "/tmp/ctx-yes"));
    assert!(path_starts_with("/anything", "/"));
    assert!(!path_starts_with("/tmp", "/tmp/ctx-yes"));
}

#[test]
fn parent_dir_walks_up() {
    assert_eq!(parent_dir("/home/u/p"), Some("/home/u".to_string()));
    assert_eq!(parent_dir("/home"), Some("/".to_string()));
    assert_eq!(parent_dir("/"), None);
    assert_eq!(parent_dir("a"), Some(String::new()));
    assert_eq!(parent_dir(""), None);
    assert_eq!(parent_dir("/a//b/"), Some("/a".to_string()));
}

#[test]
fn ancestors_nearest_first() {
    let a = ancestors("/home/u/p");
    assert_eq!(a, vec!["/home/u/p", "/home/u", "/home", "/"]);
}

#[test]
fn strip_root_drops_root_and_separator() {
    assert_eq!(strip_root("/tmp/r/etc/hostname", "/tmp/r"), "etc/hostname");
    assert_eq!(strip_root("/tmp/r", "/tmp/r"), "");
}

#[test]
fn tilde_expansion_uses_given_home() {
    let fs = FsDriver::new();
    assert_eq!(fs.expand_tilde("~/.aws", Some("/home/u")), "/home/u/.aws");
    assert_eq!(fs.expand_tilde("~", Some("/home/u")), "/home/u");
    assert_eq!(fs.expand_tilde("~other/x", Some("/home/u")), "~other/x");
    assert_eq!(fs.expand_tilde("/etc/~", Some("/home/u")), "/etc/~");
    assert_eq!(fs.expand_tilde("~/.aws", None), "~/.aws");
}

#[test]
fn symlink_walk_resolves_a_chain() {
    let mut w = SymlinkWalk::new("/a".to_string());
    assert_eq!(w.current(), "/a");
    w.answer(Some("/b".to_string()));
    assert!(w.outcome().is_none());
    assert_eq!(w.current(), "/b");
    w.answer(None);
    assert!(matches!(w.outcome(), Some(SymlinkOutcome::Resolved(p)) if p == "/b"));
}

#[test]
fn symlink_walk_of_non_link_returns_it() {
    let mut w = SymlinkWalk::new("/plain".to_string());
    w.answer(None);
    assert!(matches!(w.outcome(), Some(SymlinkOutcome::Resolved(p)) if p == "/plain"));
}

#[test]
fn symlink_cycle_gives_up_within_bound() {
    // "/x" -> "/y" -> "/x" -> ...
    let mut w = SymlinkWalk::new("/x".to_string());
    let mut answers = 0u32;
    while w.outcome().is_none() {
        let next = if w.current() == "/x" { "/y" } else { "/x" };
        w.answer(Some(next.to_string()));
        answers += 1;
        assert!(answers <= MAX_SYMLINK_DEPTH + 2);
    }
    assert_eq!(answers, MAX_SYMLINK_DEPTH + 2);
    assert!(matches!(w.outcome(), Some(SymlinkOutcome::TooManyLinks(_))));
}

#[test]
fn symlink_chain_of_eleven_links_resolves() {
    let mut w = SymlinkWalk::new("/l0".to_string());
    for k in 1..=11 {
        w.answer(Some(format!("/l{k}")));
    }
    w.answer(None);
    assert!(matches!(w.outcome(), Some(SymlinkOutcome::Resolved(p)) if p == "/l11"));
}
