use file_picker::entry::{resolve, FileSystemType, LinkTarget, RawEntry, RawFileType};
use file_picker::error::PickerError;
use file_picker::explorer::FilesExplorerState;

fn s(x: &str) -> String {
    x.to_string()
}

fn dir(path: &str, name: &str) -> Option<RawEntry> {
    Some(RawEntry { path: s(path), name: Some(s(name)), file_type: Some(RawFileType::Directory), target: None })
}

fn file(path: &str, name: &str) -> Option<RawEntry> {
    Some(RawEntry { path: s(path), name: Some(s(name)), file_type: Some(RawFileType::File), target: None })
}

fn listing(entries: Vec<Option<RawEntry>>) -> Result<Vec<Option<RawEntry>>, String> {
    Ok(entries)
}

fn at(path: &str, entries: Vec<Option<RawEntry>>) -> FilesExplorerState {
    FilesExplorerState::init_at(s(path), false, listing(entries))
}

#[test]
fn cannot_go_back_after_init() {
    let e = at("/a", vec![dir("/a/b", "b")]);
    assert!(!e.can_go_back());
    assert!(!e.can_go_forward());
    assert_eq!(e.current(), "/a");
}

#[test]
fn back_restores_previous_directory() {
    let mut e = at("/a", vec![dir("/a/b", "b")]);
    assert_eq!(e.enter_dir(s("/a/b")), Ok(()));
    e.reload(listing(vec![]));
    assert!(e.can_go_back());
    assert_eq!(e.current(), "/a/b");
    assert_eq!(e.go_back(), Ok(()));
    assert_eq!(e.current(), "/a");
    assert!(e.can_go_forward());
    assert_eq!(e.go_forward(), Ok(()));
    assert_eq!(e.current(), "/a/b");
}

#[test]
fn new_navigation_drops_forward_branch() {
    let mut e = at("/A", vec![dir("/B", "B"), dir("/D", "D")]);
    assert_eq!(e.enter_dir(s("/B")), Ok(()));
    e.reload(listing(vec![dir("/C", "C")]));
    assert_eq!(e.enter_dir(s("/C")), Ok(()));
    e.reload(listing(vec![]));
    assert_eq!(e.current(), "/C");
    assert_eq!(e.go_back(), Ok(()));
    assert_eq!(e.go_back(), Ok(()));
    assert_eq!(e.current(), "/A");
    assert!(!e.can_go_back());
    e.reload(listing(vec![dir("/B", "B"), dir("/D", "D")]));
    assert_eq!(e.enter_dir(s("/D")), Ok(()));
    assert_eq!(e.current(), "/D");
    assert!(!e.can_go_forward());
    assert!(e.can_go_back());
    assert_eq!(e.go_back(), Ok(()));
    assert_eq!(e.current(), "/A");
    assert!(!e.can_go_back());
    assert_eq!(e.go_forward(), Ok(()));
    assert_eq!(e.current(), "/D");
    assert_eq!(e.go_forward(), Err(PickerError::InvalidOperation));
}

#[test]
fn replayed_navigation_follows_browser_history() {
    let mut e = at("/r", vec![dir("/r/a", "a")]);
    e.enter_dir(s("/r/a")).unwrap();
    e.reload(listing(vec![dir("/r/a/b", "b")]));
    e.enter_dir(s("/r/a/b")).unwrap();
    e.reload(listing(vec![]));
    e.go_up().unwrap();
    assert_eq!(e.current(), "/r/a");
    e.reload(listing(vec![]));
    e.go_back().unwrap();
    assert_eq!(e.current(), "/r/a/b");
    e.go_back().unwrap();
    assert_eq!(e.current(), "/r/a");
    e.go_back().unwrap();
    assert_eq!(e.current(), "/r");
    assert_eq!(e.go_back(), Err(PickerError::InvalidOperation));
    e.go_forward().unwrap();
    e.go_forward().unwrap();
    e.go_forward().unwrap();
    assert_eq!(e.current(), "/r/a");
    assert!(!e.can_go_forward());
}

#[test]
fn go_up_at_root_is_refused() {
    let mut e = at("/", vec![dir("/usr", "usr")]);
    assert!(e.is_root());
    assert_eq!(e.go_up(), Err(PickerError::InvalidOperation));
    assert_eq!(e.current(), "/");
    assert!(!e.can_go_back());
}

#[test]
fn go_up_moves_to_parent() {
    let mut e = at("/home/user/docs", vec![]);
    assert!(!e.is_root());
    assert_eq!(e.go_up(), Ok(()));
    assert_eq!(e.current(), "/home/user");
    e.reload(listing(vec![]));
    assert_eq!(e.go_up(), Ok(()));
    e.reload(listing(vec![]));
    assert_eq!(e.go_up(), Ok(()));
    assert_eq!(e.current(), "/");
    e.reload(listing(vec![]));
    assert!(e.is_root());
    assert_eq!(e.go_up(), Err(PickerError::InvalidOperation));
}

#[test]
fn enter_dir_refuses_paths_not_listed_as_directories() {
    let mut e = at("/a", vec![dir("/a/d", "d"), file("/a/f", "f")]);
    assert_eq!(e.enter_dir(s("/a/f")), Err(PickerError::InvalidOperation));
    assert_eq!(e.enter_dir(s("/elsewhere")), Err(PickerError::InvalidOperation));
    assert_eq!(e.current(), "/a");
    assert!(!e.can_go_back());
}

#[test]
fn symlink_to_directory_resolves_to_target() {
    let link = RawEntry {
        path: s("/a/link_to_dir"),
        name: Some(s("link_to_dir")),
        file_type: Some(RawFileType::Symlink),
        target: Some(LinkTarget { path: s("/srv/real_dir"), is_dir: true }),
    };
    let t = resolve(&link).unwrap();
    assert_eq!(t.kind, FileSystemType::Directory);
    assert_eq!(t.path, "/srv/real_dir");
    assert_eq!(t.name, "link_to_dir");
    let mut e = at("/a", vec![Some(link)]);
    assert_eq!(e.entries().len(), 1);
    assert_eq!(e.enter_dir(s("/srv/real_dir")), Ok(()));
    assert_eq!(e.current(), "/srv/real_dir");
}

#[test]
fn symlink_to_file_resolves_to_file() {
    let link = RawEntry {
        path: s("/a/notes"),
        name: Some(s("notes")),
        file_type: Some(RawFileType::Symlink),
        target: Some(LinkTarget { path: s("/b/notes.txt"), is_dir: false }),
    };
    let t = resolve(&link).unwrap();
    assert_eq!(t.kind, FileSystemType::File);
    assert_eq!(t.path, "/b/notes.txt");
    assert_eq!(t.name, "notes");
}

#[test]
fn broken_symlink_is_left_out() {
    let broken = RawEntry {
        path: s("/a/dangling"),
        name: Some(s("dangling")),
        file_type: Some(RawFileType::Symlink),
        target: None,
    };
    let mut e = at("/a", vec![]);
    e.reload(listing(vec![file("/a/x", "x"), Some(broken), dir("/a/y", "y")]));
    assert_eq!(e.last_error(), &None);
    let names: Vec<&str> = e.entries().iter().map(|t| t.name.as_str()).collect();
    assert_eq!(names, vec!["x", "y"]);
}

#[test]
fn unreadable_and_special_entries_are_left_out() {
    let socket = RawEntry { path: s("/a/sock"), name: Some(s("sock")), file_type: Some(RawFileType::Other), target: None };
    let untyped = RawEntry { path: s("/a/u"), name: Some(s("u")), file_type: None, target: None };
    let nameless = RawEntry { path: s("/"), name: None, file_type: Some(RawFileType::Directory), target: None };
    assert!(resolve(&socket).is_none());
    assert!(resolve(&untyped).is_none());
    assert!(resolve(&nameless).is_none());
    let e = at("/a", vec![Some(socket), None, Some(untyped), Some(nameless), file("/a/k", "k")]);
    assert_eq!(e.entries().len(), 1);
    assert_eq!(e.entries()[0].path, "/a/k");
    assert_eq!(e.entries()[0].kind, FileSystemType::File);
}

#[test]
fn failed_listing_keeps_entries_and_records_error() {
    let mut e = at("/a", vec![dir("/a/d", "d")]);
    e.reload(Err(s("permission denied")));
    assert_eq!(e.last_error(), &Some(PickerError::ListingFailed(s("permission denied"))));
    assert_eq!(e.entries().len(), 1);
    assert_eq!(e.entries()[0].name, "d");
    e.reload(listing(vec![]));
    assert_eq!(e.last_error(), &None);
    assert_eq!(e.entries().len(), 0);
}

#[test]
fn dismissing_error_clears_it() {
    let mut e = FilesExplorerState::init_at(s("/gone"), false, Err(s("not found")));
    assert!(e.last_error().is_some());
    e.dismiss_error();
    assert_eq!(e.last_error(), &None);
}

#[test]
fn single_select_keeps_last() {
    let mut e = at("/a", vec![]);
    e.toggle_selecting();
    e.toggle_selection(s("/a/x")).unwrap();
    e.toggle_selection(s("/a/y")).unwrap();
    assert_eq!(e.selection(), &vec![s("/a/y")]);
    assert!(e.is_selected(&s("/a/y")));
    assert!(!e.is_selected(&s("/a/x")));
}

#[test]
fn multi_select_toggles() {
    let mut e = FilesExplorerState::init_at(s("/a"), true, listing(vec![]));
    assert!(e.multiple());
    e.toggle_selecting();
    e.toggle_selection(s("/a/x")).unwrap();
    e.toggle_selection(s("/a/y")).unwrap();
    assert!(e.is_selected(&s("/a/x")));
    assert!(e.is_selected(&s("/a/y")));
    assert_eq!(e.selection().len(), 2);
    e.toggle_selection(s("/a/y")).unwrap();
    assert_eq!(e.selection(), &vec![s("/a/x")]);
}

#[test]
fn selection_needs_selecting_mode() {
    let mut e = at("/a", vec![]);
    assert_eq!(e.toggle_selection(s("/a/x")), Err(PickerError::InvalidOperation));
    assert!(e.selection().is_empty());
}

#[test]
fn toggling_mode_clears_selection() {
    let mut e = FilesExplorerState::init_at(s("/a"), true, listing(vec![]));
    e.toggle_selecting();
    assert!(e.is_selecting());
    e.toggle_selection(s("/a/x")).unwrap();
    e.toggle_selecting();
    assert!(!e.is_selecting());
    assert!(e.selection().is_empty());
    e.toggle_selecting();
    assert!(e.selection().is_empty());
}

#[test]
fn submit_while_browsing_is_refused() {
    let mut e = at("/a", vec![dir("/a/d", "d")]);
    assert_eq!(e.submit(), Err(PickerError::InvalidOperation));
    assert!(!e.is_selecting());
    assert_eq!(e.current(), "/a");
    assert_eq!(e.entries().len(), 1);
}

#[test]
fn submit_hands_out_selection() {
    let mut e = FilesExplorerState::init_at(s("/a"), true, listing(vec![]));
    e.toggle_selecting();
    e.toggle_selection(s("/a/x")).unwrap();
    e.toggle_selection(s("/a/y")).unwrap();
    let mut out = e.submit().unwrap();
    out.sort();
    assert_eq!(out, vec![s("/a/x"), s("/a/y")]);
    assert!(e.selection().is_empty());
    assert!(!e.is_selecting());
    assert_eq!(e.submit(), Err(PickerError::InvalidOperation));
}

#[test]
fn click_while_browsing_opens_directories_only() {
    let mut e = at("/a", vec![dir("/a/d", "d"), file("/a/f", "f")]);
    let d = e.entries()[0].clone();
    let f = e.entries()[1].clone();
    assert_eq!(e.activate(&f), Ok(false));
    assert_eq!(e.current(), "/a");
    assert_eq!(e.activate(&d), Ok(true));
    assert_eq!(e.current(), "/a/d");
    assert!(e.can_go_back());
}

#[test]
fn click_on_unlisted_directory_is_refused() {
    let mut e = at("/a", vec![]);
    let ghost = file_picker::entry::TypedPathBuf::new(FileSystemType::Directory, s("/zz"), s("zz"));
    assert_eq!(e.activate(&ghost), Err(PickerError::InvalidOperation));
    assert_eq!(e.current(), "/a");
}

#[test]
fn click_while_selecting_toggles_selection() {
    let mut e = at("/a", vec![dir("/a/d", "d"), file("/a/f", "f")]);
    let d = e.entries()[0].clone();
    let f = e.entries()[1].clone();
    e.toggle_selecting();
    assert_eq!(e.activate(&d), Ok(false));
    assert_eq!(e.current(), "/a");
    assert!(e.is_selected(&s("/a/d")));
    assert_eq!(e.activate(&f), Ok(false));
    assert_eq!(e.selection(), &vec![s("/a/f")]);
    assert_eq!(e.activate(&f), Ok(false));
    assert!(e.selection().is_empty());
}
