use dirscope::listing::{Entry, EntryKind};
use dirscope::nav::{join_path, nav_step, NavState, Selection};

fn entry(name: &str, kind: EntryKind) -> Entry {
    Entry { name: name.to_string(), size: "0 B".to_string(), kind }
}

#[test]
fn joins_base_and_name() {
    assert_eq!(join_path(".", "sub"), "./sub");
    assert_eq!(join_path("./sub", "deeper"), "./sub/deeper");
}

#[test]
fn empty_listing_terminates() {
    let entries: Vec<Entry> = vec![];
    let next = nav_step(".", &entries, Selection::Quit);
    assert!(matches!(next, NavState::Terminated));
}

#[test]
fn quit_terminates() {
    let entries = vec![entry("sub", EntryKind::Directory)];
    let next = nav_step(".", &entries, Selection::Quit);
    assert!(matches!(next, NavState::Terminated));
}

#[test]
fn choosing_a_directory_descends() {
    let entries = vec![entry("sub", EntryKind::Directory), entry("a.txt", EntryKind::File)];
    let next = nav_step(".", &entries, Selection::Chosen(0));
    match next {
        NavState::Browsing(p) => assert_eq!(p, "./sub"),
        NavState::Terminated => panic!("expected to keep browsing"),
    }
}

#[test]
fn choosing_a_file_keeps_the_current_path() {
    let entries = vec![entry("sub", EntryKind::Directory), entry("a.txt", EntryKind::File)];
    let next = nav_step("./here", &entries, Selection::Chosen(1));
    match next {
        NavState::Browsing(p) => assert_eq!(p, "./here"),
        NavState::Terminated => panic!("expected to keep browsing"),
    }
}
