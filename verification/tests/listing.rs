use dirscope::aggregate::FileProbe;
use dirscope::listing::{list_level, order_entries, Child, ChildNode, Entry, EntryKind};

fn file_child(name: &str, size: u64) -> Child {
    Child { name: name.to_string(), node: ChildNode::File(FileProbe::Size(size)) }
}

fn dir_child(name: &str, probes: Vec<FileProbe>) -> Child {
    Child { name: name.to_string(), node: ChildNode::Directory(probes) }
}

fn plain_entry(name: &str, size: &str) -> Entry {
    Entry { name: name.to_string(), size: size.to_string(), kind: EntryKind::File }
}

#[test]
fn lists_and_renders_each_child() {
    let children = vec![
        file_child("a.txt", 60),
        dir_child("sub", vec![FileProbe::Size(512), FileProbe::Size(512)]),
        file_child("b.bin", 1536),
    ];
    let entries = list_level(&children);
    assert_eq!(entries.len(), 3);
    assert_eq!(entries[0].name, "a.txt");
    assert_eq!(entries[0].size, "60 B");
    assert!(matches!(entries[0].kind, EntryKind::File));
    assert_eq!(entries[1].name, "sub");
    assert_eq!(entries[1].size, "1 KiB");
    assert!(matches!(entries[1].kind, EntryKind::Directory));
    assert_eq!(entries[2].size, "1.50 KiB");
}

#[test]
fn empty_directory_lists_empty() {
    let children: Vec<Child> = vec![];
    let entries = list_level(&children);
    assert!(entries.is_empty());
}

#[test]
fn unreadable_file_listed_as_zero() {
    let children = vec![Child {
        name: "locked".to_string(),
        node: ChildNode::File(FileProbe::Unreadable),
    }];
    let entries = list_level(&children);
    assert_eq!(entries[0].size, "0 B");
}

#[test]
fn orders_descending_by_parsed_size() {
    let entries = vec![
        plain_entry("a", "2 KiB"),
        plain_entry("b", "1 MiB"),
        plain_entry("c", "500 B"),
    ];
    let ordered = order_entries(entries);
    let sizes: Vec<&str> = ordered.iter().map(|e| e.size.as_str()).collect();
    assert_eq!(sizes, vec!["1 MiB", "2 KiB", "500 B"]);
}

#[test]
fn ordering_keeps_every_entry() {
    let entries = vec![
        plain_entry("a", "1 KiB"),
        plain_entry("b", "1 KiB"),
        plain_entry("c", "2 B"),
    ];
    let ordered = order_entries(entries);
    assert_eq!(ordered.len(), 3);
    let mut names: Vec<&str> = ordered.iter().map(|e| e.name.as_str()).collect();
    names.sort();
    assert_eq!(names, vec!["a", "b", "c"]);
    assert_eq!(ordered[2].name, "c");
}

#[test]
fn tib_blind_spot_corrupts_ordering() {
    // Above the recognized units a size parses as raw bytes, so a TiB-sized
    // entry deliberately sorts below a KiB-sized one.
    let entries = vec![plain_entry("huge", "1 TiB"), plain_entry("small", "1 KiB")];
    let ordered = order_entries(entries);
    assert_eq!(ordered[0].name, "small");
    assert_eq!(ordered[1].name, "huge");
}
