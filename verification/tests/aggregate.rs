use dirscope::aggregate::{aggregate_size, FileProbe};

#[test]
fn aggregates_file_sizes() {
    // A directory holding files of 10, 20 and 30 bytes and one empty
    // subdirectory: the subdirectory adds no probes, the total is 60.
    let probes = vec![FileProbe::Size(10), FileProbe::Size(20), FileProbe::Size(30)];
    assert_eq!(aggregate_size(&probes), 60);
}

#[test]
fn empty_walk_aggregates_to_zero() {
    let probes: Vec<FileProbe> = vec![];
    assert_eq!(aggregate_size(&probes), 0);
}

#[test]
fn unreadable_child_contributes_zero() {
    // A node that raised a permission error during the walk is skipped,
    // not fatal: the rest still counts.
    let probes = vec![FileProbe::Size(10), FileProbe::Unreadable, FileProbe::Size(20)];
    assert_eq!(aggregate_size(&probes), 30);
    let readable_only = vec![FileProbe::Size(10), FileProbe::Size(20)];
    assert_eq!(aggregate_size(&probes), aggregate_size(&readable_only));
}

#[test]
fn aggregation_saturates_instead_of_overflowing() {
    let probes = vec![FileProbe::Size(u64::MAX), FileProbe::Size(1)];
    assert_eq!(aggregate_size(&probes), u64::MAX);
}
