use squishy::types::{Failed, Scanned, SquishResult, Squished};

#[test]
fn new_accumulator_is_empty() {
    let r = SquishResult::new();
    assert_eq!(r.iter_scanned().len(), 0);
    assert_eq!(r.squished_list().len(), 0);
    assert_eq!(r.failed_list().len(), 0);
    assert_eq!(r.ignored_count(), 0);
    assert_eq!(r.size(), 0);
    assert!(r.output_path().is_none());
}

#[test]
fn record_scanned_twice_keeps_one_entry() {
    let mut r = SquishResult::new();
    r.scanned("src/main.rs");
    r.scanned("src/main.rs");
    assert_eq!(r.iter_scanned().len(), 1);
    assert_eq!(r.iter_scanned()[0].path, "src/main.rs");
    r.scanned("src/lib.rs");
    assert_eq!(r.iter_scanned().len(), 2);
    assert_eq!(r.iter_scanned()[1].path, "src/lib.rs");
}

#[test]
fn record_success_deduplicates_by_path() {
    let mut r = SquishResult::new();
    r.success("a.rs", 10);
    r.success("a.rs", 99);
    assert_eq!(r.squished_list().len(), 1);
    assert_eq!(r.squished_list()[0].path, "a.rs");
    assert_eq!(r.squished_list()[0].size, 10);
}

#[test]
fn record_failure_deduplicates_by_path_and_reason() {
    let mut r = SquishResult::new();
    r.failure("a.rs", "Read failure");
    r.failure("a.rs", "Read failure");
    assert_eq!(r.failed_list().len(), 1);
    r.failure("a.rs", "Write failure");
    assert_eq!(r.failed_list().len(), 2);
    assert_eq!(r.failed_list()[0].error, "Read failure");
    assert_eq!(r.failed_list()[1].error, "Write failure");
}

#[test]
fn ignored_counts_every_call() {
    let mut r = SquishResult::new();
    r.ignored();
    r.ignored();
    r.ignored();
    assert_eq!(r.ignored_count(), 3);
}

#[test]
fn size_sums_recorded_byte_lengths() {
    let mut r = SquishResult::new();
    r.success("a.rs", 3);
    r.success("b.rs", 4);
    r.success("c.toml", 10);
    assert_eq!(r.size(), 17);
}

#[test]
fn extend_concatenates_collections_and_adds_counters() {
    let mut a = SquishResult::new();
    a.scanned("a.rs");
    a.ignored();
    let mut b = SquishResult::new();
    b.scanned("b.rs");
    b.failure("c.bin", "Cannot read");
    b.ignored();
    b.ignored();
    a.extend(b);
    assert_eq!(a.iter_scanned().len(), 2);
    assert_eq!(a.iter_scanned()[0].path, "a.rs");
    assert_eq!(a.iter_scanned()[1].path, "b.rs");
    assert_eq!(a.failed_list().len(), 1);
    assert_eq!(a.ignored_count(), 3);
}

#[test]
fn merging_in_any_order_yields_the_same_contents() {
    // three accumulators standing for disjoint subtrees
    let parts: [(&str, u64); 3] = [("x.rs", 1), ("y.rs", 2), ("z.rs", 3)];
    let build = |idx: usize| {
        let mut r = SquishResult::new();
        r.scanned(parts[idx].0);
        r.success(parts[idx].0, parts[idx].1);
        r.ignored();
        r
    };
    // ((a + b) + c)
    let mut left = build(0);
    left.extend(build(1));
    left.extend(build(2));
    // (c + (b + a)) -- another order
    let mut right = build(2);
    let mut inner = build(1);
    inner.extend(build(0));
    right.extend(inner);

    assert_eq!(left.ignored_count(), right.ignored_count());
    assert_eq!(left.size(), right.size());
    let mut left_paths: Vec<String> =
        left.iter_scanned().iter().map(|s| s.path.clone()).collect();
    let mut right_paths: Vec<String> =
        right.iter_scanned().iter().map(|s| s.path.clone()).collect();
    left_paths.sort();
    right_paths.sort();
    assert_eq!(left_paths, right_paths);
}

#[test]
fn extend_keeps_duplicates_across_merges() {
    // merging does not deduplicate: only recording does
    let mut a = SquishResult::new();
    a.scanned("same.rs");
    let mut b = SquishResult::new();
    b.scanned("same.rs");
    a.extend(b);
    assert_eq!(a.iter_scanned().len(), 2);
}

#[test]
fn set_output_path_last_write_wins() {
    let mut r = SquishResult::new();
    r.set_output_path("first.txt");
    r.set_output_path("second.txt");
    assert_eq!(r.output_path().as_deref(), Some("second.txt"));
}

#[test]
fn record_constructors_copy_their_arguments() {
    let s = Scanned::new("a.rs");
    assert_eq!(s.path, "a.rs");
    let q = Squished::new("b.rs", 42);
    assert_eq!(q.path, "b.rs");
    assert_eq!(q.size, 42);
    let f = Failed::new("c.rs", "Read failure");
    assert_eq!(f.path, "c.rs");
    assert_eq!(f.error, "Read failure");
}
