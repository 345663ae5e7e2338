use byteback::report::{FoundDir, ScanReport, human_size, totals_fit};
use byteback::target::TargetName;

fn dir(target: &str, size: u64, files: u64) -> FoundDir {
    FoundDir {
        path: format!("/tmp/{target}/{size}"),
        target: TargetName::from(target),
        size,
        file_count: files,
        selected: true,
    }
}

#[test]
fn groups_by_category_largest_first() {
    let report = ScanReport::from_dirs(vec![
        dir("node_modules", 100, 10),
        dir(".next", 500, 5),
        dir("node_modules", 50, 4),
    ]);

    // .next category (500) outweighs node_modules (150), so it comes first.
    assert_eq!(report.categories[0].target, TargetName::from(".next"));
    assert_eq!(
        report.categories[1].target,
        TargetName::from("node_modules")
    );
    // node_modules dirs sorted by size desc within the category.
    let nm = &report.categories[1];
    assert_eq!(report.category_dirs(nm)[0].size, 100);
    assert_eq!(report.category_dirs(nm)[1].size, 50);

    assert_eq!(report.total_size(), 650);
    assert_eq!(report.total_files(), 19);
    assert_eq!(report.dir_count(), 3);
}

#[test]
fn selection_totals_track_toggles() {
    let mut report = ScanReport::from_dirs(vec![dir("dist", 200, 2), dir("dist", 300, 3)]);
    assert_eq!(report.selected_count(), 2);
    assert_eq!(report.selected_size(), 500);

    report.toggle(0);
    assert_eq!(report.selected_count(), 1);

    report.set_all(false);
    assert_eq!(report.selected_count(), 0);
    report.set_all(true);
    assert_eq!(report.selected_size(), 500);
}

#[test]
fn equal_sizes_keep_their_order() {
    let mut a = dir("dist", 10, 1);
    a.path = "/a/dist".to_string();
    let mut b = dir("dist", 10, 1);
    b.path = "/b/dist".to_string();
    let mut c = dir("build", 20, 1);
    c.path = "/c/build".to_string();
    let mut d = dir("target", 20, 1);
    d.path = "/d/target".to_string();
    let report = ScanReport::from_dirs(vec![a, b, c, d]);
    let paths: Vec<&str> = report.dirs.iter().map(|d| d.path.as_str()).collect();
    // dist (20) is seen first, so it leads the tie with build (20) and target (20).
    assert_eq!(paths, vec!["/a/dist", "/b/dist", "/c/build", "/d/target"]);
    let starts: Vec<(usize, usize)> = report.categories.iter().map(|c| (c.start, c.len)).collect();
    assert_eq!(starts, vec![(0, 2), (2, 1), (3, 1)]);
}

#[test]
fn an_empty_scan_gives_an_empty_report() {
    let report = ScanReport::from_dirs(Vec::new());
    assert!(report.is_empty());
    assert!(report.categories.is_empty());
    assert_eq!(report.total_size(), 0);
    assert_eq!(report.selected_count(), 0);
    assert!(report.ranges_fit());
}

#[test]
fn toggling_out_of_range_changes_nothing() {
    let mut report = ScanReport::from_dirs(vec![dir("dist", 7, 1)]);
    report.toggle(5);
    assert_eq!(report.selected_count(), 1);
    report.toggle(0);
    assert!(report.selected().is_empty());
    report.toggle(0);
    assert_eq!(report.selected().len(), 1);
    assert_eq!(report.selected()[0].size, 7);
}

#[test]
fn sizes_are_formatted_in_decimal_units() {
    assert_eq!(human_size(1_000_000), "1 MB");
    assert_eq!(human_size(0), "0 B");
    assert_eq!(human_size(1_230_000_000), "1.23 GB");
}

#[test]
fn category_totals_add_up_each_category() {
    let report = ScanReport::from_dirs(vec![
        dir("node_modules", 100, 10),
        dir(".next", 500, 5),
        dir("node_modules", 50, 4),
    ]);
    assert_eq!(report.category_totals(&report.categories[0]), (500, 5));
    assert_eq!(report.category_totals(&report.categories[1]), (150, 14));
    assert_eq!(
        report.checked_category_totals(&report.categories[1]),
        Some((150, 14))
    );
    assert_eq!(report.checked_totals(), Some((650, 19)));
}

#[test]
fn totals_that_overflow_are_reported() {
    let report = ScanReport::from_dirs(vec![dir("dist", u64::MAX, 1), dir("build", 1, 1)]);
    assert_eq!(report.checked_totals(), None);
    assert_eq!(
        report.checked_category_totals(&report.categories[0]),
        Some((u64::MAX, 1))
    );
    let files = ScanReport::from_dirs(vec![dir("dist", 1, u64::MAX), dir("dist", 1, 1)]);
    assert_eq!(files.checked_category_totals(&files.categories[0]), None);
}

#[test]
fn only_each_target_needs_to_fit() {
    assert!(totals_fit(&vec![dir("dist", u64::MAX, 1), dir("build", 1, 1)]));
    assert!(!totals_fit(&vec![dir("dist", u64::MAX, 1), dir("dist", 1, 1)]));
    assert!(totals_fit(&Vec::new()));
}

#[test]
fn measured_dirs_start_selected() {
    let d = FoundDir::measured(
        "/tmp/x/dist".to_string(),
        TargetName::from("dist"),
        7,
        2,
    );
    assert!(d.selected);
    assert_eq!(d.size, 7);
    assert_eq!(d.file_count, 2);
    assert_eq!(d.path, "/tmp/x/dist");
}

#[test]
fn the_selected_size_only_needs_the_selection_to_fit() {
    let mut report = ScanReport::from_dirs(vec![dir("dist", u64::MAX, 1), dir("build", 1, 1)]);
    assert_eq!(report.checked_selected_size(), None);
    report.toggle(1);
    assert_eq!(report.checked_selected_size(), Some(u64::MAX));
    assert_eq!(report.selected_size(), u64::MAX);
}
