use byteback::cli::Cli;
use byteback::delete::{Disposal, Outcome};
use byteback::report::{FoundDir, ScanReport};
use byteback::target::TargetName;
use byteback::scan::is_target_dir;
use byteback::view::{Area, category_header, centered_rect, plural, reclaimed_line, thousands};

#[test]
fn thousands_groups_digits_in_threes() {
    assert_eq!(thousands(0), "0");
    assert_eq!(thousands(999), "999");
    assert_eq!(thousands(1000), "1,000");
    assert_eq!(thousands(1234567), "1,234,567");
    assert_eq!(thousands(1_000_001), "1,000,001");
    assert_eq!(thousands(u64::MAX), "18,446,744,073,709,551,615");
}

#[test]
fn plural_picks_by_count() {
    assert_eq!(plural(1, "directory", "directories"), "directory");
    assert_eq!(plural(0, "directory", "directories"), "directories");
    assert_eq!(plural(2, "directory", "directories"), "directories");
}

#[test]
fn modals_are_centred() {
    let area = Area { x: 0, y: 0, width: 80, height: 24 };
    assert_eq!(
        centered_rect(60, 7, area),
        Area { x: 16, y: 8, width: 48, height: 7 }
    );
}

#[test]
fn modals_fit_a_tiny_viewport() {
    let tiny = Area { x: 0, y: 0, width: 8, height: 4 };
    assert_eq!(
        centered_rect(60, 7, tiny),
        Area { x: 2, y: 0, width: 4, height: 4 }
    );
    let smaller = Area { x: 0, y: 0, width: 6, height: 3 };
    assert_eq!(
        centered_rect(60, 8, smaller),
        Area { x: 1, y: 0, width: 3, height: 3 }
    );
}

#[test]
fn the_disposal_flag_picks_the_mode() {
    let cli = Cli { path: None, permanent: true };
    assert_eq!(cli.disposal(), Disposal::Permanent);
    let cli = Cli { path: Some("/tmp".to_string()), permanent: false };
    assert_eq!(cli.disposal(), Disposal::Trash);
}

#[test]
fn only_named_dirs_below_the_root_are_targets() {
    let lookup = vec!["node_modules".to_string(), ".next".to_string()];
    assert!(is_target_dir(true, false, "node_modules", &lookup));
    assert!(!is_target_dir(false, false, "node_modules", &lookup));
    assert!(!is_target_dir(true, true, "node_modules", &lookup));
    assert!(!is_target_dir(true, false, "src", &lookup));
}

#[test]
fn the_done_line_says_what_was_reclaimed() {
    let one = Outcome { freed_bytes: 1_230_000_000, removed: 1, failures: Vec::new() };
    assert_eq!(reclaimed_line(&one), "Reclaimed 1.23 GB from 1 directory.");
    let many = Outcome { freed_bytes: 0, removed: 12, failures: Vec::new() };
    assert_eq!(reclaimed_line(&many), "Reclaimed 0 B from 12 directories.");
}

#[test]
fn category_headers_show_count_size_and_files() {
    let dir = |target: &str, size: u64, files: u64| {
        FoundDir::measured(format!("/tmp/{target}/{size}"), TargetName::from(target), size, files)
    };
    let report = ScanReport::from_dirs(vec![
        dir("node_modules", 1_000_000, 1_000),
        dir(".next", 5_000_000, 5),
        dir("node_modules", 230_000, 234),
    ]);
    assert_eq!(
        category_header(&report, &report.categories[0]).as_deref(),
        Some(".next  \u{2014}  1 dir(s) \u{b7} 5 MB \u{b7} 5 files")
    );
    assert_eq!(
        category_header(&report, &report.categories[1]).as_deref(),
        Some("node_modules  \u{2014}  2 dir(s) \u{b7} 1.23 MB \u{b7} 1,234 files")
    );
    let huge = ScanReport::from_dirs(vec![dir("dist", 1, u64::MAX), dir("dist", 1, 1)]);
    assert_eq!(category_header(&huge, &huge.categories[0]), None);
}
