use byteback::delete::{Disposal, Outcome, freed_total, guards_root, removable};
use byteback::report::FoundDir;
use byteback::target::TargetName;

fn found(path: &str) -> FoundDir {
    FoundDir {
        path: path.to_string(),
        target: TargetName::from("node_modules"),
        size: 42,
        file_count: 1,
        selected: true,
    }
}

#[test]
fn refuses_to_delete_the_scan_root() {
    let root = "/tmp";
    let dir = found(root);

    // The root guards itself, so the program never removes it.
    assert!(guards_root(&dir.path, root));
    let outcome = Disposal::Permanent.dispose(&[&dir], root, &[Ok(())]);

    assert_eq!(outcome.removed, 0);
    assert_eq!(outcome.failures.len(), 1);
    assert!(std::path::Path::new(root).exists());
}

#[test]
fn one_failure_does_not_abort_the_batch() {
    let root = "/tmp/work";
    let missing = found("/tmp/work/does-not-exist");
    let real = found("/tmp/work/real/node_modules");

    let outcome = Disposal::Permanent.dispose(
        &[&missing, &real],
        root,
        &[Err("No such file or directory".to_string()), Ok(())],
    );

    assert_eq!(outcome.removed, 1);
    assert_eq!(outcome.failures.len(), 1);
}

#[test]
fn removed_dirs_report_freed_space() {
    let root = "/tmp/work";
    let dir = found("/tmp/work/pkg/node_modules");
    let outcome = Disposal::Trash.dispose(&[&dir], root, &[Ok(())]);
    assert_eq!(outcome.removed, 1);
    assert_eq!(outcome.freed_bytes, 42);
    assert!(outcome.failures.is_empty());
}

#[test]
fn ancestors_of_the_root_are_guarded() {
    assert!(guards_root("/tmp", "/tmp/work"));
    assert!(guards_root("/", "/tmp/work"));
    assert!(!guards_root("/tmp/work/pkg", "/tmp/work"));
    assert!(!guards_root("/tmp/wo", "/tmp/work"));
    let outcome = Disposal::Trash.dispose(&[&found("/tmp")], "/tmp/work", &[Ok(())]);
    assert_eq!(
        outcome.failures,
        vec![("/tmp".to_string(), "refusing to delete the scan root".to_string())]
    );
    assert_eq!(outcome.freed_bytes, 0);
}

#[test]
fn outcome_bookkeeping() {
    let mut outcome = Outcome::default();
    outcome.succeed(10);
    outcome.succeed(5);
    outcome.fail("/x", "busy");
    assert_eq!(outcome.freed_bytes, 15);
    assert_eq!(outcome.removed, 2);
    assert_eq!(outcome.failures, vec![("/x".to_string(), "busy".to_string())]);
}

#[test]
fn disposal_labels() {
    assert_eq!(Disposal::Trash.label(), "trash");
    assert_eq!(Disposal::Permanent.label(), "permanent");
    assert_eq!(Disposal::default(), Disposal::Trash);
}

#[test]
fn only_dirs_below_the_root_are_removable() {
    let root = "/tmp/project";
    let inside = found("/tmp/project/node_modules");
    let itself = found("/tmp/project");
    let above = found("/tmp");
    assert_eq!(
        removable(&[&inside, &itself, &above], root),
        vec![true, false, false]
    );
}

#[test]
fn freed_total_counts_removed_dirs_below_the_root() {
    let root = "/tmp/project";
    let a = found("/tmp/project/a/node_modules");
    let b = found("/tmp/project/b/node_modules");
    let itself = found("/tmp/project");
    let removals = [Ok(()), Err("busy".to_string()), Ok(())];
    assert_eq!(freed_total(&[&a, &b, &itself], root, &removals), Some(42));
    let mut big = found("/tmp/project/c/node_modules");
    big.size = u64::MAX;
    assert_eq!(freed_total(&[&a, &big], root, &[Ok(()), Ok(())]), None);
}
