use byteback::app::{Action, App, Key, KeyPress, Mode, Overlay};
use byteback::config::Config;
use byteback::delete::Disposal;
use byteback::report::{FoundDir, ScanReport};
use byteback::scan::ScanEvent;
use byteback::target::TargetName;

fn press(key: Key) -> KeyPress {
    KeyPress { key, ctrl: false }
}

fn app() -> App {
    App::new(Config::default(), "/tmp".to_string(), Disposal::Trash)
}

fn sample_report() -> ScanReport {
    ScanReport::from_dirs(vec![
        FoundDir {
            path: "/tmp/a/node_modules".to_string(),
            target: TargetName::from("node_modules"),
            size: 1234,
            file_count: 12,
            selected: true,
        },
        FoundDir {
            path: "/tmp/b/.next".to_string(),
            target: TargetName::from(".next"),
            size: 5678,
            file_count: 34,
            selected: true,
        },
    ])
}

#[test]
fn space_toggles_the_highlighted_target() {
    let mut app = app();
    assert!(app.targets[0].enabled);
    app.on_key(press(Key::Char(' ')));
    assert!(!app.targets[0].enabled);
}

#[test]
fn removing_hides_the_highlighted_target() {
    let mut app = app();
    let first = app.targets[0].name.clone();
    let action = app.on_key(press(Key::Char('r')));
    assert!(matches!(action, Action::SaveConfig));
    assert!(!app.targets.iter().any(|t| t.name == first));
}

#[test]
fn adding_a_custom_name_inserts_and_enables_it() {
    let mut app = app();
    let before = app.targets.len();

    assert!(matches!(app.on_key(press(Key::Char('a'))), Action::OpenInput(ref t) if t.is_empty()));
    // The program's text input collects the typed characters.
    let mut typed = String::new();
    for ch in "my-cache".chars() {
        assert!(matches!(app.on_key(press(Key::Char(ch))), Action::EditInput));
        typed.push(ch);
    }
    assert!(matches!(app.on_key(press(Key::Enter)), Action::CommitInput));
    assert!(matches!(app.commit_overlay(&typed), Action::SaveConfig));

    assert_eq!(app.targets.len(), before + 1);
    let added = app
        .targets
        .iter()
        .find(|t| t.name == TargetName::from("my-cache"))
        .expect("custom name present");
    assert!(added.enabled);
    assert!(matches!(app.overlay, Overlay::Off));
}

#[test]
fn t_and_p_switch_the_disposal_mode_in_review() {
    let mut app = app();
    app.mode = Mode::Review;
    app.on_key(press(Key::Char('p')));
    assert_eq!(app.disposal, Disposal::Permanent);
    app.on_key(press(Key::Char('t')));
    assert_eq!(app.disposal, Disposal::Trash);
}

#[test]
fn a_full_session_scans_reviews_and_deletes() {
    let mut app = app();
    // Only node_modules and .next stay checked.
    let keep = ["node_modules", ".next"];
    for i in 0..app.targets.len() {
        if !keep.contains(&app.targets[i].name.as_str()) {
            app.targets_state = Some(i);
            app.on_key(press(Key::Char(' ')));
        }
    }
    let action = app.on_key(press(Key::Enter));
    match action {
        Action::StartScan(names) => {
            assert_eq!(names, vec![TargetName::from("node_modules"), TargetName::from(".next")])
        }
        _ => panic!("expected a scan to start"),
    }
    assert_eq!(app.mode, Mode::Scanning);
    assert_eq!(
        app.config.targets.enabled,
        vec![TargetName::from("node_modules"), TargetName::from(".next")]
    );

    app.on_scan_event(ScanEvent::Found(2));
    app.on_scan_event(ScanEvent::Measured);
    assert_eq!(app.found_total, Some(2));
    assert_eq!(app.measured, 1);
    app.on_scan_event(ScanEvent::Done(sample_report()));
    assert_eq!(app.mode, Mode::Review);
    // Header, dir, header, dir; the first dir row is highlighted.
    assert_eq!(app.rows.len(), 4);
    assert_eq!(app.results_state, Some(1));
    assert_eq!(app.selected_dir(), Some(0));

    app.on_key(press(Key::Down));
    assert_eq!(app.results_state, Some(3));
    app.on_key(press(Key::Down));
    assert_eq!(app.results_state, Some(3));
    app.on_key(press(Key::Char(' ')));
    assert!(!app.report.dirs[1].selected);
    app.on_key(press(Key::Up));
    assert_eq!(app.results_state, Some(1));

    app.on_key(press(Key::Char('d')));
    assert_eq!(app.overlay, Overlay::ConfirmDelete);
    assert!(matches!(app.on_key(press(Key::Char('y'))), Action::Delete));
    assert_eq!(app.overlay, Overlay::Off);
    let plan = app.removal_plan();
    assert_eq!(plan, vec![Some("/tmp/b/.next".to_string())]);
    assert!(app.perform_delete(&[Ok(())]));
    assert_eq!(app.mode, Mode::Done);
    let outcome = app.outcome.as_ref().expect("an outcome");
    assert_eq!(outcome.freed_bytes, 5678);
    assert_eq!(outcome.removed, 1);
    assert!(outcome.failures.is_empty());
    app.on_key(press(Key::Char('x')));
    assert!(app.quit);
}

#[test]
fn nothing_checked_means_no_scan() {
    let mut app = app();
    for i in 0..app.targets.len() {
        app.targets_state = Some(i);
        app.on_key(press(Key::Char(' ')));
    }
    assert!(matches!(app.on_key(press(Key::Char('s'))), Action::Nothing));
    assert_eq!(app.mode, Mode::Select);
}

#[test]
fn selection_moves_and_clamps() {
    let mut app = app();
    assert_eq!(app.targets_state, Some(0));
    app.on_key(press(Key::Up));
    assert_eq!(app.targets_state, Some(0));
    app.on_key(press(Key::Char('j')));
    assert_eq!(app.targets_state, Some(1));
    for _ in 0..40 {
        app.on_key(press(Key::Down));
    }
    assert_eq!(app.targets_state, Some(app.targets.len() - 1));
}

#[test]
fn quitting_and_cancelling() {
    let mut app = app();
    app.on_key(KeyPress { key: Key::Char('c'), ctrl: true });
    assert!(app.quit);

    let mut app = self::app();
    app.on_key(press(Key::Enter));
    assert_eq!(app.mode, Mode::Scanning);
    assert!(matches!(app.on_key(press(Key::Esc)), Action::CancelScan));
    assert_eq!(app.mode, Mode::Select);
    assert!(!app.scan_running);
}

#[test]
fn changing_the_scan_directory_is_proposed_trimmed() {
    let mut app = app();
    match app.on_key(press(Key::Char('c'))) {
        Action::OpenInput(text) => assert_eq!(text, "/tmp"),
        _ => panic!("expected an input"),
    }
    assert_eq!(app.overlay, Overlay::ChangePath);
    match app.commit_overlay("  /var/tmp  ") {
        Action::ChangeRootIfDir(path) => {
            assert_eq!(path, "/var/tmp");
            app.set_root(path);
        }
        _ => panic!("expected a directory change"),
    }
    assert_eq!(app.root, "/var/tmp");
    assert_eq!(app.overlay, Overlay::Off);
}

#[test]
fn blank_names_are_not_added() {
    let mut app = app();
    let before = app.targets.len();
    app.on_key(press(Key::Char('a')));
    assert!(matches!(app.commit_overlay("   "), Action::Nothing));
    assert_eq!(app.targets.len(), before);
    assert_eq!(app.overlay, Overlay::Off);
}

#[test]
fn delete_needs_a_selection() {
    let mut app = app();
    app.on_scan_event(ScanEvent::Done(sample_report()));
    app.on_key(press(Key::Char('n')));
    assert_eq!(app.report.selected_count(), 0);
    app.on_key(press(Key::Char('d')));
    assert_eq!(app.overlay, Overlay::Off);
    app.on_key(press(Key::Char('a')));
    assert_eq!(app.report.selected_count(), 2);
    app.on_key(press(Key::Char('d')));
    assert_eq!(app.overlay, Overlay::ConfirmDelete);
    assert!(matches!(app.on_key(press(Key::Char('n'))), Action::Nothing));
    assert_eq!(app.overlay, Overlay::Off);
    app.on_key(press(Key::Char('b')));
    assert_eq!(app.mode, Mode::Select);
}

#[test]
fn the_checked_targets_are_counted() {
    let mut app = app();
    let all = app.targets.len();
    assert_eq!(app.checked_count(), all);
    app.on_key(press(Key::Char(' ')));
    assert_eq!(app.checked_count(), all - 1);
}

#[test]
fn unicode_whitespace_is_trimmed_from_a_new_name() {
    let mut app = app();
    app.on_key(press(Key::Char('a')));
    assert!(matches!(
        app.commit_overlay("\u{3000}\t.my-cache\u{a0}\n"),
        Action::SaveConfig
    ));
    assert!(app
        .targets
        .iter()
        .any(|t| t.name == TargetName::from(".my-cache")));
}

#[test]
fn the_scan_root_is_left_out_of_the_removal_plan() {
    let mut app = App::new(Config::default(), "/tmp/a".to_string(), Disposal::Permanent);
    app.on_scan_event(ScanEvent::Done(ScanReport::from_dirs(vec![
        FoundDir::measured("/tmp/a".to_string(), TargetName::from("dist"), 10, 1),
        FoundDir::measured("/tmp/a/x/dist".to_string(), TargetName::from("dist"), 20, 2),
    ])));
    let plan = app.removal_plan();
    assert_eq!(plan, vec![Some("/tmp/a/x/dist".to_string()), None]);
    assert!(app.perform_delete(&[Err("busy".to_string()), Ok(())]));
    let outcome = app.outcome.as_ref().expect("an outcome");
    assert_eq!(outcome.removed, 0);
    assert_eq!(outcome.freed_bytes, 0);
    assert_eq!(outcome.failures.len(), 2);
}

#[test]
fn an_overflowing_deletion_changes_nothing() {
    let mut app = app();
    app.on_scan_event(ScanEvent::Done(ScanReport::from_dirs(vec![
        FoundDir::measured("/tmp/a/dist".to_string(), TargetName::from("dist"), u64::MAX, 1),
        FoundDir::measured("/tmp/b/build".to_string(), TargetName::from("build"), 1, 1),
    ])));
    assert!(!app.perform_delete(&[Ok(()), Ok(())]));
    assert_eq!(app.mode, Mode::Review);
    assert!(app.outcome.is_none());
}
