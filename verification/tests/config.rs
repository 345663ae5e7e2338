use byteback::config::Config;
use byteback::target::TargetName;

#[test]
fn available_is_defaults_plus_custom_minus_hidden() {
    let mut config = Config::default();
    config.add_custom(TargetName::from(".my-cache"));
    config.remove(&TargetName::from("dist"));

    let names: Vec<String> = config.available().iter().map(|n| n.to_string()).collect();
    assert!(names.contains(&"node_modules".to_string()));
    assert!(names.contains(&".my-cache".to_string()));
    assert!(
        !names.contains(&"dist".to_string()),
        "hidden default must be gone"
    );
    // custom names come after defaults
    assert_eq!(names.last().unwrap(), ".my-cache");
}

#[test]
fn adding_a_known_default_does_not_duplicate_into_custom() {
    let mut config = Config::default();
    config.add_custom(TargetName::from("node_modules"));
    let count = config
        .available()
        .iter()
        .filter(|n| n.as_str() == "node_modules")
        .count();
    assert_eq!(count, 1);
}

#[test]
fn re_adding_a_hidden_default_unhides_it() {
    let mut config = Config::default();
    config.remove(&TargetName::from(".next"));
    assert!(!config.available().contains(&TargetName::from(".next")));
    config.add_custom(TargetName::from(".next"));
    assert!(config.available().contains(&TargetName::from(".next")));
}

#[test]
fn initial_enabled_defaults_to_everything_then_remembers() {
    let mut config = Config::default();
    assert_eq!(config.initial_enabled().len(), config.available().len());

    config.set_enabled(vec![TargetName::from("node_modules")]);
    let enabled = config.initial_enabled();
    assert_eq!(enabled.len(), 1);
    assert!(enabled.contains(&TargetName::from("node_modules")));
}

#[test]
fn defaults_are_listed_in_declared_order() {
    let config = Config::default();
    let names: Vec<String> = config.available().iter().map(|n| n.to_string()).collect();
    assert_eq!(
        names,
        vec![
            "node_modules",
            "dist",
            "build",
            ".next",
            ".turbo",
            "target",
            ".cache",
            ".parcel-cache",
            ".svelte-kit",
            ".nuxt",
            "coverage",
            "__pycache__",
        ]
    );
}

#[test]
fn removing_a_custom_name_drops_it_without_hiding() {
    let mut config = Config::default();
    config.add_custom(TargetName::from("vendor"));
    config.set_enabled(vec![TargetName::from("vendor"), TargetName::from("dist")]);
    config.remove(&TargetName::from("vendor"));
    assert!(config.targets.custom.is_empty());
    assert!(config.targets.hidden.is_empty());
    assert_eq!(config.targets.enabled, vec![TargetName::from("dist")]);
    assert!(!config.available().contains(&TargetName::from("vendor")));
}

#[test]
fn removing_a_default_twice_hides_it_once() {
    let mut config = Config::default();
    config.remove(&TargetName::from("build"));
    config.remove(&TargetName::from("build"));
    assert_eq!(config.targets.hidden, vec![TargetName::from("build")]);
    assert_eq!(config.available().len(), 11);
}

#[test]
fn adding_a_custom_name_twice_keeps_one() {
    let mut config = Config::default();
    config.add_custom(TargetName::from("out"));
    config.add_custom(TargetName::from("out"));
    assert_eq!(config.targets.custom, vec![TargetName::from("out")]);
    assert_eq!(config.available().len(), 13);
}

#[test]
fn remembered_names_that_are_gone_are_dropped() {
    let mut config = Config::default();
    config.set_enabled(vec![
        TargetName::from("dist"),
        TargetName::from("nowhere"),
        TargetName::from("dist"),
    ]);
    assert_eq!(config.initial_enabled(), vec![TargetName::from("dist")]);
}

#[test]
fn load_keeps_what_was_stored_and_the_path() {
    let stored = byteback::config::TargetSettings {
        custom: vec![TargetName::from(".my-cache")],
        hidden: vec![TargetName::from("dist")],
        enabled: vec![TargetName::from("node_modules")],
    };
    let config = Config::load("/home/me/.config/byteback/config.toml".to_string(), Some(stored));
    assert_eq!(config.path.as_deref(), Some("/home/me/.config/byteback/config.toml"));
    assert!(config.available().contains(&TargetName::from(".my-cache")));
    assert!(!config.available().contains(&TargetName::from("dist")));
    assert_eq!(config.initial_enabled(), vec![TargetName::from("node_modules")]);

    let fresh = Config::load("/tmp/none.toml".to_string(), None);
    assert!(fresh.targets.custom.is_empty());
    assert_eq!(fresh.path.as_deref(), Some("/tmp/none.toml"));
}

#[test]
fn removing_drops_every_copy_and_hides_a_default_kept_as_custom() {
    let mut config = Config::default();
    config.targets.custom = vec![
        TargetName::from("stuff"),
        TargetName::from("dist"),
        TargetName::from("stuff"),
    ];
    config.remove(&TargetName::from("stuff"));
    assert_eq!(config.targets.custom, vec![TargetName::from("dist")]);
    assert!(config.targets.hidden.is_empty());
    config.remove(&TargetName::from("dist"));
    assert!(config.targets.custom.is_empty());
    assert_eq!(config.targets.hidden, vec![TargetName::from("dist")]);
    assert!(!config.available().contains(&TargetName::from("dist")));
}
