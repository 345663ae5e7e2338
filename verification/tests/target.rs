use byteback::target::{TargetName, default_targets, lookup};

#[test]
fn defaults_are_recognised() {
    assert!(TargetName::from("node_modules").is_default());
    assert!(TargetName::from("__pycache__").is_default());
    assert!(!TargetName::from("vendor").is_default());
    assert!(!TargetName::from("Node_Modules").is_default());
    assert_eq!(default_targets().len(), 12);
}

#[test]
fn lookup_holds_each_name_once() {
    let names = vec![
        TargetName::from("dist"),
        TargetName::from(".next"),
        TargetName::from("dist"),
    ];
    let set = lookup(&names);
    assert_eq!(set, vec!["dist".to_string(), ".next".to_string()]);
    assert!(lookup(&[]).is_empty());
}

#[test]
fn names_convert_both_ways() {
    let from_string = TargetName::from("target".to_string());
    assert_eq!(from_string, TargetName::new("target"));
    assert_eq!(from_string.as_str(), "target");
    assert_eq!(from_string.to_string(), "target");
    assert!(from_string.same_as(&TargetName::from("target")));
    assert!(!from_string.same_as(&TargetName::from("targets")));
}
