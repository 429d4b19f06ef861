use swift_project_model::model::{
    merge_capabilities, project_capabilities_for, project_kind_for, project_subtype_for,
    target_capabilities_for, KIND_SPM, KIND_XCODEPROJ, KIND_XCWORKSPACE,
};
use swift_project_model::targets::{
    Targets, TARGET_KIND_BINARY, TARGET_KIND_EXTENSION, TARGET_KIND_FRAMEWORK,
    TARGET_KIND_LIBRARY, TARGET_KIND_PLUGIN, TARGET_KIND_PROC_MACRO, TARGET_KIND_TEST,
    TARGET_KIND_UNKNOWN,
};

fn of_kinds(kinds: &[u8]) -> Targets {
    let mut targets = Targets::new();
    for kind in kinds {
        targets.push(b"T", *kind, b"");
    }
    targets
}

#[test]
fn a_project_without_targets_goes_by_its_own_kind() {
    assert_eq!(project_kind_for(KIND_SPM, &of_kinds(&[])), "project");
    assert_eq!(project_kind_for(KIND_XCODEPROJ, &of_kinds(&[])), "project");
    assert_eq!(project_kind_for(KIND_XCWORKSPACE, &of_kinds(&[])), "workspace");
    assert_eq!(project_kind_for(9, &of_kinds(&[])), "project");
}

#[test]
fn a_project_with_targets_goes_by_them() {
    let kind = |kinds: &[u8]| project_kind_for(KIND_XCWORKSPACE, &of_kinds(kinds));
    assert_eq!(kind(&[TARGET_KIND_BINARY]), "app");
    assert_eq!(kind(&[TARGET_KIND_LIBRARY, TARGET_KIND_FRAMEWORK]), "app");
    assert_eq!(kind(&[TARGET_KIND_TEST, TARGET_KIND_EXTENSION]), "app");
    assert_eq!(kind(&[TARGET_KIND_UNKNOWN, TARGET_KIND_LIBRARY]), "library");
    assert_eq!(kind(&[TARGET_KIND_PROC_MACRO, TARGET_KIND_TEST]), "library");
    assert_eq!(kind(&[TARGET_KIND_PLUGIN]), "library");
    assert_eq!(kind(&[TARGET_KIND_TEST, TARGET_KIND_TEST]), "test");
    assert_eq!(kind(&[TARGET_KIND_TEST, TARGET_KIND_UNKNOWN]), "project");
    assert_eq!(kind(&[TARGET_KIND_UNKNOWN]), "project");
}

#[test]
fn project_subtypes_go_by_kind() {
    assert_eq!(project_subtype_for(KIND_SPM), Some("swift-package"));
    assert_eq!(project_subtype_for(KIND_XCODEPROJ), Some("xcode-project"));
    assert_eq!(project_subtype_for(KIND_XCWORKSPACE), Some("xcode-workspace"));
    assert_eq!(project_subtype_for(3), None);
}

#[test]
fn target_capabilities_go_by_kind_and_subtype() {
    assert_eq!(target_capabilities_for(TARGET_KIND_BINARY, None), vec!["is-executable"]);
    assert_eq!(
        target_capabilities_for(TARGET_KIND_BINARY, Some("xcode-app")),
        vec!["is-executable", "has-ui"]
    );
    assert_eq!(
        target_capabilities_for(TARGET_KIND_BINARY, Some("app-clip")),
        vec!["is-executable", "has-ui"]
    );
    assert_eq!(
        target_capabilities_for(TARGET_KIND_EXTENSION, Some("app-extension")),
        vec!["is-executable", "has-ui"]
    );
    assert_eq!(target_capabilities_for(TARGET_KIND_BINARY, Some("cli")), vec!["is-executable"]);
    assert_eq!(target_capabilities_for(TARGET_KIND_TEST, None), vec!["is-test-only"]);
    assert_eq!(
        target_capabilities_for(TARGET_KIND_PROC_MACRO, Some("swift-macro")),
        vec!["is-library", "builds-plugin"]
    );
    assert_eq!(
        target_capabilities_for(TARGET_KIND_PLUGIN, None),
        vec!["is-library", "builds-plugin"]
    );
    assert_eq!(target_capabilities_for(TARGET_KIND_FRAMEWORK, None), vec!["is-library"]);
    assert_eq!(target_capabilities_for(TARGET_KIND_LIBRARY, None), vec!["is-library"]);
    assert!(target_capabilities_for(TARGET_KIND_UNKNOWN, None).is_empty());
    assert_eq!(target_capabilities_for(TARGET_KIND_UNKNOWN, Some("xcode-app")), vec!["has-ui"]);
}

#[test]
fn merged_capabilities_hold_nothing_twice() {
    let mut caps = vec!["a".to_string(), "b".to_string()];
    let more = vec!["c".to_string(), "a".to_string(), "c".to_string(), "d".to_string()];
    merge_capabilities(&mut caps, &more);
    assert_eq!(caps, vec!["a", "b", "c", "d"]);
    merge_capabilities(&mut caps, &Vec::new());
    assert_eq!(caps, vec!["a", "b", "c", "d"]);
}

#[test]
fn project_capabilities_are_those_of_all_targets() {
    let mut targets = Targets::new();
    targets.push(b"A", TARGET_KIND_LIBRARY, b"swift-library");
    targets.push(b"B", TARGET_KIND_PLUGIN, b"swift-plugin");
    targets.push(b"C", TARGET_KIND_BINARY, b"xcode-app");
    targets.push(b"D", TARGET_KIND_TEST, b"");
    targets.push(b"E", TARGET_KIND_BINARY, b"cli");
    assert_eq!(
        project_capabilities_for(&targets),
        vec!["is-library", "builds-plugin", "is-executable", "has-ui", "is-test-only"]
    );
    assert!(project_capabilities_for(&Targets::new()).is_empty());
}
