use swift_project_model::emit::{emit_model, emit_target, owner_json};
use swift_project_model::model::{KIND_SPM, KIND_XCODEPROJ, KIND_XCWORKSPACE};
use swift_project_model::targets::{
    Targets, TARGET_KIND_BINARY, TARGET_KIND_EXTENSION, TARGET_KIND_FRAMEWORK,
    TARGET_KIND_LIBRARY, TARGET_KIND_PLUGIN, TARGET_KIND_PROC_MACRO, TARGET_KIND_TEST,
    TARGET_KIND_UNKNOWN,
};

#[test]
fn an_owner_is_written_with_all_its_fields() {
    assert_eq!(
        owner_json("Sources/", "prefix", "My \"App\"", "My--App-", "source"),
        "{\"path\":\"Sources/\",\"match_kind\":\"prefix\",\"label\":\"My \\\"App\\\"\",\
         \"project_id\":\"My--App-\",\"target_id\":\"My--App-\",\"kind\":\"source\"}"
    );
}

#[test]
fn a_target_is_written_with_all_its_fields() {
    assert_eq!(
        emit_target(KIND_XCODEPROJ, "My App", TARGET_KIND_BINARY, Some("xcode-app")),
        "{\"id\":\"My-App\",\"name\":\"My App\",\"kind\":\"app\",\"subtype\":\"xcode-app\",\
         \"capabilities\":[\"is-executable\",\"has-ui\"],\"language\":\"swift\",\
         \"source_roots\":[\"Sources/\"],\"test_roots\":[\"Tests/\"],\
         \"build_roots\":[\"DerivedData/\"]}"
    );
}

#[test]
fn target_kinds_have_names() {
    let cases: Vec<(u8, &str)> = vec![
        (TARGET_KIND_BINARY, "app"),
        (TARGET_KIND_TEST, "test"),
        (TARGET_KIND_FRAMEWORK, "framework"),
        (TARGET_KIND_EXTENSION, "extension"),
        (TARGET_KIND_LIBRARY, "library"),
        (TARGET_KIND_PROC_MACRO, "library"),
        (TARGET_KIND_PLUGIN, "library"),
        (TARGET_KIND_UNKNOWN, "target"),
        (13, "target"),
    ];
    for (kind, name) in cases {
        let text = emit_target(KIND_SPM, "T", kind, None);
        let start = format!("{{\"id\":\"T\",\"name\":\"T\",\"kind\":\"{}\",\"subtype\":null,", name);
        assert!(text.starts_with(&start));
        assert!(text.ends_with("\"build_roots\":[\".build/\"]}"));
    }
}

#[test]
fn a_package_model_is_written_in_full() {
    let mut targets = Targets::new();
    targets.push(b"Core", TARGET_KIND_LIBRARY, b"swift-library");
    targets.push(b"CoreTests", TARGET_KIND_TEST, b"swiftpm-test");
    assert_eq!(
        emit_model(KIND_SPM, "/work/demo", "swift", "Demo", "/work/demo/Package.swift", &targets),
        "{\"schema_version\":1,\"ecosystem\":\"swift\",\"root\":\"/work/demo\",\
         \"display_name\":\"Demo\",\"primary_manifest_path\":\"/work/demo/Package.swift\",\
         \"projects\":[{\"id\":\"Demo\",\"name\":\"Demo\",\"kind\":\"library\",\
         \"subtype\":\"swift-package\",\"capabilities\":[\"is-library\",\"is-test-only\"],\
         \"manifest_path\":\"/work/demo/Package.swift\",\"source_roots\":[\"Sources/\"],\
         \"test_roots\":[\"Tests/\"],\"build_roots\":[\".build/\"],\"targets\":[\
         {\"id\":\"Core\",\"name\":\"Core\",\"kind\":\"library\",\"subtype\":\"swift-library\",\
         \"capabilities\":[\"is-library\"],\"language\":\"swift\",\
         \"source_roots\":[\"Sources/\"],\"test_roots\":[\"Tests/\"],\
         \"build_roots\":[\".build/\"]},\
         {\"id\":\"CoreTests\",\"name\":\"CoreTests\",\"kind\":\"test\",\
         \"subtype\":\"swiftpm-test\",\"capabilities\":[\"is-test-only\"],\
         \"language\":\"swift\",\"source_roots\":[\"Sources/\"],\"test_roots\":[\"Tests/\"],\
         \"build_roots\":[\".build/\"]}]}],\"owners\":[\
         {\"path\":\"Package.swift\",\"match_kind\":\"exact\",\"label\":\"Demo\",\
         \"project_id\":\"Demo\",\"target_id\":\"Demo\",\"kind\":\"manifest\"},\
         {\"path\":\"Sources/\",\"match_kind\":\"prefix\",\"label\":\"Demo\",\
         \"project_id\":\"Demo\",\"target_id\":\"Demo\",\"kind\":\"source\"},\
         {\"path\":\"Tests/\",\"match_kind\":\"prefix\",\"label\":\"Demo tests\",\
         \"project_id\":\"Demo\",\"target_id\":\"Demo\",\"kind\":\"test\"}]}"
    );
}

#[test]
fn a_workspace_model_has_no_targets_and_two_owners() {
    assert_eq!(
        emit_model(KIND_XCWORKSPACE, "/w", "swift", "", "/w/c", &Targets::new()),
        "{\"schema_version\":1,\"ecosystem\":\"swift\",\"root\":\"/w\",\"display_name\":\"\",\
         \"primary_manifest_path\":\"/w/c\",\"projects\":[{\"id\":\"swift-project\",\
         \"name\":\"\",\"kind\":\"workspace\",\"subtype\":\"xcode-workspace\",\
         \"capabilities\":[],\"manifest_path\":\"/w/c\",\"source_roots\":[\"Sources/\"],\
         \"test_roots\":[\"Tests/\"],\"build_roots\":[\"DerivedData/\"],\"targets\":[]}],\
         \"owners\":[{\"path\":\"Sources/\",\"match_kind\":\"prefix\",\"label\":\"\",\
         \"project_id\":\"swift-project\",\"target_id\":\"swift-project\",\"kind\":\"source\"},\
         {\"path\":\"Tests/\",\"match_kind\":\"prefix\",\"label\":\" tests\",\
         \"project_id\":\"swift-project\",\"target_id\":\"swift-project\",\"kind\":\"test\"}]}"
    );
}

#[test]
fn an_unknown_project_kind_has_no_subtype() {
    let text = emit_model(7, "/w", "swift", "W", "/w/c", &Targets::new());
    assert!(text.contains("\"kind\":\"project\",\"subtype\":null,"));
}

#[test]
fn texts_are_escaped_but_the_ecosystem_is_not() {
    let text = emit_model(KIND_SPM, "C:\\w", "a\"b", "x\ny", "C:\\w\\p", &Targets::new());
    assert!(text.starts_with(
        "{\"schema_version\":1,\"ecosystem\":\"a\"b\",\"root\":\"C:\\\\w\",\
         \"display_name\":\"x\\ny\",\"primary_manifest_path\":\"C:\\\\w\\\\p\","
    ));
}

#[test]
fn names_that_are_not_utf8_are_decoded_lossily() {
    let mut targets = Targets::new();
    let mut name = vec![b'n'; 127];
    name.extend_from_slice("\u{e9}".as_bytes());
    targets.push(&name, TARGET_KIND_LIBRARY, b"s\xff");
    let text = emit_model(KIND_SPM, "/w", "swift", "W", "/w/p", &targets);
    let shown = format!("\"name\":\"{}\u{fffd}\",", "n".repeat(127));
    assert!(text.contains(&shown));
    let id = format!("\"id\":\"{}-\",", "n".repeat(127));
    assert!(text.contains(&id));
    assert!(text.contains("\"subtype\":\"s\u{fffd}\","));
}

#[test]
fn no_text_ends_the_string_it_stands_in() {
    let plain = emit_model(KIND_SPM, "/w", "swift", "A", "/w/p", &Targets::new());
    let tricky = "A\",\"primary_manifest_path\":\"/x";
    let other = emit_model(KIND_SPM, "/w", "swift", tricky, "/w/p", &Targets::new());
    assert_ne!(plain, other);
    assert!(other.contains(
        "\"display_name\":\"A\\\",\\\"primary_manifest_path\\\":\\\"/x\",\"primary_manifest_path\":\"/w/p\","
    ));
}
