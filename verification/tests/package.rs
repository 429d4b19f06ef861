use swift_project_model::package::{package_name_bytes, parse_package_name, parse_package_swift};
use swift_project_model::targets::{
    Targets, TARGET_KIND_BINARY, TARGET_KIND_FRAMEWORK, TARGET_KIND_LIBRARY, TARGET_KIND_PLUGIN,
    TARGET_KIND_PROC_MACRO, TARGET_KIND_TEST,
};

fn listed(targets: &Targets) -> Vec<(String, u8, String)> {
    let mut all = Vec::new();
    for i in 0..targets.count() {
        all.push((
            String::from_utf8(targets.name(i).to_vec()).unwrap(),
            targets.kind(i),
            String::from_utf8(targets.subtype(i).to_vec()).unwrap(),
        ));
    }
    all
}

fn entry(name: &str, kind: u8, subtype: &str) -> (String, u8, String) {
    (name.to_string(), kind, subtype.to_string())
}

const MANIFEST: &[u8] = b"// swift-tools-version:5.9
import PackageDescription

let package = Package(
    name: \"Demo\",
    targets: [
        .executableTarget(name: \"App\", dependencies: [\"Core\"]),
        .target(
            name: \"Core\"
        ),
        .macro(name:\t\"Macros\"),
        .plugin(name: \"Gen\", capability: .buildTool()),
        .binaryTarget(name: \"Blob\", path: \"Blob.xcframework\"),
        .testTarget(name: \"CoreTests\", dependencies: [.target(name: \"Core\")]),
    ]
)
";

#[test]
fn every_kind_of_declaration_is_found() {
    assert_eq!(
        listed(&parse_package_swift(MANIFEST)),
        vec![
            entry("App", TARGET_KIND_BINARY, "swift-executable"),
            entry("Core", TARGET_KIND_LIBRARY, "swift-library"),
            entry("Macros", TARGET_KIND_PROC_MACRO, "swift-macro"),
            entry("Gen", TARGET_KIND_PLUGIN, "swift-plugin"),
            entry("Blob", TARGET_KIND_FRAMEWORK, "binary-target"),
            entry("CoreTests", TARGET_KIND_TEST, "swiftpm-test"),
            entry("Core", TARGET_KIND_LIBRARY, "swift-library"),
        ]
    );
}

#[test]
fn a_manifest_without_declarations_has_no_targets() {
    assert_eq!(parse_package_swift(b"").count(), 0);
    assert_eq!(parse_package_swift(b"let package = Package(name: \"Demo\")").count(), 0);
}

#[test]
fn a_declaration_without_a_name_is_left_out() {
    assert_eq!(parse_package_swift(b".target()").count(), 0);
    assert_eq!(parse_package_swift(b".target(name: \"\")").count(), 0);
    assert_eq!(parse_package_swift(b".target(name: ident)").count(), 0);
}

#[test]
fn the_name_is_looked_for_in_the_window_only() {
    let mut near = b".target(".to_vec();
    near.extend_from_slice(&[b' '; 251]);
    near.extend_from_slice(b"name: \"Near\")");
    assert_eq!(listed(&parse_package_swift(&near)), vec![entry("Near", 1, "swift-library")]);
    let mut far = b".target(".to_vec();
    far.extend_from_slice(&[b' '; 252]);
    far.extend_from_slice(b"name: \"Far\")");
    assert_eq!(parse_package_swift(&far).count(), 0);
}

#[test]
fn an_unclosed_name_runs_to_the_end() {
    assert_eq!(
        listed(&parse_package_swift(b".macro(name: \"Open")),
        vec![entry("Open", TARGET_KIND_PROC_MACRO, "swift-macro")]
    );
}

#[test]
fn only_the_first_declarations_are_kept() {
    let mut data = Vec::new();
    for i in 0..100 {
        data.extend_from_slice(format!(".target(name: \"T{}\")\n", i).as_bytes());
    }
    let targets = parse_package_swift(&data);
    assert_eq!(targets.count(), 64);
    assert_eq!(targets.name(63), b"T63");
}

#[test]
fn the_package_name_is_the_first_labelled_value() {
    assert_eq!(parse_package_name(MANIFEST), Some("Demo".to_string()));
    assert_eq!(package_name_bytes(MANIFEST), Some(&b"Demo"[..]));
}

#[test]
fn empty_package_names_are_passed_over() {
    assert_eq!(package_name_bytes(b"name: \"\" name:ident name:\n\"Third\""), Some(&b"Third"[..]));
    assert_eq!(package_name_bytes(b"name:name:\"X\""), Some(&b"X"[..]));
    assert_eq!(package_name_bytes(b"name: \"\""), None);
    assert_eq!(package_name_bytes(b""), None);
    assert_eq!(parse_package_name(b"let x = 1"), None);
}

#[test]
fn a_package_name_that_is_not_utf8_is_decoded_lossily() {
    assert_eq!(parse_package_name(b"name: \"a\xffb\""), Some("a\u{fffd}b".to_string()));
    assert_eq!(parse_package_name("name: \"\u{e9}t\u{e9}\"".as_bytes()), Some("\u{e9}t\u{e9}".to_string()));
}
