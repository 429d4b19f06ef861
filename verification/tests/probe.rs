use swift_project_model::emit::emit_model;
use swift_project_model::model::{KIND_SPM, KIND_XCODEPROJ, KIND_XCWORKSPACE};
use swift_project_model::package::parse_package_swift;
use swift_project_model::probe::{
    first_probe, join_path, next_step, probe_fits, probe_path, Probe, Step,
};
use swift_project_model::targets::Targets;
use swift_project_model::xcode::parse_pbxproj;

const PACKAGE: &[u8] = b"Package(name: \"Demo\", targets: [.target(name: \"Core\")])";
const PROJECT: &[u8] = b"/* Begin PBXNativeTarget section */ name = \"App\"; \
    productType = \"com.apple.product-type.application\"; };";

/// Runs a whole search over the given files, and lists the paths that were read.
fn search(root: &str, files: &[(&str, &[u8])]) -> (Vec<u8>, Vec<String>) {
    let mut read = Vec::new();
    let mut probe = first_probe(root);
    loop {
        assert!(probe_fits(root, probe));
        let path = probe_path(root, probe);
        let mut data: &[u8] = &[];
        if !path.is_empty() {
            let path = String::from_utf8(path).unwrap();
            for (name, content) in files {
                if *name == path {
                    data = content;
                }
            }
            read.push(path);
        }
        match next_step(root, probe, data) {
            Step::Emit(model) => return (model, read),
            Step::Try(next) => probe = next,
            Step::NotFound => return (Vec::new(), read),
        }
    }
}

#[test]
fn paths_are_joined_with_a_slash() {
    assert_eq!(join_path(b"/w", b"Package.swift"), b"/w/Package.swift");
    assert_eq!(join_path(b"", b""), b"/");
}

#[test]
fn paths_that_are_too_long_are_empty() {
    assert_eq!(join_path(&[b'a'; 2000], &[b'b'; 46]).len(), 2047);
    assert!(join_path(&[b'a'; 2000], &[b'b'; 47]).is_empty());
    assert!(join_path(&[b'a'; 3000], b"").is_empty());
}

#[test]
fn a_search_starts_with_what_the_root_is() {
    assert_eq!(first_probe("/w/App.xcodeproj"), Probe::ProjectRoot);
    assert_eq!(first_probe("/w/App.xcworkspace"), Probe::WorkspaceRoot);
    assert_eq!(first_probe("/w/App"), Probe::Package);
    assert_eq!(first_probe("/w/App.xcodeproj/"), Probe::Package);
}

#[test]
fn a_search_that_finds_nothing_tries_every_place() {
    let (model, read) = search("/w/Demo", &[]);
    assert!(model.is_empty());
    assert_eq!(
        read,
        vec![
            "/w/Demo/Package.swift",
            "/w/Demo/Demo.xcodeproj/project.pbxproj",
            "/w/Demo/Demo.xcworkspace/contents.xcworkspacedata",
        ]
    );
    let (model, read) = search("/w/App.xcodeproj", &[]);
    assert!(model.is_empty());
    assert_eq!(
        read,
        vec![
            "/w/App.xcodeproj/project.pbxproj",
            "/w/App.xcodeproj/Package.swift",
            "/w/App.xcodeproj/App.xcodeproj.xcodeproj/project.pbxproj",
            "/w/App.xcodeproj/App.xcodeproj.xcworkspace/contents.xcworkspacedata",
        ]
    );
    let (model, read) = search("/w/App.xcworkspace", &[]);
    assert!(model.is_empty());
    assert_eq!(read[0], "/w/App.xcworkspace/contents.xcworkspacedata");
    assert_eq!(read.len(), 4);
}

#[test]
fn a_package_is_found_first() {
    let files: Vec<(&str, &[u8])> = vec![
        ("/w/Dir/Dir.xcodeproj/project.pbxproj", PROJECT),
        ("/w/Dir/Package.swift", PACKAGE),
    ];
    let (model, read) = search("/w/Dir", &files);
    let expected = emit_model(
        KIND_SPM,
        "/w/Dir",
        "swift",
        "Demo",
        "/w/Dir/Package.swift",
        &parse_package_swift(PACKAGE),
    );
    assert_eq!(model, expected.into_bytes());
    assert_eq!(read.len(), 1);
}

#[test]
fn a_package_without_a_name_takes_that_of_its_directory() {
    let files: Vec<(&str, &[u8])> = vec![("/w/Dir/Package.swift", b"Package()")];
    let (model, _) = search("/w/Dir", &files);
    let expected =
        emit_model(KIND_SPM, "/w/Dir", "swift", "Dir", "/w/Dir/Package.swift", &Targets::new());
    assert_eq!(model, expected.into_bytes());
}

#[test]
fn a_nested_project_is_found_where_there_is_no_package() {
    let files: Vec<(&str, &[u8])> = vec![
        ("/w/Dir/Package.swift", b""),
        ("/w/Dir/Dir.xcodeproj/project.pbxproj", PROJECT),
        ("/w/Dir/Dir.xcworkspace/contents.xcworkspacedata", b"<Workspace/>"),
    ];
    let (model, _) = search("/w/Dir", &files);
    let expected = emit_model(
        KIND_XCODEPROJ,
        "/w/Dir",
        "swift",
        "Dir",
        "/w/Dir/Dir.xcodeproj/project.pbxproj",
        &parse_pbxproj(PROJECT),
    );
    assert_eq!(model, expected.into_bytes());
}

#[test]
fn a_nested_workspace_is_found_last() {
    let files: Vec<(&str, &[u8])> =
        vec![("/w/Dir/Dir.xcworkspace/contents.xcworkspacedata", b"<Workspace/>")];
    let (model, read) = search("/w/Dir", &files);
    let expected = emit_model(
        KIND_XCWORKSPACE,
        "/w/Dir",
        "swift",
        "Dir",
        "/w/Dir/Dir.xcworkspace/contents.xcworkspacedata",
        &Targets::new(),
    );
    assert_eq!(model, expected.into_bytes());
    assert_eq!(read.len(), 3);
}

#[test]
fn a_project_root_belongs_to_its_directory() {
    let files: Vec<(&str, &[u8])> = vec![("/w/App.xcodeproj/project.pbxproj", PROJECT)];
    let (model, read) = search("/w/App.xcodeproj", &files);
    let expected = emit_model(
        KIND_XCODEPROJ,
        "/w",
        "swift",
        "App",
        "/w/App.xcodeproj/project.pbxproj",
        &parse_pbxproj(PROJECT),
    );
    assert_eq!(model, expected.into_bytes());
    assert_eq!(read.len(), 1);
}

#[test]
fn a_project_root_without_a_directory_is_its_own_root() {
    let files: Vec<(&str, &[u8])> = vec![("App.xcodeproj/project.pbxproj", PROJECT)];
    let (model, _) = search("App.xcodeproj", &files);
    let expected = emit_model(
        KIND_XCODEPROJ,
        "App.xcodeproj",
        "swift",
        "App",
        "App.xcodeproj/project.pbxproj",
        &parse_pbxproj(PROJECT),
    );
    assert_eq!(model, expected.into_bytes());
}

#[test]
fn a_workspace_root_belongs_to_its_directory() {
    let files: Vec<(&str, &[u8])> =
        vec![("C:\\w\\App.xcworkspace/contents.xcworkspacedata", b"<Workspace/>")];
    let (model, _) = search("C:\\w\\App.xcworkspace", &files);
    let expected = emit_model(
        KIND_XCWORKSPACE,
        "C:\\w",
        "swift",
        "App",
        "C:\\w\\App.xcworkspace/contents.xcworkspacedata",
        &Targets::new(),
    );
    assert_eq!(model, expected.into_bytes());
}

#[test]
fn long_directory_names_do_not_fit_nested_probes() {
    let at_230 = format!("/{}", "d".repeat(230));
    let at_231 = format!("/{}", "d".repeat(231));
    let at_210 = format!("/{}", "d".repeat(210));
    let at_211 = format!("/{}", "d".repeat(211));
    assert!(probe_fits(&at_230, Probe::NestedProject));
    assert!(!probe_fits(&at_231, Probe::NestedProject));
    assert!(probe_fits(&at_210, Probe::NestedWorkspace));
    assert!(!probe_fits(&at_211, Probe::NestedWorkspace));
    assert!(probe_fits(&at_231, Probe::Package));
    let accented = format!("/{}", "\u{e9}".repeat(116));
    assert!(!probe_fits(&accented, Probe::NestedProject));
}

#[test]
fn a_root_that_is_too_long_is_never_read() {
    let root = format!("/{}", "d/".repeat(1100));
    let (model, read) = search(&root, &[]);
    assert!(model.is_empty());
    assert!(read.is_empty());
    assert_eq!(next_step(&root, Probe::Package, PACKAGE), Step::Try(Probe::NestedProject));
}
