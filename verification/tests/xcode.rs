use swift_project_model::targets::{
    TARGET_KIND_BINARY, TARGET_KIND_EXTENSION, TARGET_KIND_FRAMEWORK, TARGET_KIND_LIBRARY,
    TARGET_KIND_TEST, TARGET_KIND_UNKNOWN,
};
use swift_project_model::xcode::{parse_pbxproj, product_type_info};

const PROJECT: &[u8] = b"// !$*UTF8*$!
name = \"Outside\"; productType = \"com.apple.product-type.tool\";
/* Begin PBXNativeTarget section */
		AA = {
			isa = PBXNativeTarget;
			name = \"App\";
			productName = App;
			productType = \"com.apple.product-type.application\";
		};
		BB = {
			name = \"AppTests\";
			productType = \"com.apple.product-type.bundle.unit-test\";
		};
		CC = {
			name = \"Bare\";
		};
		DD = {
			name = \"\";
			productType = \"com.apple.product-type.framework\";
		};
		EE = {
			name = \"Kit\";
			productType = \"com.apple.product-type.framework\";
		};
/* End PBXNativeTarget section */
name = \"Behind\";
";

#[test]
fn product_types_are_told_apart() {
    let cases: Vec<(&str, u8, &str)> = vec![
        ("application", TARGET_KIND_BINARY, "xcode-app"),
        ("tool", TARGET_KIND_BINARY, "cli"),
        ("commandline-tool", TARGET_KIND_BINARY, "cli"),
        ("app-clip", TARGET_KIND_BINARY, "app-clip"),
        ("framework", TARGET_KIND_FRAMEWORK, "framework"),
        ("static-framework", TARGET_KIND_FRAMEWORK, "framework"),
        ("unit-test-bundle", TARGET_KIND_TEST, "xcode-test-bundle"),
        ("ui-testing-bundle", TARGET_KIND_TEST, "xcode-test-bundle"),
        ("app-extension", TARGET_KIND_EXTENSION, "app-extension"),
        ("tv-app-extension", TARGET_KIND_EXTENSION, "app-extension"),
        ("system-extension", TARGET_KIND_EXTENSION, "app-extension"),
        ("watchkit-extension", TARGET_KIND_EXTENSION, "app-extension"),
        ("extensionkit-extension", TARGET_KIND_EXTENSION, "app-extension"),
        ("library.static", TARGET_KIND_LIBRARY, "library"),
        ("library.dynamic", TARGET_KIND_LIBRARY, "library"),
        ("bundle", TARGET_KIND_LIBRARY, "library"),
        ("bundle.unit-test", TARGET_KIND_LIBRARY, "library"),
        ("xpc-service", TARGET_KIND_UNKNOWN, ""),
        ("Application", TARGET_KIND_UNKNOWN, ""),
    ];
    for (name, kind, subtype) in cases {
        assert_eq!(product_type_info(name.as_bytes()), (kind, subtype.as_bytes()));
        let long = format!("com.apple.product-type.{}", name);
        assert_eq!(product_type_info(long.as_bytes()), (kind, subtype.as_bytes()));
    }
    assert_eq!(product_type_info(b""), (TARGET_KIND_UNKNOWN, &b""[..]));
    assert_eq!(product_type_info(b"com.apple.product-type."), (TARGET_KIND_UNKNOWN, &b""[..]));
}

#[test]
fn native_targets_are_read_from_their_section() {
    let targets = parse_pbxproj(PROJECT);
    assert_eq!(targets.count(), 4);
    assert_eq!(targets.name(0), b"App");
    assert_eq!(targets.kind(0), TARGET_KIND_BINARY);
    assert_eq!(targets.subtype(0), b"xcode-app");
    assert_eq!(targets.name(1), b"AppTests");
    assert_eq!(targets.kind(1), TARGET_KIND_LIBRARY);
    assert_eq!(targets.subtype(1), b"library");
    assert_eq!(targets.name(2), b"Bare");
    assert_eq!(targets.kind(2), TARGET_KIND_UNKNOWN);
    assert!(targets.subtype(2).is_empty());
    assert_eq!(targets.name(3), b"Kit");
    assert_eq!(targets.kind(3), TARGET_KIND_FRAMEWORK);
}

#[test]
fn a_project_without_the_section_has_no_targets() {
    assert_eq!(parse_pbxproj(b"").count(), 0);
    assert_eq!(parse_pbxproj(b"name = \"A\"; };").count(), 0);
    assert_eq!(parse_pbxproj(b"/* Begin PBXNativeTarget section */").count(), 0);
}

#[test]
fn a_section_without_its_end_runs_to_the_end() {
    let targets = parse_pbxproj(b"/* Begin PBXNativeTarget section */ name = \"A\"");
    assert_eq!(targets.count(), 1);
    assert_eq!(targets.name(0), b"A");
    assert_eq!(targets.kind(0), TARGET_KIND_UNKNOWN);
}

#[test]
fn an_unclosed_name_ends_the_list() {
    let targets = parse_pbxproj(b"/* Begin PBXNativeTarget section */ name = \"A");
    assert_eq!(targets.count(), 0);
}

#[test]
fn an_unclosed_product_type_ends_with_its_stanza() {
    let targets = parse_pbxproj(
        b"/* Begin PBXNativeTarget section */ name = \"A\"; productType = \"tool};",
    );
    assert_eq!(targets.count(), 1);
    assert_eq!(targets.kind(0), TARGET_KIND_BINARY);
    assert_eq!(targets.subtype(0), b"cli");
}

#[test]
fn a_product_type_behind_the_stanza_does_not_count() {
    let targets = parse_pbxproj(
        b"/* Begin PBXNativeTarget section */ name = \"A\"; }; productType = \"tool\";",
    );
    assert_eq!(targets.count(), 1);
    assert_eq!(targets.kind(0), TARGET_KIND_UNKNOWN);
}
