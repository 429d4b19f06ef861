use swift_project_model::text::{
    chars_of, ends_with, path_file_name, path_parent, sanitize_id, text_eq, text_of,
    trim_end_matches, white_space,
};

#[test]
fn white_space_is_that_of_unicode() {
    for code in 0..=0x10ffffu32 {
        if let Some(c) = char::from_u32(code) {
            assert_eq!(white_space(c), c.is_whitespace(), "{:x}", code);
        }
    }
}

#[test]
fn identifiers_hold_identifier_characters_only() {
    assert_eq!(sanitize_id("MyApp"), "MyApp");
    assert_eq!(sanitize_id("  My App/2.0_x-y \n"), "My-App-2-0_x-y");
    assert_eq!(sanitize_id("\u{e9}t\u{e9}"), "-t-");
    assert_eq!(sanitize_id("\u{3000}a\u{2003}b\u{a0}"), "a-b");
    assert_eq!(sanitize_id("@[`{/:"), "------");
}

#[test]
fn an_empty_identifier_gets_a_fixed_name() {
    assert_eq!(sanitize_id(""), "swift-project");
    assert_eq!(sanitize_id(" \t\u{2028}\n"), "swift-project");
}

#[test]
fn identifiers_stay_as_they_are() {
    for text in ["", "a b", " x ", "\u{e9}", "a/b\\c"] {
        let once = sanitize_id(text);
        assert_eq!(sanitize_id(&once), once);
    }
}

#[test]
fn the_file_name_follows_the_last_separator() {
    for path in ["", "a", "/a/b", "/a/b/", "c:\\x\\y", "a/b\\c", "\\", "\u{e9}/\u{e8}"] {
        assert_eq!(path_file_name(path), path.rsplit(['/', '\\']).next().unwrap());
    }
    assert_eq!(path_file_name("/work/Demo"), "Demo");
    assert_eq!(path_file_name("/work/Demo/"), "");
}

#[test]
fn the_parent_stands_before_the_last_separator() {
    for path in ["", "a", "/a/b", "/a/b/", "c:\\x\\y", "a/b\\c", "\\", "\u{e9}/\u{e8}"] {
        let parent = path.rsplit_once(['/', '\\']).map(|(parent, _)| parent).unwrap_or(path);
        assert_eq!(path_parent(path), parent);
    }
    assert_eq!(path_parent("/work/Demo.xcodeproj"), "/work");
    assert_eq!(path_parent("Demo.xcodeproj"), "Demo.xcodeproj");
}

#[test]
fn suffixes_are_compared_and_taken_off() {
    for text in ["", ".p", "a.p", "a.p.p", ".p.p", "a.px", "p", "a.P", "\u{e9}.p"] {
        assert_eq!(ends_with(text, ".p"), text.ends_with(".p"));
        assert_eq!(trim_end_matches(text, ".p"), text.trim_end_matches(".p"));
    }
    assert_eq!(trim_end_matches("App.xcodeproj.xcodeproj", ".xcodeproj"), "App");
}

#[test]
fn texts_are_made_of_characters() {
    let chars = chars_of("a\u{e9}\u{1f600}z");
    assert_eq!(chars, vec!['a', '\u{e9}', '\u{1f600}', 'z']);
    assert_eq!(text_of(&chars, 1, 3), "\u{e9}\u{1f600}");
    assert_eq!(text_of(&chars, 2, 2), "");
    assert!(text_eq("\u{e9}", "\u{e9}"));
    assert!(!text_eq("e", "\u{e9}"));
}
