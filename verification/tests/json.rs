use swift_project_model::json::{escape_json, quote_list, quote_opt};

fn unescape(text: &str) -> String {
    let mut out = String::new();
    let mut chars = text.chars();
    while let Some(c) = chars.next() {
        assert!(c >= ' ' && c != '"');
        if c != '\\' {
            out.push(c);
            continue;
        }
        match chars.next().unwrap() {
            'n' => out.push('\n'),
            'r' => out.push('\r'),
            't' => out.push('\t'),
            'u' => {
                let digits: String = chars.by_ref().take(4).collect();
                out.push(char::from_u32(u32::from_str_radix(&digits, 16).unwrap()).unwrap());
            }
            other => out.push(other),
        }
    }
    out
}

#[test]
fn plain_text_is_written_as_it_stands() {
    assert_eq!(escape_json(""), "");
    assert_eq!(escape_json("Sources/App \u{e9}\u{1f600}\u{7f}"), "Sources/App \u{e9}\u{1f600}\u{7f}");
}

#[test]
fn special_characters_are_escaped() {
    assert_eq!(escape_json("a\"b"), "a\\\"b");
    assert_eq!(escape_json("a\\b"), "a\\\\b");
    assert_eq!(escape_json("\n\r\t"), "\\n\\r\\t");
    assert_eq!(escape_json("\u{0}\u{8}\u{c}\u{1f}"), "\\u0000\\u0008\\u000C\\u001F");
    assert_eq!(escape_json("\u{b}\u{10}"), "\\u000B\\u0010");
}

#[test]
fn escaped_text_reads_back() {
    for code in 0..0x3000u32 {
        if let Some(c) = char::from_u32(code) {
            let text = format!("x{}\"\\{}", c, c);
            assert_eq!(unescape(&escape_json(&text)), text);
        }
    }
}

#[test]
fn optional_strings_are_quoted_or_null() {
    assert_eq!(quote_opt(None), "null");
    assert_eq!(quote_opt(Some("")), "\"\"");
    assert_eq!(quote_opt(Some("a\"b")), "\"a\\\"b\"");
}

#[test]
fn lists_have_commas_between_their_items() {
    assert_eq!(quote_list(&[]), "");
    assert_eq!(quote_list(&["a".to_string()]), "\"a\"");
    assert_eq!(
        quote_list(&["a".to_string(), "".to_string(), "b\n".to_string()]),
        "\"a\",\"\",\"b\\n\""
    );
}
