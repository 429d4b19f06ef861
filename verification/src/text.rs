//! Texts: decoding, trimming, identifiers and the parts of a path.

use crate::scan::bytes_eq;
use vstd::prelude::*;
use vstd::utf8::{
    decode_utf8, decode_utf8_encode_utf8, encode_utf8, encode_utf8_decode_utf8,
    encode_utf8_valid_utf8, valid_utf8,
};

verus! {

/// What `String::push` does: it appends the character, and changes nothing before it.
pub assume_specification[ String::push ](text: &mut String, c: char)
    ensures
        final(text)@ == old(text)@.push(c),
;

/// The text that `String::from_utf8_lossy` makes of bytes.
pub uninterp spec fn lossy_text(bytes: Seq<u8>) -> Seq<char>;

/// Decodes bytes with `String::from_utf8_lossy`. Well-formed UTF-8 comes out as the text
/// that it encodes. Of ill-formed bytes the result holds the replacement character U+FFFD;
/// how many bytes each one stands for is not spelled out, the result is only named.
#[verifier::external_body]
pub(crate) fn utf8_lossy(bytes: &[u8]) -> (text: String)
    ensures
        text@ == lossy_text(bytes@),
        valid_utf8(bytes@) ==> text@ == decode_utf8(bytes@),
        !valid_utf8(bytes@) ==> text@.contains('\u{fffd}'),
{
    String::from_utf8_lossy(bytes).into_owned()
}

/// The text of bytes that should be UTF-8: what they encode, or, where they are ill-formed,
/// what the lossy decoder makes of them.
pub open spec fn decoded(bytes: Seq<u8>) -> Seq<char> {
    if valid_utf8(bytes) {
        decode_utf8(bytes)
    } else {
        lossy_text(bytes)
    }
}

/// What a text encodes to decodes to that text.
pub proof fn law_decoded_reads_back(text: Seq<char>)
    ensures
        decoded(encode_utf8(text)) == text,
{
    encode_utf8_valid_utf8(text);
    encode_utf8_decode_utf8(text);
}

/// Well-formed bytes decode to a text that encodes to them.
pub proof fn law_decoded_keeps_bytes(bytes: Seq<u8>)
    requires
        valid_utf8(bytes),
    ensures
        encode_utf8(decoded(bytes)) == bytes,
{
    decode_utf8_encode_utf8(bytes);
}

/// Ill-formed bytes decode to what the lossy decoder makes of them.
pub proof fn law_ill_formed_bytes(bytes: Seq<u8>)
    requires
        !valid_utf8(bytes),
    ensures
        decoded(bytes) == lossy_text(bytes),
{
}

/// The bytes of two texts in a row are the bytes of the one and of the other.
pub(crate) proof fn lemma_encode_concat(a: Seq<char>, b: Seq<char>)
    ensures
        encode_utf8(a + b) == encode_utf8(a) + encode_utf8(b),
    decreases a.len(),
{
    if a.len() == 0 {
        assert(a + b =~= b);
        assert(encode_utf8(a) + encode_utf8(b) =~= encode_utf8(b));
    } else {
        lemma_encode_concat(a.drop_first(), b);
        assert((a + b).drop_first() =~= a.drop_first() + b);
        assert(encode_utf8(a + b) =~= encode_utf8(a) + encode_utf8(b));
    }
}

/// The characters of a text.
pub fn chars_of(text: &str) -> (chars: Vec<char>)
    ensures
        chars@ == text@,
{
    let mut chars: Vec<char> = Vec::new();
    for c in it: text.chars()
        invariant
            it.seq() == text@,
            chars@ == it.seq().take(it.index() as int),
    {
        chars.push(c);
    }
    chars
}

/// The text made of the characters from `from` up to `to`.
pub fn text_of(chars: &Vec<char>, from: usize, to: usize) -> (text: String)
    requires
        from <= to <= chars@.len(),
    ensures
        text@ == chars@.subrange(from as int, to as int),
{
    let mut text = String::new();
    let mut i: usize = from;
    while i < to
        invariant
            from <= i <= to <= chars@.len(),
            text@ == chars@.subrange(from as int, i as int),
        decreases to - i,
    {
        text.push(chars[i]);
        i += 1;
    }
    text
}

/// Whether two texts are equal.
pub fn text_eq(a: &str, b: &str) -> (equal: bool)
    ensures
        equal == (a@ == b@),
{
    proof {
        encode_utf8_decode_utf8(a@);
        encode_utf8_decode_utf8(b@);
    }
    bytes_eq(a.as_bytes(), b.as_bytes())
}

/// The characters that have Unicode's `White_Space` property.
pub open spec fn is_white_space(c: char) -> bool {
    ||| '\u{9}' <= c <= '\u{d}'
    ||| c == '\u{20}'
    ||| c == '\u{85}'
    ||| c == '\u{a0}'
    ||| c == '\u{1680}'
    ||| '\u{2000}' <= c <= '\u{200a}'
    ||| c == '\u{2028}'
    ||| c == '\u{2029}'
    ||| c == '\u{202f}'
    ||| c == '\u{205f}'
    ||| c == '\u{3000}'
}

/// A text without the white space at its two ends.
pub open spec fn trimmed(text: Seq<char>) -> Seq<char>
    decreases text.len(),
{
    if text.len() > 0 && is_white_space(text.first()) {
        trimmed(text.drop_first())
    } else if text.len() > 0 && is_white_space(text.last()) {
        trimmed(text.drop_last())
    } else {
        text
    }
}

/// The characters that an identifier may hold: ASCII letters and digits, `-` and `_`.
pub open spec fn is_id_char(c: char) -> bool {
    ||| 'a' <= c <= 'z'
    ||| 'A' <= c <= 'Z'
    ||| '0' <= c <= '9'
    ||| c == '-'
    ||| c == '_'
}

/// A character of an identifier; `-` stands for one that an identifier may not hold.
pub open spec fn id_char(c: char) -> char {
    if is_id_char(c) {
        c
    } else {
        '-'
    }
}

/// The identifier made of a text.
pub open spec fn sanitized(text: Seq<char>) -> Seq<char> {
    if trimmed(text).len() == 0 {
        "swift-project"@
    } else {
        trimmed(text).map_values(|c: char| id_char(c))
    }
}

/// Whether a character has Unicode's `White_Space` property.
pub fn white_space(c: char) -> (yes: bool)
    ensures
        yes == is_white_space(c),
{
    ('\u{9}' <= c && c <= '\u{d}') || c == '\u{20}' || c == '\u{85}' || c == '\u{a0}' || c
        == '\u{1680}' || ('\u{2000}' <= c && c <= '\u{200a}') || c == '\u{2028}' || c == '\u{2029}'
        || c == '\u{202f}' || c == '\u{205f}' || c == '\u{3000}'
}

/// The numbers of the characters that count as white space.
pub proof fn law_white_space_numbers(c: char)
    ensures
        is_white_space(c) <==> {
            let n = c as int;
            ||| 9 <= n <= 13
            ||| n == 32
            ||| n == 133
            ||| n == 160
            ||| n == 5760
            ||| 8192 <= n <= 8202
            ||| n == 8232
            ||| n == 8233
            ||| n == 8239
            ||| n == 8287
            ||| n == 12288
        },
{
}

/// Makes an identifier of a text: white space at the ends goes, every character that an
/// identifier may not hold becomes `-`, and where nothing is left a fixed one is taken.
pub fn sanitize_id(value: &str) -> (id: String)
    ensures
        id@ == sanitized(value@),
{
    let chars = chars_of(value);
    let mut from: usize = 0;
    let mut to: usize = chars.len();
    assert(chars@.subrange(0, to as int) =~= chars@);
    while from < to && white_space(chars[from])
        invariant
            from <= to == chars@.len(),
            trimmed(chars@) == trimmed(chars@.subrange(from as int, to as int)),
        ensures
            from <= to == chars@.len(),
            trimmed(chars@) == trimmed(chars@.subrange(from as int, to as int)),
            from < to ==> !is_white_space(chars@[from as int]),
        decreases to - from,
    {
        assert(chars@.subrange(from as int, to as int).drop_first() =~= chars@.subrange(
            from + 1,
            to as int,
        ));
        from += 1;
    }
    while from < to && white_space(chars[to - 1])
        invariant
            from <= to <= chars@.len(),
            trimmed(chars@) == trimmed(chars@.subrange(from as int, to as int)),
            from < to ==> !is_white_space(chars@[from as int]),
        ensures
            from <= to <= chars@.len(),
            trimmed(chars@) == chars@.subrange(from as int, to as int),
        decreases to - from,
    {
        assert(chars@.subrange(from as int, to as int).drop_last() =~= chars@.subrange(
            from as int,
            to - 1,
        ));
        to -= 1;
    }
    if from >= to {
        return "swift-project".to_string();
    }
    let mut id = String::new();
    let mut i: usize = from;
    while i < to
        invariant
            from <= i <= to <= chars@.len(),
            id@ == chars@.subrange(from as int, i as int).map_values(|c: char| id_char(c)),
        decreases to - i,
    {
        let c: char = chars[i];
        let allowed: bool = ('a' <= c && c <= 'z') || ('A' <= c && c <= 'Z') || ('0' <= c && c
            <= '9') || c == '-' || c == '_';
        id.push(
            if allowed {
                c
            } else {
                '-'
            },
        );
        i += 1;
        assert(id@ =~= chars@.subrange(from as int, i as int).map_values(|c: char| id_char(c)));
    }
    id
}

/// An identifier is never empty, and holds identifier characters only.
pub proof fn law_sanitized_is_identifier(text: Seq<char>)
    ensures
        sanitized(text).len() > 0,
        forall|i: int| 0 <= i < sanitized(text).len() ==> is_id_char(#[trigger] sanitized(text)[i]),
{
    reveal_strlit("swift-project");
}

/// Making an identifier of an identifier changes nothing.
pub proof fn law_sanitized_idempotent(text: Seq<char>)
    ensures
        sanitized(sanitized(text)) == sanitized(text),
{
    law_sanitized_is_identifier(text);
    let id = sanitized(text);
    assert(is_id_char(id[0]));
    assert(is_id_char(id[id.len() - 1]));
    assert(trimmed(id) == id);
    assert(sanitized(id) =~= id);
}

proof fn lemma_trimmed_white(text: Seq<char>)
    requires
        forall|i: int| 0 <= i < text.len() ==> is_white_space(#[trigger] text[i]),
    ensures
        trimmed(text) == Seq::<char>::empty(),
    decreases text.len(),
{
    if text.len() > 0 {
        let rest = text.drop_first();
        assert(is_white_space(text[0]));
        assert forall|i: int| 0 <= i < rest.len() implies is_white_space(#[trigger] rest[i]) by {
            assert(rest[i] == text[i + 1]);
        }
        lemma_trimmed_white(rest);
    } else {
        assert(text =~= Seq::empty());
    }
}

proof fn lemma_trimmed_after(text: Seq<char>, after: Seq<char>)
    requires
        forall|i: int| 0 <= i < after.len() ==> is_white_space(#[trigger] after[i]),
    ensures
        trimmed(text + after) == trimmed(text),
    decreases text.len() + after.len(),
{
    let whole = text + after;
    if text.len() == 0 {
        assert(whole =~= after);
        lemma_trimmed_white(after);
        assert(trimmed(text) =~= Seq::empty());
    } else if is_white_space(text[0]) {
        lemma_trimmed_after(text.drop_first(), after);
        assert(whole.drop_first() =~= text.drop_first() + after);
    } else if after.len() > 0 {
        assert(is_white_space(after[after.len() - 1]));
        assert(whole.drop_last() =~= text + after.drop_last());
        assert forall|i: int| 0 <= i < after.drop_last().len() implies is_white_space(
            #[trigger] after.drop_last()[i],
        ) by {
            assert(after.drop_last()[i] == after[i]);
        }
        lemma_trimmed_after(text, after.drop_last());
    } else {
        assert(whole =~= text);
    }
}

proof fn lemma_trimmed_before(before: Seq<char>, text: Seq<char>)
    requires
        forall|i: int| 0 <= i < before.len() ==> is_white_space(#[trigger] before[i]),
    ensures
        trimmed(before + text) == trimmed(text),
    decreases before.len(),
{
    let whole = before + text;
    if before.len() > 0 {
        let rest = before.drop_first();
        assert(is_white_space(before[0]));
        assert(whole.drop_first() =~= rest + text);
        assert forall|i: int| 0 <= i < rest.len() implies is_white_space(#[trigger] rest[i]) by {
            assert(rest[i] == before[i + 1]);
        }
        lemma_trimmed_before(rest, text);
    } else {
        assert(whole =~= text);
    }
}

/// White space round a text has no part in its identifier.
pub proof fn law_white_space_round_id(before: Seq<char>, text: Seq<char>, after: Seq<char>)
    requires
        forall|i: int| 0 <= i < before.len() ==> is_white_space(#[trigger] before[i]),
        forall|i: int| 0 <= i < after.len() ==> is_white_space(#[trigger] after[i]),
    ensures
        sanitized(before + text + after) == sanitized(text),
{
    lemma_trimmed_before(before, text + after);
    lemma_trimmed_after(text, after);
    assert(before + text + after =~= before + (text + after));
}

/// White space alone makes the identifier `swift-project`.
pub proof fn law_blank_id(text: Seq<char>)
    requires
        forall|i: int| 0 <= i < text.len() ==> is_white_space(#[trigger] text[i]),
    ensures
        sanitized(text) == "swift-project"@,
{
    lemma_trimmed_white(text);
}

/// A text with no white space at its ends has an identifier of the same length. ASCII
/// letters, ASCII digits, `-` and `_` stand in it as they are, and `-` for any other character.
pub proof fn law_id_characters(text: Seq<char>)
    requires
        text.len() > 0,
        !is_white_space(text[0]),
        !is_white_space(text[text.len() - 1]),
    ensures
        sanitized(text).len() == text.len(),
        forall|i: int|
            0 <= i < text.len() ==> #[trigger] sanitized(text)[i] == if ('a' <= text[i] <= 'z') || (
            'A' <= text[i] <= 'Z') || ('0' <= text[i] <= '9') || text[i] == '-' || text[i] == '_' {
                text[i]
            } else {
                '-'
            },
{
}

/// The characters that part a path.
pub open spec fn is_separator(c: char) -> bool {
    c == '/' || c == '\\'
}

/// Where the last separator of a path stands; -1 where it has none.
pub open spec fn last_separator(path: Seq<char>) -> int
    decreases path.len(),
{
    if path.len() == 0 {
        -1
    } else if is_separator(path.last()) {
        path.len() - 1
    } else {
        last_separator(path.drop_last())
    }
}

/// What follows the last separator of a path; the whole path where it has none.
pub open spec fn file_name(path: Seq<char>) -> Seq<char> {
    path.skip(last_separator(path) + 1)
}

/// What stands before the last separator of a path; the whole path where it has none.
pub open spec fn parent(path: Seq<char>) -> Seq<char> {
    if last_separator(path) < 0 {
        path
    } else {
        path.take(last_separator(path))
    }
}

/// The text ends with the suffix.
pub open spec fn has_suffix(text: Seq<char>, suffix: Seq<char>) -> bool {
    &&& suffix.len() <= text.len()
    &&& text.skip(text.len() - suffix.len()) == suffix
}

/// A text without the suffix at its end, however often it stands there.
pub open spec fn without_suffix(text: Seq<char>, suffix: Seq<char>) -> Seq<char>
    decreases text.len(),
{
    if suffix.len() > 0 && has_suffix(text, suffix) {
        without_suffix(text.take(text.len() - suffix.len()), suffix)
    } else {
        text
    }
}

/// The last separator is one, and none follows it.
pub proof fn law_last_separator(path: Seq<char>)
    ensures
        -1 <= last_separator(path) < path.len(),
        last_separator(path) >= 0 ==> is_separator(path[last_separator(path)]),
        forall|i: int| last_separator(path) < i < path.len() ==> !is_separator(#[trigger] path[i]),
    decreases path.len(),
{
    if path.len() > 0 && !is_separator(path.last()) {
        law_last_separator(path.drop_last());
        assert forall|i: int| last_separator(path) < i < path.len() implies !is_separator(
            #[trigger] path[i],
        ) by {
            if i < path.len() - 1 {
                assert(path.drop_last()[i] == path[i]);
            }
        }
    }
}

/// A path with a separator is its parent, the separator and its file name.
pub proof fn law_path_parts(path: Seq<char>)
    requires
        last_separator(path) >= 0,
    ensures
        path == parent(path) + seq![path[last_separator(path)]] + file_name(path),
{
    law_last_separator(path);
    assert(path =~= parent(path) + seq![path[last_separator(path)]] + file_name(path));
}

/// The file name is what follows the last slash or backslash, and the parent what stands
/// before it.
pub proof fn law_path_is_split(directory: Seq<char>, separator: char, name: Seq<char>)
    requires
        separator == '/' || separator == '\\',
        forall|i: int| 0 <= i < name.len() ==> #[trigger] name[i] != '/' && name[i] != '\\',
    ensures
        file_name(directory + seq![separator] + name) == name,
        parent(directory + seq![separator] + name) == directory,
{
    let path = directory + seq![separator] + name;
    law_last_separator(path);
    let at = last_separator(path);
    let expected = directory.len() as int;
    assert(path[expected] == separator);
    if at > expected {
        assert(path[at] == name[at - expected - 1]);
    }
    assert(at == expected);
    assert(file_name(path) =~= name);
    assert(parent(path) =~= directory);
}

/// A path without a slash or backslash is its own file name and its own parent.
pub proof fn law_path_is_whole(path: Seq<char>)
    requires
        forall|i: int| 0 <= i < path.len() ==> #[trigger] path[i] != '/' && path[i] != '\\',
    ensures
        file_name(path) == path,
        parent(path) == path,
{
    law_last_separator(path);
    assert(file_name(path) =~= path);
}

/// A text ends with a suffix exactly where it is something followed by the suffix.
pub proof fn law_suffix_is_behind(text: Seq<char>, suffix: Seq<char>)
    ensures
        has_suffix(text, suffix) <==> exists|rest: Seq<char>| text == #[trigger] (rest + suffix),
{
    if has_suffix(text, suffix) {
        let rest = text.take(text.len() - suffix.len());
        assert(text =~= rest + suffix);
    }
    if exists|rest: Seq<char>| text == #[trigger] (rest + suffix) {
        let rest = choose|rest: Seq<char>| text == #[trigger] (rest + suffix);
        assert(text.skip(text.len() - suffix.len()) =~= suffix);
    }
}

/// A suffix is taken off as often as it stands at the end, and nothing else is.
pub proof fn law_suffix_is_taken_off(text: Seq<char>, suffix: Seq<char>)
    requires
        suffix.len() > 0,
    ensures
        without_suffix(text + suffix, suffix) == without_suffix(text, suffix),
        (forall|rest: Seq<char>| text != #[trigger] (rest + suffix)) ==> without_suffix(
            text,
            suffix,
        ) == text,
{
    assert((text + suffix).skip(text.len() as int) =~= suffix);
    assert((text + suffix).take(text.len() as int) =~= text);
    law_suffix_is_behind(text, suffix);
}

/// What is left of a text without a suffix does not end with it.
pub proof fn law_without_suffix(text: Seq<char>, suffix: Seq<char>)
    requires
        suffix.len() > 0,
    ensures
        !has_suffix(without_suffix(text, suffix), suffix),
    decreases text.len(),
{
    if has_suffix(text, suffix) {
        law_without_suffix(text.take(text.len() - suffix.len()), suffix);
    }
}

/// Finds the character after the last separator.
fn file_name_start(chars: &Vec<char>) -> (start: usize)
    ensures
        start == last_separator(chars@) + 1,
{
    let mut i: usize = chars.len();
    assert(chars@.take(i as int) =~= chars@);
    while i > 0
        invariant
            i <= chars@.len(),
            last_separator(chars@) == last_separator(chars@.take(i as int)),
        decreases i,
    {
        let c: char = chars[i - 1];
        if c == '/' || c == '\\' {
            return i;
        }
        assert(chars@.take(i as int).drop_last() =~= chars@.take(i - 1));
        i -= 1;
    }
    0
}

/// The last part of a path.
pub fn path_file_name(path: &str) -> (name: String)
    ensures
        name@ == file_name(path@),
{
    let chars = chars_of(path);
    let start: usize = file_name_start(&chars);
    assert(chars@.subrange(start as int, chars@.len() as int) =~= chars@.skip(start as int));
    proof {
        law_last_separator(path@);
    }
    text_of(&chars, start, chars.len())
}

/// A path without its last part.
pub fn path_parent(path: &str) -> (directory: String)
    ensures
        directory@ == parent(path@),
{
    let chars = chars_of(path);
    let start: usize = file_name_start(&chars);
    proof {
        law_last_separator(path@);
    }
    if start == 0 {
        path.to_string()
    } else {
        assert(chars@.subrange(0, start - 1) =~= chars@.take(start - 1));
        text_of(&chars, 0, start - 1)
    }
}

/// Whether the first `len` characters of a text end with the suffix.
fn suffix_stands_before(chars: &Vec<char>, len: usize, suffix: &Vec<char>) -> (yes: bool)
    requires
        len <= chars@.len(),
    ensures
        yes == has_suffix(chars@.take(len as int), suffix@),
{
    if suffix.len() > len {
        return false;
    }
    let start: usize = len - suffix.len();
    let mut i: usize = 0;
    while i < suffix.len()
        invariant
            i <= suffix@.len(),
            start + suffix@.len() == len,
            len <= chars@.len(),
            forall|k: int| 0 <= k < i ==> chars@[start + k] == suffix@[k],
        decreases suffix@.len() - i,
    {
        if chars[start + i] != suffix[i] {
            assert(chars@.take(len as int).skip(start as int)[i as int] != suffix@[i as int]);
            return false;
        }
        i += 1;
    }
    assert(chars@.take(len as int).skip(start as int) =~= suffix@);
    true
}

/// Whether a text ends with a suffix.
pub fn ends_with(text: &str, suffix: &str) -> (yes: bool)
    ensures
        yes == has_suffix(text@, suffix@),
{
    let chars = chars_of(text);
    assert(chars@.take(chars@.len() as int) =~= chars@);
    suffix_stands_before(&chars, chars.len(), &chars_of(suffix))
}

/// Takes a suffix off the end of a text, as often as it stands there.
pub fn trim_end_matches(text: &str, suffix: &str) -> (rest: String)
    requires
        suffix@.len() > 0,
    ensures
        rest@ == without_suffix(text@, suffix@),
{
    let chars = chars_of(text);
    let ending = chars_of(suffix);
    let mut len: usize = chars.len();
    assert(chars@.take(len as int) =~= chars@);
    while suffix_stands_before(&chars, len, &ending)
        invariant
            len <= chars@.len(),
            ending@.len() > 0,
            without_suffix(chars@, ending@) == without_suffix(chars@.take(len as int), ending@),
        decreases len,
    {
        assert(chars@.take(len as int).take(len - ending@.len()) =~= chars@.take(
            len - ending@.len(),
        ));
        len -= ending.len();
    }
    assert(chars@.subrange(0, len as int) =~= chars@.take(len as int));
    text_of(&chars, 0, len)
}

} // verus!
