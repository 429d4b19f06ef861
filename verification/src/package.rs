//! Reading `Package.swift`, the manifest of a Swift package.

use crate::scan::{
    blanks_end, find_from, first_occurrence, law_blanks_end, law_first_occurrence_is_least,
    law_nothing_quoted, law_quoted_holds_no_quote, law_quoted_value, lemma_first_occurrence_at,
    lemma_lit_ascii, lemma_occurs_byte, lit, occurs_at, quote_end, quoted, read_quoted, skip_ws,
    QUOTE,
};
use crate::targets::{
    clip, clipped, kept, law_kept_push, TargetModel, Targets, MAX_NAME_LEN, MAX_SUBTYPE_LEN,
    TARGET_KIND_BINARY, TARGET_KIND_FRAMEWORK, TARGET_KIND_LIBRARY, TARGET_KIND_PLUGIN,
    TARGET_KIND_PROC_MACRO, TARGET_KIND_TEST,
};
use crate::text::{decoded, utf8_lossy};
use vstd::prelude::*;
use vstd::utf8::encode_utf8;

verus! {

/// How many words open a target declaration.
pub const KEYWORD_COUNT: usize = 6;

/// How far behind its opening parenthesis a declaration's name is looked for, in bytes.
pub const NAME_WINDOW: usize = 256;

/// A word that opens a target declaration, with the kind and the subtype that it declares.
pub open spec fn keyword(i: int) -> (Seq<u8>, u8, Seq<u8>) {
    if i == 0 {
        (lit(".executableTarget("), TARGET_KIND_BINARY, lit("swift-executable"))
    } else if i == 1 {
        (lit(".testTarget("), TARGET_KIND_TEST, lit("swiftpm-test"))
    } else if i == 2 {
        (lit(".macro("), TARGET_KIND_PROC_MACRO, lit("swift-macro"))
    } else if i == 3 {
        (lit(".plugin("), TARGET_KIND_PLUGIN, lit("swift-plugin"))
    } else if i == 4 {
        (lit(".binaryTarget("), TARGET_KIND_FRAMEWORK, lit("binary-target"))
    } else {
        (lit(".target("), TARGET_KIND_LIBRARY, lit("swift-library"))
    }
}

/// The first word, from word `i` on, that stands at `pos`.
pub open spec fn keyword_at(data: Seq<u8>, pos: int, i: int) -> Option<int>
    decreases KEYWORD_COUNT - i,
{
    if i >= KEYWORD_COUNT {
        None
    } else if occurs_at(data, pos, keyword(i).0) {
        Some(i)
    } else {
        keyword_at(data, pos, i + 1)
    }
}

/// The quoted value that follows the `name:` label at `label`.
pub open spec fn labelled_value(data: Seq<u8>, label: int) -> Seq<u8> {
    quoted(data, blanks_end(data, label + lit("name:").len()))
}

/// The name that a declaration gives whose opening parenthesis ends at `open`: the value of
/// the first label that lies whole within the window behind it.
pub open spec fn declared_name(data: Seq<u8>, open: int) -> Seq<u8> {
    let window = if open + NAME_WINDOW <= data.len() {
        data.take(open + NAME_WINDOW)
    } else {
        data
    };
    match first_occurrence(window, open, lit("name:")) {
        Some(label) => labelled_value(data, label),
        None => Seq::empty(),
    }
}

/// The target that is declared at `pos`: none where no declaration opens there or where it
/// has no name, else one.
pub open spec fn declared_at(data: Seq<u8>, pos: int) -> Seq<TargetModel> {
    match keyword_at(data, pos, 0) {
        Some(i) => {
            let name = declared_name(data, pos + keyword(i).0.len());
            if name.len() > 0 {
                seq![clipped(name, keyword(i).1, keyword(i).2)]
            } else {
                Seq::empty()
            }
        },
        None => Seq::empty(),
    }
}

/// The targets that are declared at or after `pos`, in the order in which they stand there.
pub open spec fn declared_from(data: Seq<u8>, pos: int) -> Seq<TargetModel>
    decreases data.len() - pos,
{
    if pos >= data.len() {
        Seq::empty()
    } else {
        declared_at(data, pos) + declared_from(data, pos + 1)
    }
}

/// The value of the first `name:` label at or after `pos` whose quoted value is not empty.
pub open spec fn package_name_from(data: Seq<u8>, pos: int) -> Option<Seq<u8>>
    decreases data.len() - pos,
{
    if pos >= data.len() {
        None
    } else if occurs_at(data, pos, lit("name:")) && labelled_value(data, pos).len() > 0 {
        Some(labelled_value(data, pos))
    } else {
        package_name_from(data, pos + 1)
    }
}

proof fn lemma_name_label()
    ensures
        lit("name:") == seq![0x6eu8, 0x61u8, 0x6du8, 0x65u8, 0x3au8],
        lit("name:").len() == 5,
{
    reveal_strlit("name:");
    lemma_lit_ascii("name:");
    assert(lit("name:") =~= seq![0x6eu8, 0x61u8, 0x6du8, 0x65u8, 0x3au8]);
}

proof fn lemma_keyword_at_none(data: Seq<u8>, pos: int, i: int)
    requires
        0 <= i <= KEYWORD_COUNT,
        forall|k: int| i <= k < KEYWORD_COUNT ==> !occurs_at(data, pos, (#[trigger] keyword(k)).0),
    ensures
        keyword_at(data, pos, i) is None,
    decreases KEYWORD_COUNT - i,
{
    if i < KEYWORD_COUNT {
        assert(!occurs_at(data, pos, keyword(i).0));
        lemma_keyword_at_none(data, pos, i + 1);
    }
}

proof fn lemma_keyword_at_some(data: Seq<u8>, pos: int, i: int, at: int)
    requires
        0 <= i <= at < KEYWORD_COUNT,
        occurs_at(data, pos, keyword(at).0),
        forall|k: int| i <= k < at ==> !occurs_at(data, pos, (#[trigger] keyword(k)).0),
    ensures
        keyword_at(data, pos, i) == Some(at),
    decreases at - i,
{
    if i < at {
        assert(!occurs_at(data, pos, keyword(i).0));
        lemma_keyword_at_some(data, pos, i + 1, at);
    }
}

proof fn lemma_declared_skip(data: Seq<u8>, from: int, to: int)
    requires
        0 <= from <= to,
        forall|p: int| from <= p < to ==> #[trigger] declared_at(data, p) == Seq::<TargetModel>::empty(),
    ensures
        declared_from(data, from) == declared_from(data, to),
    decreases to - from,
{
    if from < to {
        lemma_declared_skip(data, from + 1, to);
        assert(declared_at(data, from) == Seq::<TargetModel>::empty());
        assert(declared_from(data, from) =~= declared_from(data, to));
    }
}

proof fn lemma_package_name_skip(data: Seq<u8>, from: int, to: int)
    requires
        0 <= from <= to,
        forall|p: int|
            from <= p < to ==> !(#[trigger] occurs_at(data, p, lit("name:")) && labelled_value(
                data,
                p,
            ).len() > 0),
    ensures
        package_name_from(data, from) == package_name_from(data, to),
    decreases to - from,
{
    if from < to {
        lemma_package_name_skip(data, from + 1, to);
        assert(!(occurs_at(data, from, lit("name:")) && labelled_value(data, from).len() > 0));
    }
}

/// Within one label no other begins.
proof fn lemma_labels_do_not_overlap(data: Seq<u8>, label: int, p: int)
    requires
        occurs_at(data, label, lit("name:")),
        label < p < label + 5,
    ensures
        !occurs_at(data, p, lit("name:")),
{
    lemma_name_label();
    lemma_occurs_byte(data, label, lit("name:"), p - label);
    if occurs_at(data, p, lit("name:")) {
        lemma_occurs_byte(data, p, lit("name:"), 0);
    }
}

/// Every declared target has a name, no name holds a quotation mark, and its kind and subtype
/// are those of a word that opens a declaration.
pub proof fn law_declared_targets(data: Seq<u8>, pos: int)
    requires
        0 <= pos,
    ensures
        forall|i: int|
            0 <= i < declared_from(data, pos).len() ==> {
                let target = #[trigger] declared_from(data, pos)[i];
                &&& target.name.len() > 0
                &&& !target.name.contains(QUOTE)
                &&& exists|k: int|
                    0 <= k < KEYWORD_COUNT && target.kind == (#[trigger] keyword(k)).1
                        && target.subtype == keyword(k).2
            },
    decreases data.len() - pos,
{
    if pos < data.len() {
        law_declared_targets(data, pos + 1);
        let here = declared_at(data, pos);
        let rest = declared_from(data, pos + 1);
        if let Some(word) = keyword_at(data, pos, 0) {
            lemma_keyword_at_range(data, pos, 0);
            lemma_subtype_is_short(word);
            let open = pos + keyword(word).0.len();
            let name = declared_name(data, open);
            let window = if open + NAME_WINDOW <= data.len() {
                data.take(open + NAME_WINDOW)
            } else {
                data
            };
            if let Some(label) = first_occurrence(window, open, lit("name:")) {
                law_quoted_holds_no_quote(data, blanks_end(data, label + lit("name:").len()));
            }
            if name.len() > 0 {
                let kept_name = clip(name, MAX_NAME_LEN as nat);
                assert forall|i: int| 0 <= i < kept_name.len() implies kept_name[i] != QUOTE by {
                    assert(kept_name[i] == name[i]);
                }
                assert(here[0].kind == keyword(word).1);
            }
        }
        let found = declared_from(data, pos);
        assert forall|i: int| 0 <= i < found.len() implies {
            let target = #[trigger] found[i];
            &&& target.name.len() > 0
            &&& !target.name.contains(QUOTE)
            &&& exists|k: int|
                0 <= k < KEYWORD_COUNT && target.kind == (#[trigger] keyword(k)).1
                    && target.subtype == keyword(k).2
        } by {
            if i >= here.len() {
                assert(found[i] == rest[i - here.len()]);
            }
        }
    }
}

/// The text of a declaration with the given name: its word, the label and the quoted name.
pub open spec fn declaration(word: int, name: Seq<u8>) -> Seq<u8> {
    keyword(word).0 + lit("name: \"") + name + lit("\"")
}

/// How long each word is. A parenthesis ends every word, and stands nowhere else in it.
proof fn lemma_keyword_shape(i: int)
    requires
        0 <= i < KEYWORD_COUNT,
    ensures
        keyword(i).0.len() == seq![18nat, 12, 7, 8, 14, 8][i],
        keyword(3).0[1] == 0x70,
        keyword(5).0[1] == 0x74,
        forall|k: int|
            0 <= k < keyword(i).0.len() ==> (#[trigger] keyword(i).0[k] == 0x28 <==> k
                == keyword(i).0.len() - 1),
{
    reveal_strlit(".executableTarget(");
    reveal_strlit(".testTarget(");
    reveal_strlit(".macro(");
    reveal_strlit(".plugin(");
    reveal_strlit(".binaryTarget(");
    reveal_strlit(".target(");
    lemma_lit_ascii(".executableTarget(");
    lemma_lit_ascii(".testTarget(");
    lemma_lit_ascii(".macro(");
    lemma_lit_ascii(".plugin(");
    lemma_lit_ascii(".binaryTarget(");
    lemma_lit_ascii(".target(");
}

/// No two words open a declaration at the same place.
proof fn lemma_one_keyword(data: Seq<u8>, pos: int, a: int, b: int)
    requires
        0 <= a < KEYWORD_COUNT,
        0 <= b < KEYWORD_COUNT,
        occurs_at(data, pos, keyword(a).0),
        occurs_at(data, pos, keyword(b).0),
    ensures
        a == b,
{
    let x = keyword(a).0;
    let y = keyword(b).0;
    lemma_keyword_shape(a);
    lemma_keyword_shape(b);
    lemma_occurs_byte(data, pos, x, x.len() - 1);
    lemma_occurs_byte(data, pos, y, y.len() - 1);
    if x.len() < y.len() {
        lemma_occurs_byte(data, pos, y, x.len() - 1);
    } else if y.len() < x.len() {
        lemma_occurs_byte(data, pos, x, y.len() - 1);
    }
    lemma_occurs_byte(data, pos, x, 1);
    lemma_occurs_byte(data, pos, y, 1);
}

/// Where a quoted run ends that is followed by a quotation mark and holds none.
proof fn lemma_quote_end_at(data: Seq<u8>, start: int, end: int)
    requires
        0 <= start <= end < data.len(),
        data[end] == QUOTE,
        forall|i: int| start <= i < end ==> #[trigger] data[i] != QUOTE,
    ensures
        quote_end(data, start) == end,
    decreases end - start,
{
    if start < end {
        lemma_quote_end_at(data, start + 1, end);
    }
}

/// The value of a label that a space and a quoted text follow is that text.
proof fn lemma_labelled_text(data: Seq<u8>, label: int, name: Seq<u8>)
    requires
        occurs_at(data, label, lit("name: \"") + name + lit("\"")),
        !name.contains(QUOTE),
    ensures
        occurs_at(data, label, lit("name:")),
        labelled_value(data, label) == name,
{
    let text = lit("name: \"") + name + lit("\"");
    lemma_name_label();
    reveal_strlit("name: \"");
    reveal_strlit("\"");
    lemma_lit_ascii("name: \"");
    lemma_lit_ascii("\"");
    assert forall|k: int| 0 <= k < text.len() implies data[label + k] == #[trigger] text[k] by {
        lemma_occurs_byte(data, label, text, k);
    }
    assert forall|k: int| 0 <= k < 5 implies data[label + k] == #[trigger] lit("name:")[k] by {
        assert(text[k] == lit("name: \"")[k]);
    }
    assert(data.subrange(label, label + 5) =~= lit("name:"));
    assert(text[5] == 0x20);
    assert(text[6] == QUOTE);
    assert(text[7int + name.len()] == QUOTE);
    assert(blanks_end(data, label + 6) == label + 6);
    assert(blanks_end(data, label + 5) == label + 6);
    assert forall|i: int| label + 7 <= i < label + 7 + name.len() implies #[trigger] data[i]
        != QUOTE by {
        assert(text[i - label] == name[i - label - 7]);
        assert(data[label + (i - label)] == text[i - label]);
    }
    lemma_quote_end_at(data, label + 7, label + 7 + name.len());
    assert forall|i: int| 0 <= i < name.len() implies data[label + 7 + i] == #[trigger] name[i] by {
        assert(text[7 + i] == name[i]);
    }
    assert(data.subrange(label + 7, label + 7 + name.len()) =~= name);
}

proof fn lemma_declared_contains(data: Seq<u8>, from: int, pos: int, target: TargetModel)
    requires
        0 <= from <= pos < data.len(),
        declared_at(data, pos).contains(target),
    ensures
        declared_from(data, from).contains(target),
    decreases pos - from,
{
    let here = declared_at(data, from);
    let rest = declared_from(data, from + 1);
    if from < pos {
        lemma_declared_contains(data, from + 1, pos, target);
        let i = choose|i: int| 0 <= i < rest.len() && rest[i] == target;
        assert(declared_from(data, from)[here.len() + i] == target);
    } else {
        let i = choose|i: int| 0 <= i < here.len() && here[i] == target;
        assert(declared_from(data, from)[i] == target);
    }
}

/// A declaration is read as the target it declares, wherever it stands, and that target is
/// among those of its manifest.
pub proof fn law_declaration_is_read(data: Seq<u8>, pos: int, word: int, name: Seq<u8>)
    requires
        0 <= word < KEYWORD_COUNT,
        name.len() > 0,
        !name.contains(QUOTE),
        occurs_at(data, pos, declaration(word, name)),
    ensures
        declared_at(data, pos) == seq![clipped(name, keyword(word).1, keyword(word).2)],
        declared_from(data, 0).contains(clipped(name, keyword(word).1, keyword(word).2)),
{
    let head = keyword(word).0;
    let tail = lit("name: \"") + name + lit("\"");
    let open = pos + head.len();
    assert(declaration(word, name) =~= head + tail);
    assert(data.subrange(pos, open) =~= declaration(word, name).take(head.len() as int));
    assert(declaration(word, name).take(head.len() as int) =~= head);
    assert(data.subrange(open, open + tail.len()) =~= declaration(word, name).skip(
        head.len() as int,
    ));
    assert(declaration(word, name).skip(head.len() as int) =~= tail);
    assert forall|k: int| 0 <= k < word implies !occurs_at(
        data,
        pos,
        (#[trigger] keyword(k)).0,
    ) by {
        if occurs_at(data, pos, keyword(k).0) {
            lemma_one_keyword(data, pos, k, word);
        }
    }
    lemma_keyword_at_some(data, pos, 0, word);
    lemma_labelled_text(data, open, name);
    lemma_name_label();
    let window = if open + NAME_WINDOW <= data.len() {
        data.take(open + NAME_WINDOW)
    } else {
        data
    };
    assert(window.subrange(open, open + 5) =~= data.subrange(open, open + 5));
    assert(occurs_at(window, open, lit("name:")));
    assert(declared_at(data, pos)[0] == clipped(name, keyword(word).1, keyword(word).2));
    lemma_declared_contains(data, 0, pos, clipped(name, keyword(word).1, keyword(word).2));
}

/// The name of a package is the first one that a label gives.
pub proof fn law_first_label_names_package(data: Seq<u8>, label: int, name: Seq<u8>)
    requires
        name.len() > 0,
        !name.contains(QUOTE),
        occurs_at(data, label, lit("name: \"") + name + lit("\"")),
        forall|i: int| 0 <= i < label ==> !#[trigger] occurs_at(data, i, lit("name:")),
    ensures
        package_name_from(data, 0) == Some(name),
{
    lemma_labelled_text(data, label, name);
    lemma_name_label();
    lemma_package_name_skip(data, 0, label);
}

/// The words that open a declaration, each with the kind and the subtype of what it declares.
pub open spec fn opens_declaration(word: Seq<u8>, kind: u8, subtype: Seq<u8>) -> bool {
    ||| word == lit(".executableTarget(") && kind == 2 && subtype == lit("swift-executable")
    ||| word == lit(".testTarget(") && kind == 3 && subtype == lit("swiftpm-test")
    ||| word == lit(".macro(") && kind == 6 && subtype == lit("swift-macro")
    ||| word == lit(".plugin(") && kind == 7 && subtype == lit("swift-plugin")
    ||| word == lit(".binaryTarget(") && kind == 8 && subtype == lit("binary-target")
    ||| word == lit(".target(") && kind == 1 && subtype == lit("swift-library")
}

/// There are six words, and each declares one kind of target.
pub proof fn law_words()
    ensures
        KEYWORD_COUNT == 6,
        keyword(0) == (encode_utf8(".executableTarget("@), 2u8, encode_utf8("swift-executable"@)),
        keyword(1) == (encode_utf8(".testTarget("@), 3u8, encode_utf8("swiftpm-test"@)),
        keyword(2) == (encode_utf8(".macro("@), 6u8, encode_utf8("swift-macro"@)),
        keyword(3) == (encode_utf8(".plugin("@), 7u8, encode_utf8("swift-plugin"@)),
        keyword(4) == (encode_utf8(".binaryTarget("@), 8u8, encode_utf8("binary-target"@)),
        keyword(5) == (encode_utf8(".target("@), 1u8, encode_utf8("swift-library"@)),
        forall|word: Seq<u8>, kind: u8, subtype: Seq<u8>| #[trigger]
            opens_declaration(word, kind, subtype) <==> exists|i: int|
                0 <= i < 6 && #[trigger] keyword(i) == (word, kind, subtype),
{
    assert forall|word: Seq<u8>, kind: u8, subtype: Seq<u8>| #[trigger]
        opens_declaration(word, kind, subtype) implies exists|i: int|
        0 <= i < 6 && #[trigger] keyword(i) == (word, kind, subtype) by {
        assert(keyword(0) == (word, kind, subtype) || keyword(1) == (word, kind, subtype)
            || keyword(2) == (word, kind, subtype) || keyword(3) == (word, kind, subtype)
            || keyword(4) == (word, kind, subtype) || keyword(5) == (word, kind, subtype));
    }
}

/// The value of a label is what stands between the quotation mark behind it, blanks aside,
/// and the next one, or the end of the data.
pub proof fn law_labelled_value(data: Seq<u8>, label: int, open: int, close: int)
    requires
        0 <= label,
        label + 5 <= open < close <= data.len(),
        forall|i: int|
            label + 5 <= i < open ==> #[trigger] data[i] == 0x20 || data[i] == 0x09 || data[i]
                == 0x0a || data[i] == 0x0d,
        data[open] == 0x22,
        forall|i: int| open < i < close ==> #[trigger] data[i] != 0x22,
        close < data.len() ==> data[close] == 0x22,
    ensures
        labelled_value(data, label) == data.subrange(open + 1, close),
{
    lemma_name_label();
    law_blanks_end(data, label + 5, open);
    law_quoted_value(data, open, close);
}

/// A label that something other than a quotation mark follows, blanks aside, has no value.
pub proof fn law_label_without_value(data: Seq<u8>, label: int, end: int)
    requires
        0 <= label,
        label + 5 <= end <= data.len(),
        forall|i: int|
            label + 5 <= i < end ==> #[trigger] data[i] == 0x20 || data[i] == 0x09 || data[i]
                == 0x0a || data[i] == 0x0d,
        end < data.len() ==> data[end] != 0x20 && data[end] != 0x09 && data[end] != 0x0a
            && data[end] != 0x0d && data[end] != 0x22,
    ensures
        labelled_value(data, label).len() == 0,
{
    lemma_name_label();
    law_blanks_end(data, label + 5, end);
    law_nothing_quoted(data, end);
}

/// Which of the words opens a declaration at `pos`.
proof fn lemma_word_at(data: Seq<u8>, pos: int, word: Seq<u8>, kind: u8, subtype: Seq<u8>) -> (i: int)
    requires
        opens_declaration(word, kind, subtype),
        0 <= pos,
        pos + word.len() <= data.len(),
        data.subrange(pos, pos + word.len()) == word,
    ensures
        0 <= i < KEYWORD_COUNT,
        keyword(i) == (word, kind, subtype),
        keyword_at(data, pos, 0) == Some(i),
{
    let i: int = if word == lit(".executableTarget(") && kind == 2 {
        0
    } else if word == lit(".testTarget(") && kind == 3 {
        1
    } else if word == lit(".macro(") && kind == 6 {
        2
    } else if word == lit(".plugin(") && kind == 7 {
        3
    } else if word == lit(".binaryTarget(") && kind == 8 {
        4
    } else {
        5
    };
    assert(keyword(i) == (word, kind, subtype));
    assert forall|k: int| 0 <= k < i implies !occurs_at(data, pos, (#[trigger] keyword(k)).0) by {
        if occurs_at(data, pos, keyword(k).0) {
            lemma_one_keyword(data, pos, k, i);
        }
    }
    lemma_keyword_at_some(data, pos, 0, i);
    i
}

/// What stands between a declaration's parenthesis and the label of its name does not matter:
/// the target has the value of the first label that lies whole within 256 bytes.
pub proof fn law_label_is_found_in_window(
    data: Seq<u8>,
    pos: int,
    word: Seq<u8>,
    kind: u8,
    subtype: Seq<u8>,
    label: int,
    open: int,
    close: int,
)
    requires
        opens_declaration(word, kind, subtype),
        0 <= pos,
        pos + word.len() <= label,
        label + 5 <= pos + word.len() + 256,
        data.subrange(pos, pos + word.len()) == word,
        data.subrange(label, label + 5) == lit("name:"),
        forall|i: int|
            pos + word.len() <= i < label ==> #[trigger] data.subrange(i, i + 5) != lit("name:"),
        label + 5 <= open < close - 1 < data.len(),
        forall|i: int|
            label + 5 <= i < open ==> #[trigger] data[i] == 0x20 || data[i] == 0x09 || data[i]
                == 0x0a || data[i] == 0x0d,
        data[open] == 0x22,
        forall|i: int| open < i < close ==> #[trigger] data[i] != 0x22,
        close < data.len() ==> data[close] == 0x22,
    ensures
        declared_at(data, pos) == seq![
            clipped(data.subrange(open + 1, close), kind, subtype),
        ],
        declared_from(data, 0).contains(clipped(data.subrange(open + 1, close), kind, subtype)),
{
    let target = clipped(data.subrange(open + 1, close), kind, subtype);
    let i = lemma_word_at(data, pos, word, kind, subtype);
    lemma_keyword_shape(i);
    lemma_name_label();
    law_labelled_value(data, label, open, close);
    let after = pos + word.len();
    let window = if after + NAME_WINDOW <= data.len() {
        data.take(after + NAME_WINDOW)
    } else {
        data
    };
    assert(window.subrange(label, label + 5) =~= data.subrange(label, label + 5));
    assert forall|k: int| after <= k < label implies !#[trigger] occurs_at(
        window,
        k,
        lit("name:"),
    ) by {
        if occurs_at(window, k, lit("name:")) {
            assert(window.subrange(k, k + 5) =~= data.subrange(k, k + 5));
        }
    }
    lemma_first_occurrence_at(window, after, lit("name:"), label);
    assert(declared_at(data, pos)[0] == target);
    lemma_declared_contains(data, 0, pos, target);
}

/// Nothing is declared where none of the words stands.
pub proof fn law_no_word_no_target(data: Seq<u8>, pos: int)
    requires
        0 <= pos,
        forall|word: Seq<u8>, kind: u8, subtype: Seq<u8>| #[trigger]
            opens_declaration(word, kind, subtype) ==> pos + word.len() > data.len()
                || data.subrange(pos, pos + word.len()) != word,
    ensures
        declared_at(data, pos) == Seq::<TargetModel>::empty(),
{
    assert forall|k: int| 0 <= k < KEYWORD_COUNT implies !occurs_at(
        data,
        pos,
        (#[trigger] keyword(k)).0,
    ) by {
        assert(opens_declaration(keyword(k).0, keyword(k).1, keyword(k).2));
    }
    lemma_keyword_at_none(data, pos, 0);
}

/// Nothing is declared where no label lies whole within 256 bytes behind the parenthesis.
pub proof fn law_no_label_no_target(
    data: Seq<u8>,
    pos: int,
    word: Seq<u8>,
    kind: u8,
    subtype: Seq<u8>,
)
    requires
        opens_declaration(word, kind, subtype),
        0 <= pos,
        pos + word.len() <= data.len(),
        data.subrange(pos, pos + word.len()) == word,
        forall|i: int|
            pos + word.len() <= i && i + 5 <= pos + word.len() + 256 && i + 5 <= data.len()
                ==> #[trigger] data.subrange(i, i + 5) != lit("name:"),
    ensures
        declared_at(data, pos) == Seq::<TargetModel>::empty(),
{
    let i = lemma_word_at(data, pos, word, kind, subtype);
    lemma_keyword_shape(i);
    lemma_name_label();
    let after = pos + word.len();
    let window = if after + NAME_WINDOW <= data.len() {
        data.take(after + NAME_WINDOW)
    } else {
        data
    };
    law_first_occurrence_is_least(window, after, lit("name:"));
    if let Some(label) = first_occurrence(window, after, lit("name:")) {
        assert(window.subrange(label, label + 5) =~= data.subrange(label, label + 5));
    }
}

/// Nothing is declared where the first label in the window has no value.
pub proof fn law_no_value_no_target(
    data: Seq<u8>,
    pos: int,
    word: Seq<u8>,
    kind: u8,
    subtype: Seq<u8>,
    label: int,
)
    requires
        opens_declaration(word, kind, subtype),
        0 <= pos,
        pos + word.len() <= label,
        label + 5 <= data.len(),
        data.subrange(pos, pos + word.len()) == word,
        data.subrange(label, label + 5) == lit("name:"),
        forall|i: int|
            pos + word.len() <= i < label ==> #[trigger] data.subrange(i, i + 5) != lit("name:"),
        labelled_value(data, label).len() == 0,
    ensures
        declared_at(data, pos) == Seq::<TargetModel>::empty(),
{
    let i = lemma_word_at(data, pos, word, kind, subtype);
    lemma_keyword_shape(i);
    lemma_name_label();
    let after = pos + word.len();
    let window = if after + NAME_WINDOW <= data.len() {
        data.take(after + NAME_WINDOW)
    } else {
        data
    };
    law_first_occurrence_is_least(window, after, lit("name:"));
    if let Some(found) = first_occurrence(window, after, lit("name:")) {
        assert(window.subrange(found, found + 5) =~= data.subrange(found, found + 5));
        if label < found {
            assert(window.subrange(label, label + 5) =~= data.subrange(label, label + 5));
            assert(occurs_at(window, label, lit("name:")));
        }
    }
}

/// The targets of a manifest are those that are declared at its positions, one position
/// after the other.
pub proof fn law_targets_stand_in_order(data: Seq<u8>, pos: int)
    requires
        0 <= pos <= data.len(),
    ensures
        pos < data.len() ==> declared_from(data, pos) == declared_at(data, pos) + declared_from(
            data,
            pos + 1,
        ),
        pos == data.len() ==> declared_from(data, pos) == Seq::<TargetModel>::empty(),
{
}

/// The name of a package is the first value of a label that is not empty.
pub proof fn law_package_name(data: Seq<u8>, label: int)
    requires
        0 <= label,
        label + 5 <= data.len(),
        data.subrange(label, label + 5) == lit("name:"),
        labelled_value(data, label).len() > 0,
        forall|i: int|
            0 <= i < label && #[trigger] data.subrange(i, i + 5) == lit("name:") ==> labelled_value(
                data,
                i,
            ).len() == 0,
    ensures
        package_name_from(data, 0) == Some(labelled_value(data, label)),
{
    lemma_name_label();
    assert forall|p: int| 0 <= p < label implies !(#[trigger] occurs_at(data, p, lit("name:"))
        && labelled_value(data, p).len() > 0) by {
        if occurs_at(data, p, lit("name:")) {
            assert(data.subrange(p, p + 5) == lit("name:"));
        }
    }
    lemma_package_name_skip(data, 0, label);
    assert(occurs_at(data, label, lit("name:")));
}

/// A package has no name where no label has a value that is not empty.
pub proof fn law_package_without_name(data: Seq<u8>)
    requires
        forall|i: int|
            0 <= i && i + 5 <= data.len() && #[trigger] data.subrange(i, i + 5) == lit("name:")
                ==> labelled_value(data, i).len() == 0,
    ensures
        package_name_from(data, 0) is None,
{
    lemma_name_label();
    assert forall|p: int| 0 <= p < data.len() implies !(#[trigger] occurs_at(data, p, lit("name:"))
        && labelled_value(data, p).len() > 0) by {
        if occurs_at(data, p, lit("name:")) {
            assert(data.subrange(p, p + 5) == lit("name:"));
        }
    }
    lemma_package_name_skip(data, 0, data.len() as int);
}

proof fn lemma_keyword_at_range(data: Seq<u8>, pos: int, i: int)
    requires
        0 <= i,
    ensures
        keyword_at(data, pos, i) matches Some(word) ==> i <= word < KEYWORD_COUNT,
    decreases KEYWORD_COUNT - i,
{
    if i < KEYWORD_COUNT {
        lemma_keyword_at_range(data, pos, i + 1);
    }
}

/// The subtype of a declaration is short enough to be kept whole.
proof fn lemma_subtype_is_short(i: int)
    requires
        0 <= i < KEYWORD_COUNT,
    ensures
        keyword(i).2.len() <= MAX_SUBTYPE_LEN,
{
    reveal_strlit("swift-executable");
    reveal_strlit("swiftpm-test");
    reveal_strlit("swift-macro");
    reveal_strlit("swift-plugin");
    reveal_strlit("binary-target");
    reveal_strlit("swift-library");
    lemma_lit_ascii("swift-executable");
    lemma_lit_ascii("swiftpm-test");
    lemma_lit_ascii("swift-macro");
    lemma_lit_ascii("swift-plugin");
    lemma_lit_ascii("binary-target");
    lemma_lit_ascii("swift-library");
}

/// Word `i` of those that open a target declaration.
fn spm_keyword(i: usize) -> (word: (&'static str, u8, &'static str))
    requires
        i < KEYWORD_COUNT,
    ensures
        (lit(word.0), word.1, lit(word.2)) == keyword(i as int),
{
    if i == 0 {
        (".executableTarget(", TARGET_KIND_BINARY, "swift-executable")
    } else if i == 1 {
        (".testTarget(", TARGET_KIND_TEST, "swiftpm-test")
    } else if i == 2 {
        (".macro(", TARGET_KIND_PROC_MACRO, "swift-macro")
    } else if i == 3 {
        (".plugin(", TARGET_KIND_PLUGIN, "swift-plugin")
    } else if i == 4 {
        (".binaryTarget(", TARGET_KIND_FRAMEWORK, "binary-target")
    } else {
        (".target(", TARGET_KIND_LIBRARY, "swift-library")
    }
}

/// The nearest declaration that opens at or after `pos`: where it opens, and with which word.
fn next_declaration(data: &[u8], pos: usize) -> (next: Option<(usize, usize)>)
    ensures
        match next {
            Some((at, word)) => {
                &&& pos <= at
                &&& keyword_at(data@, at as int, 0) == Some(word as int)
                &&& word < KEYWORD_COUNT
                &&& occurs_at(data@, at as int, keyword(word as int).0)
                &&& forall|p: int| pos <= p < at ==> #[trigger] keyword_at(data@, p, 0) is None
            },
            None => forall|p: int| pos <= p ==> #[trigger] keyword_at(data@, p, 0) is None,
        },
{
    let mut found: Option<(usize, usize)> = None;
    let mut k: usize = 0;
    while k < KEYWORD_COUNT
        invariant
            k <= KEYWORD_COUNT,
            match found {
                Some((at, word)) => {
                    &&& pos <= at
                    &&& word < k
                    &&& occurs_at(data@, at as int, keyword(word as int).0)
                    &&& forall|m: int|
                        0 <= m < word ==> !occurs_at(data@, at as int, (#[trigger] keyword(m)).0)
                    &&& forall|m: int, p: int|
                        #![trigger occurs_at(data@, p, keyword(m).0)]
                        0 <= m < k && pos <= p < at ==> !occurs_at(data@, p, keyword(m).0)
                },
                None => forall|m: int, p: int|
                    #![trigger occurs_at(data@, p, keyword(m).0)]
                    0 <= m < k && pos <= p ==> !occurs_at(data@, p, keyword(m).0),
            },
        decreases KEYWORD_COUNT - k,
    {
        let (word, _, _) = spm_keyword(k);
        proof {
            lemma_keyword_shape(k as int);
            law_first_occurrence_is_least(data@, pos as int, keyword(k as int).0);
        }
        if let Some(p) = find_from(data, pos, word.as_bytes()) {
            match found {
                None => {
                    found = Some((p, k));
                },
                Some((q, _)) => {
                    if p < q {
                        found = Some((p, k));
                    }
                },
            }
        }
        k += 1;
    }
    proof {
        match found {
            Some((at, word)) => {
                lemma_keyword_at_some(data@, at as int, 0, word as int);
                assert forall|p: int| pos <= p < at implies #[trigger] keyword_at(
                    data@,
                    p,
                    0,
                ) is None by {
                    lemma_keyword_at_none(data@, p, 0);
                }
            },
            None => {
                assert forall|p: int| pos <= p implies #[trigger] keyword_at(data@, p, 0) is None by {
                    lemma_keyword_at_none(data@, p, 0);
                }
            },
        }
    }
    found
}

/// Reads the name of a declaration whose opening parenthesis ends at `open`.
fn read_declared_name<'a>(data: &'a [u8], open: usize) -> (name: &'a [u8])
    requires
        open <= data@.len(),
    ensures
        name@ == declared_name(data@, open as int),
{
    let window_end: usize = if data.len() - open < NAME_WINDOW {
        data.len()
    } else {
        open + NAME_WINDOW
    };
    proof {
        lemma_name_label();
        assert(data@.subrange(0, window_end as int) =~= data@.take(window_end as int));
        assert(data@.take(data@.len() as int) =~= data@);
    }
    match find_from(&data[0..window_end], open, "name:".as_bytes()) {
        Some(label) => {
            let value: usize = skip_ws(data, label + 5);
            read_quoted(data, value)
        },
        None => &data[0..0],
    }
}

/// Finds the targets that a package manifest declares.
pub fn parse_package_swift(data: &[u8]) -> (targets: Targets)
    ensures
        targets@ == kept(declared_from(data@, 0)),
{
    let mut targets = Targets::new();
    let mut pos: usize = 0;
    let ghost mut done: Seq<TargetModel> = Seq::empty();
    assert(done + declared_from(data@, 0) =~= declared_from(data@, 0));
    while pos < data.len()
        invariant
            pos <= data.len(),
            targets@ == kept(done),
            done + declared_from(data@, pos as int) == declared_from(data@, 0),
        ensures
            targets@ == kept(declared_from(data@, 0)),
        decreases data.len() - pos,
    {
        let (at, word) = match next_declaration(data, pos) {
            Some(found) => found,
            None => {
                proof {
                    lemma_declared_skip(data@, pos as int, data@.len() as int);
                    assert(done + declared_from(data@, pos as int) =~= done);
                }
                break ;
            },
        };
        let (text, kind, subtype) = spm_keyword(word);
        let name = read_declared_name(data, at + text.as_bytes().len());
        proof {
            lemma_keyword_shape(word as int);
            lemma_declared_skip(data@, pos as int, at as int);
        }
        let ghost before = done;
        if !name.is_empty() {
            targets.push(name, kind, subtype.as_bytes());
            proof {
                law_kept_push(done, clipped(name@, kind, lit(subtype)));
                done = done.push(clipped(name@, kind, lit(subtype)));
            }
        }
        proof {
            assert(done =~= before + declared_at(data@, at as int));
            assert(done + declared_from(data@, at + 1) =~= before + declared_from(data@, at as int));
        }
        pos = at + 1;
    }
    targets
}

/// Finds the name of a package: the first labelled value that is not empty.
pub fn package_name_bytes<'a>(data: &'a [u8]) -> (name: Option<&'a [u8]>)
    ensures
        match name {
            Some(value) => package_name_from(data@, 0) == Some(value@),
            None => package_name_from(data@, 0) is None,
        },
{
    let mut pos: usize = 0;
    proof {
        lemma_name_label();
    }
    loop
        invariant
            pos <= data.len(),
            lit("name:").len() == 5,
            package_name_from(data@, 0) == package_name_from(data@, pos as int),
        decreases data.len() - pos,
    {
        proof {
            law_first_occurrence_is_least(data@, pos as int, lit("name:"));
        }
        let label: usize = match find_from(data, pos, "name:".as_bytes()) {
            Some(label) => label,
            None => {
                proof {
                    lemma_package_name_skip(data@, pos as int, data@.len() as int);
                }
                return None;
            },
        };
        let start: usize = skip_ws(data, label + 5);
        let value = read_quoted(data, start);
        proof {
            lemma_package_name_skip(data@, pos as int, label as int);
        }
        if !value.is_empty() {
            return Some(value);
        }
        proof {
            assert forall|p: int| label < p < label + 5 implies !#[trigger] occurs_at(
                data@,
                p,
                lit("name:"),
            ) by {
                lemma_labels_do_not_overlap(data@, label as int, p);
            }
            lemma_package_name_skip(data@, label as int, label + 5);
        }
        pos = label + 5;
    }
}

/// Finds the name of a package, and decodes it.
pub fn parse_package_name(data: &[u8]) -> (name: Option<String>)
    ensures
        match name {
            Some(text) => package_name_from(data@, 0) is Some && text@ == decoded(
                package_name_from(data@, 0)->0,
            ),
            None => package_name_from(data@, 0) is None,
        },
{
    match package_name_bytes(data) {
        Some(value) => Some(utf8_lossy(value)),
        None => None,
    }
}

} // verus!
