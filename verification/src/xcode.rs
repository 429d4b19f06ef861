//! Reading `project.pbxproj`, the manifest of an Xcode project.

use crate::scan::{
    bytes_eq, find_from, first_occurrence, law_first_occurrence_is_least, law_search_finds,
    lemma_lit_ascii, lemma_occurs_byte, lit, occurs_at, QUOTE,
};
use crate::targets::{
    clip, clipped, kept, law_kept_push, TargetModel, Targets, MAX_NAME_LEN, TARGET_KIND_BINARY,
    TARGET_KIND_EXTENSION,
    TARGET_KIND_FRAMEWORK, TARGET_KIND_LIBRARY, TARGET_KIND_TEST, TARGET_KIND_UNKNOWN,
};
use vstd::prelude::*;

verus! {

/// A product type without the prefix that Apple's own have in common.
pub open spec fn short_product_type(product_type: Seq<u8>) -> Seq<u8> {
    let prefix = lit("com.apple.product-type.");
    if product_type.len() > prefix.len() && product_type.take(prefix.len() as int) == prefix {
        product_type.skip(prefix.len() as int)
    } else {
        product_type
    }
}

/// The kind and the subtype of a target with the short product type `short`.
pub open spec fn short_product_info(short: Seq<u8>) -> (u8, Seq<u8>) {
    if short == lit("application") {
        (TARGET_KIND_BINARY, lit("xcode-app"))
    } else if short == lit("tool") || short == lit("commandline-tool") {
        (TARGET_KIND_BINARY, lit("cli"))
    } else if short == lit("app-clip") {
        (TARGET_KIND_BINARY, lit("app-clip"))
    } else if short == lit("framework") || short == lit("static-framework") {
        (TARGET_KIND_FRAMEWORK, lit("framework"))
    } else if short == lit("unit-test-bundle") || short == lit("ui-testing-bundle") {
        (TARGET_KIND_TEST, lit("xcode-test-bundle"))
    } else if short == lit("app-extension") || short == lit("tv-app-extension") || short == lit(
        "system-extension",
    ) || short == lit("watchkit-extension") || short == lit("extensionkit-extension") {
        (TARGET_KIND_EXTENSION, lit("app-extension"))
    } else if short == lit("library.static") || short == lit("library.dynamic") || short == lit(
        "bundle",
    ) || short == lit("bundle.unit-test") {
        (TARGET_KIND_LIBRARY, lit("library"))
    } else {
        (TARGET_KIND_UNKNOWN, Seq::empty())
    }
}

/// The section of a project that lists its native targets: what stands between the two
/// marks, or behind the first one where the second is missing.
pub open spec fn native_section(data: Seq<u8>) -> Option<Seq<u8>> {
    let begin = lit("/* Begin PBXNativeTarget section */");
    let end = lit("/* End PBXNativeTarget section */");
    match first_occurrence(data, 0, begin) {
        Some(at) => {
            let start = at + begin.len();
            Some(
                match first_occurrence(data, start, end) {
                    Some(stop) => data.subrange(start, stop),
                    None => data.subrange(start, data.len() as int),
                },
            )
        },
        None => None,
    }
}

/// Where the stanza ends that the name ending at `name_end` belongs to.
pub open spec fn stanza_end(section: Seq<u8>, name_end: int) -> int {
    match first_occurrence(section, name_end, lit("};")) {
        Some(at) => at,
        None => section.len() as int,
    }
}

/// The product type that the stanza gives after its name: the quoted value of the first
/// `productType` behind `name_end`, where that begins inside the stanza. A value that is
/// never closed ends with the stanza.
pub open spec fn stanza_product_type(section: Seq<u8>, name_end: int) -> Option<Seq<u8>> {
    let label = lit("productType = \"");
    match first_occurrence(section, name_end, label) {
        Some(at) => if at < stanza_end(section, name_end) {
            let start = at + label.len();
            Some(
                match first_occurrence(section, start, lit("\"")) {
                    Some(stop) => section.subrange(start, stop),
                    None => section.subrange(start, stanza_end(section, name_end)),
                },
            )
        } else {
            None
        },
        None => None,
    }
}

/// The kind and the subtype of the target whose name ends at `name_end`.
pub open spec fn stanza_info(section: Seq<u8>, name_end: int) -> (u8, Seq<u8>) {
    match stanza_product_type(section, name_end) {
        Some(product_type) => short_product_info(short_product_type(product_type)),
        None => (TARGET_KIND_UNKNOWN, Seq::empty()),
    }
}

/// The native targets that a section lists at or after `pos`, one for each stanza with a
/// name that is not empty.
pub open spec fn native_from(section: Seq<u8>, pos: int) -> Seq<TargetModel>
    decreases section.len() + 2 - pos,
    via native_from_decreases
{
    let label = lit("name = \"");
    match first_occurrence(section, pos, label) {
        Some(at) => {
            let name_start = at + label.len();
            match first_occurrence(section, name_start, lit("\"")) {
                Some(name_end) => {
                    let (kind, subtype) = stanza_info(section, name_end);
                    let rest = native_from(section, stanza_end(section, name_end) + 2);
                    if name_start < name_end {
                        seq![clipped(section.subrange(name_start, name_end), kind, subtype)] + rest
                    } else {
                        rest
                    }
                },
                None => Seq::empty(),
            }
        },
        None => Seq::empty(),
    }
}

/// The native targets of a project; none where it has no section for them.
pub open spec fn native_targets(data: Seq<u8>) -> Seq<TargetModel> {
    match native_section(data) {
        Some(section) => native_from(section, 0),
        None => Seq::empty(),
    }
}

proof fn lemma_found(haystack: Seq<u8>, from: int, needle: Seq<u8>)
    ensures
        first_occurrence(haystack, from, needle) matches Some(at) ==> {
            &&& 0 <= from <= at
            &&& at + needle.len() <= haystack.len()
            &&& occurs_at(haystack, at, needle)
            &&& needle.len() > 0
        },
{
    if 0 <= from && needle.len() > 0 {
        law_first_occurrence_is_least(haystack, from, needle);
    }
}

#[via_fn]
proof fn native_from_decreases(section: Seq<u8>, pos: int) {
    let label = lit("name = \"");
    lemma_found(section, pos, label);
    match first_occurrence(section, pos, label) {
        Some(at) => {
            lemma_found(section, at + label.len(), lit("\""));
            match first_occurrence(section, at + label.len(), lit("\"")) {
                Some(name_end) => {
                    lemma_found(section, name_end, lit("};"));
                },
                None => {},
            }
        },
        None => {},
    }
}

/// A product type label holds no byte that could end a stanza, so a stanza that begins before
/// one has its end behind it.
proof fn lemma_label_inside_stanza(section: Seq<u8>, name_end: int, at: int)
    requires
        0 <= name_end <= at,
        occurs_at(section, at, lit("productType = \"")),
        at < stanza_end(section, name_end),
    ensures
        at + lit("productType = \"").len() <= stanza_end(section, name_end),
{
    let label = lit("productType = \"");
    reveal_strlit("productType = \"");
    reveal_strlit("};");
    lemma_lit_ascii("productType = \"");
    lemma_lit_ascii("};");
    lemma_found(section, name_end, lit("};"));
    let end = stanza_end(section, name_end);
    if first_occurrence(section, name_end, lit("};")) is Some && end < at + label.len() {
        lemma_occurs_byte(section, at, label, end - at);
        lemma_occurs_byte(section, end, lit("};"), 0);
        assert(label[end - at] != 0x7d);
    }
}

/// A product type says the same with Apple's prefix as it does without.
pub proof fn law_prefix_is_dropped(short: Seq<u8>)
    requires
        short.len() > 0,
    ensures
        short_product_type(lit("com.apple.product-type.") + short) == short,
{
    let prefix = lit("com.apple.product-type.");
    assert((prefix + short).take(prefix.len() as int) =~= prefix);
    assert((prefix + short).skip(prefix.len() as int) =~= short);
}

/// How the known product types differ: in their lengths or in how they begin.
proof fn lemma_known_product_types()
    ensures
        lit("application").len() == 11 && lit("application")[0] == 97 && lit("application")[1] == 112,
        lit("tool").len() == 4 && lit("tool")[0] == 116 && lit("tool")[1] == 111,
        lit("commandline-tool").len() == 16 && lit("commandline-tool")[0] == 99 && lit("commandline-tool")[1] == 111,
        lit("app-clip").len() == 8 && lit("app-clip")[0] == 97 && lit("app-clip")[1] == 112,
        lit("framework").len() == 9 && lit("framework")[0] == 102 && lit("framework")[1] == 114,
        lit("static-framework").len() == 16 && lit("static-framework")[0] == 115 && lit("static-framework")[1] == 116,
        lit("unit-test-bundle").len() == 16 && lit("unit-test-bundle")[0] == 117 && lit("unit-test-bundle")[1] == 110,
        lit("ui-testing-bundle").len() == 17 && lit("ui-testing-bundle")[0] == 117 && lit("ui-testing-bundle")[1] == 105,
        lit("app-extension").len() == 13 && lit("app-extension")[0] == 97 && lit("app-extension")[1] == 112,
        lit("tv-app-extension").len() == 16 && lit("tv-app-extension")[0] == 116 && lit("tv-app-extension")[1] == 118,
        lit("system-extension").len() == 16 && lit("system-extension")[0] == 115 && lit("system-extension")[1] == 121,
        lit("watchkit-extension").len() == 18 && lit("watchkit-extension")[0] == 119 && lit("watchkit-extension")[1] == 97,
        lit("extensionkit-extension").len() == 22 && lit("extensionkit-extension")[0] == 101 && lit("extensionkit-extension")[1] == 120,
        lit("library.static").len() == 14 && lit("library.static")[0] == 108 && lit("library.static")[1] == 105,
        lit("library.dynamic").len() == 15 && lit("library.dynamic")[0] == 108 && lit("library.dynamic")[1] == 105,
        lit("bundle").len() == 6 && lit("bundle")[0] == 98 && lit("bundle")[1] == 117,
        lit("bundle.unit-test").len() == 16 && lit("bundle.unit-test")[0] == 98 && lit("bundle.unit-test")[1] == 117,
{
    reveal_strlit("application");
    lemma_lit_ascii("application");
    reveal_strlit("tool");
    lemma_lit_ascii("tool");
    reveal_strlit("commandline-tool");
    lemma_lit_ascii("commandline-tool");
    reveal_strlit("app-clip");
    lemma_lit_ascii("app-clip");
    reveal_strlit("framework");
    lemma_lit_ascii("framework");
    reveal_strlit("static-framework");
    lemma_lit_ascii("static-framework");
    reveal_strlit("unit-test-bundle");
    lemma_lit_ascii("unit-test-bundle");
    reveal_strlit("ui-testing-bundle");
    lemma_lit_ascii("ui-testing-bundle");
    reveal_strlit("app-extension");
    lemma_lit_ascii("app-extension");
    reveal_strlit("tv-app-extension");
    lemma_lit_ascii("tv-app-extension");
    reveal_strlit("system-extension");
    lemma_lit_ascii("system-extension");
    reveal_strlit("watchkit-extension");
    lemma_lit_ascii("watchkit-extension");
    reveal_strlit("extensionkit-extension");
    lemma_lit_ascii("extensionkit-extension");
    reveal_strlit("library.static");
    lemma_lit_ascii("library.static");
    reveal_strlit("library.dynamic");
    lemma_lit_ascii("library.dynamic");
    reveal_strlit("bundle");
    lemma_lit_ascii("bundle");
    reveal_strlit("bundle.unit-test");
    lemma_lit_ascii("bundle.unit-test");
}

/// What kind of target each known product type makes, and of which subtype.
pub proof fn law_known_product_types()
    ensures
        short_product_info(lit("application")) == (2u8, lit("xcode-app")),
        short_product_info(lit("tool")) == (2u8, lit("cli")),
        short_product_info(lit("commandline-tool")) == (2u8, lit("cli")),
        short_product_info(lit("app-clip")) == (2u8, lit("app-clip")),
        short_product_info(lit("framework")) == (8u8, lit("framework")),
        short_product_info(lit("static-framework")) == (8u8, lit("framework")),
        short_product_info(lit("unit-test-bundle")) == (3u8, lit("xcode-test-bundle")),
        short_product_info(lit("ui-testing-bundle")) == (3u8, lit("xcode-test-bundle")),
        short_product_info(lit("app-extension")) == (9u8, lit("app-extension")),
        short_product_info(lit("tv-app-extension")) == (9u8, lit("app-extension")),
        short_product_info(lit("system-extension")) == (9u8, lit("app-extension")),
        short_product_info(lit("watchkit-extension")) == (9u8, lit("app-extension")),
        short_product_info(lit("extensionkit-extension")) == (9u8, lit("app-extension")),
        short_product_info(lit("library.static")) == (1u8, lit("library")),
        short_product_info(lit("library.dynamic")) == (1u8, lit("library")),
        short_product_info(lit("bundle")) == (1u8, lit("library")),
        short_product_info(lit("bundle.unit-test")) == (1u8, lit("library")),
{
    lemma_known_product_types();
}

/// Any other product type makes a target of unknown kind without a subtype.
pub proof fn law_other_product_types(short: Seq<u8>)
    requires
        short != lit("application"),
        short != lit("tool"),
        short != lit("commandline-tool"),
        short != lit("app-clip"),
        short != lit("framework"),
        short != lit("static-framework"),
        short != lit("unit-test-bundle"),
        short != lit("ui-testing-bundle"),
        short != lit("app-extension"),
        short != lit("tv-app-extension"),
        short != lit("system-extension"),
        short != lit("watchkit-extension"),
        short != lit("extensionkit-extension"),
        short != lit("library.static"),
        short != lit("library.dynamic"),
        short != lit("bundle"),
        short != lit("bundle.unit-test"),
    ensures
        short_product_info(short) == (0u8, Seq::<u8>::empty()),
{
}

/// A product type is shortened only where something follows Apple's prefix.
pub proof fn law_other_prefix_stays(product_type: Seq<u8>)
    requires
        forall|rest: Seq<u8>|
            rest.len() > 0 ==> product_type != #[trigger] (lit("com.apple.product-type.") + rest),
    ensures
        short_product_type(product_type) == product_type,
{
    let prefix = lit("com.apple.product-type.");
    if short_product_type(product_type) != product_type {
        let rest = product_type.skip(prefix.len() as int);
        assert(product_type =~= prefix + rest);
    }
}

/// The targets of a project are those of what stands between the two marks of its section,
/// whatever that is.
pub proof fn law_section_lies_between_marks(before: Seq<u8>, body: Seq<u8>, after: Seq<u8>)
    requires
        ({
            let begin = lit("/* Begin PBXNativeTarget section */");
            let end = lit("/* End PBXNativeTarget section */");
            let data = before + begin + body + end + after;
            &&& forall|i: int|
                0 <= i < before.len() ==> #[trigger] data.subrange(i, i + begin.len()) != begin
            &&& forall|i: int|
                before.len() + begin.len() <= i < before.len() + begin.len() + body.len()
                    ==> #[trigger] data.subrange(i, i + end.len()) != end
        }),
    ensures
        native_targets(
            before + lit("/* Begin PBXNativeTarget section */") + body + lit(
                "/* End PBXNativeTarget section */",
            ) + after,
        ) == native_from(body, 0),
{
    let begin = lit("/* Begin PBXNativeTarget section */");
    let end = lit("/* End PBXNativeTarget section */");
    let data = before + begin + body + end + after;
    let start = (before.len() + begin.len()) as int;
    reveal_strlit("/* Begin PBXNativeTarget section */");
    reveal_strlit("/* End PBXNativeTarget section */");
    lemma_lit_ascii("/* Begin PBXNativeTarget section */");
    lemma_lit_ascii("/* End PBXNativeTarget section */");
    assert(data =~= before + begin + (body + end + after));
    assert(data =~= (before + begin + body) + end + after);
    law_search_finds(before, begin, body + end + after, 0);
    law_search_finds(before + begin + body, end, after, start);
    assert(data.subrange(start, start + body.len()) =~= body);
}

/// A section without its second mark runs to the end.
pub proof fn law_section_without_end(before: Seq<u8>, body: Seq<u8>)
    requires
        ({
            let begin = lit("/* Begin PBXNativeTarget section */");
            let end = lit("/* End PBXNativeTarget section */");
            let data = before + begin + body;
            &&& forall|i: int|
                0 <= i < before.len() ==> #[trigger] data.subrange(i, i + begin.len()) != begin
            &&& forall|i: int|
                before.len() + begin.len() <= i && i + end.len() <= data.len()
                    ==> #[trigger] data.subrange(i, i + end.len()) != end
        }),
    ensures
        native_targets(before + lit("/* Begin PBXNativeTarget section */") + body) == native_from(
            body,
            0,
        ),
{
    let begin = lit("/* Begin PBXNativeTarget section */");
    let end = lit("/* End PBXNativeTarget section */");
    let data = before + begin + body;
    let start = (before.len() + begin.len()) as int;
    reveal_strlit("/* Begin PBXNativeTarget section */");
    reveal_strlit("/* End PBXNativeTarget section */");
    lemma_lit_ascii("/* Begin PBXNativeTarget section */");
    lemma_lit_ascii("/* End PBXNativeTarget section */");
    law_search_finds(before, begin, body, 0);
    law_first_occurrence_is_least(data, start, end);
    if let Some(at) = first_occurrence(data, start, end) {
        assert(data.subrange(at, at + end.len()) == end);
    }
    assert(data.subrange(start, data.len() as int) =~= body);
}

/// A project without the first mark has no targets.
pub proof fn law_no_section_no_targets(data: Seq<u8>)
    requires
        forall|i: int|
            0 <= i && i + lit("/* Begin PBXNativeTarget section */").len() <= data.len()
                ==> #[trigger] data.subrange(
                i,
                i + lit("/* Begin PBXNativeTarget section */").len(),
            ) != lit("/* Begin PBXNativeTarget section */"),
    ensures
        native_targets(data) == Seq::<TargetModel>::empty(),
{
    let begin = lit("/* Begin PBXNativeTarget section */");
    reveal_strlit("/* Begin PBXNativeTarget section */");
    lemma_lit_ascii("/* Begin PBXNativeTarget section */");
    law_first_occurrence_is_least(data, 0, begin);
    if let Some(at) = first_occurrence(data, 0, begin) {
        assert(data.subrange(at, at + begin.len()) == begin);
    }
}

/// The list of targets ends where no further name opens, or where one is never closed.
pub proof fn law_list_ends(section: Seq<u8>, pos: int)
    requires
        match first_occurrence(section, pos, lit("name = \"")) {
            Some(label) => first_occurrence(
                section,
                label + lit("name = \"").len(),
                lit("\""),
            ) is None,
            None => true,
        },
    ensures
        native_from(section, pos) == Seq::<TargetModel>::empty(),
{
}

/// Each name that is closed gives one target, where it is not empty, and the list goes on
/// behind the end of its stanza.
pub proof fn law_stanza_gives_target(
    section: Seq<u8>,
    pos: int,
    label: int,
    name_end: int,
    end: int,
)
    requires
        first_occurrence(section, pos, lit("name = \"")) == Some(label),
        first_occurrence(section, label + lit("name = \"").len(), lit("\"")) == Some(name_end),
        match first_occurrence(section, name_end, lit("};")) {
            Some(at) => end == at,
            None => end == section.len(),
        },
    ensures
        ({
            let name = section.subrange(label + lit("name = \"").len(), name_end);
            let info = stanza_info(section, name_end);
            &&& name.len() > 0 ==> native_from(section, pos) == seq![
                clipped(name, info.0, info.1),
            ] + native_from(section, end + 2)
            &&& name.len() == 0 ==> native_from(section, pos) == native_from(section, end + 2)
        }),
{
    lemma_found(section, pos, lit("name = \""));
    lemma_found(section, label + lit("name = \"").len(), lit("\""));
}

/// The kind and the subtype are those of the first product type behind the name, where that
/// begins before the stanza ends; its value runs to the next quotation mark, or else to the
/// end of the stanza.
pub proof fn law_stanza_takes_product_type(section: Seq<u8>, name_end: int, at: int, end: int)
    requires
        first_occurrence(section, name_end, lit("productType = \"")) == Some(at),
        match first_occurrence(section, name_end, lit("};")) {
            Some(stop) => end == stop,
            None => end == section.len(),
        },
        at < end,
    ensures
        ({
            let start = at + lit("productType = \"").len();
            stanza_info(section, name_end) == short_product_info(
                short_product_type(
                    match first_occurrence(section, start, lit("\"")) {
                        Some(stop) => section.subrange(start, stop),
                        None => section.subrange(start, end),
                    },
                ),
            )
        }),
{
}

/// A stanza without a product type before its end has a target of unknown kind without a
/// subtype.
pub proof fn law_stanza_without_product_type(section: Seq<u8>, name_end: int, end: int)
    requires
        match first_occurrence(section, name_end, lit("};")) {
            Some(stop) => end == stop,
            None => end == section.len(),
        },
        match first_occurrence(section, name_end, lit("productType = \"")) {
            Some(at) => at >= end,
            None => true,
        },
    ensures
        stanza_info(section, name_end) == (0u8, Seq::<u8>::empty()),
{
}

/// Every native target has a name, and no name holds a quotation mark.
pub proof fn law_native_names(section: Seq<u8>, pos: int)
    ensures
        forall|i: int|
            0 <= i < native_from(section, pos).len() ==> {
                &&& (#[trigger] native_from(section, pos)[i]).name.len() > 0
                &&& !native_from(section, pos)[i].name.contains(QUOTE)
            },
    decreases section.len() + 2 - pos,
{
    let label = lit("name = \"");
    lemma_found(section, pos, label);
    if let Some(at) = first_occurrence(section, pos, label) {
        let name_start = at + label.len();
        lemma_found(section, name_start, lit("\""));
        if let Some(name_end) = first_occurrence(section, name_start, lit("\"")) {
            lemma_found(section, name_end, lit("};"));
            let rest = native_from(section, stanza_end(section, name_end) + 2);
            law_native_names(section, stanza_end(section, name_end) + 2);
            let name = section.subrange(name_start, name_end);
            lemma_holds_no_quote(section, name_start, name_end);
            let found = native_from(section, pos);
            assert forall|i: int| 0 <= i < found.len() implies (#[trigger] found[i]).name.len() > 0
                && !found[i].name.contains(QUOTE) by {
                if name_start < name_end {
                    if i == 0 {
                        assert(!clip(name, MAX_NAME_LEN as nat).contains(QUOTE));
                    } else {
                        assert(found[i] == rest[i - 1]);
                    }
                }
            }
        }
    }
}

/// A stanza is read as the target it describes: the name behind its first label, and the kind
/// and the subtype of the product type that it gives before its end.
pub proof fn law_stanza_is_read(
    section: Seq<u8>,
    pos: int,
    name_end: int,
    type_label: int,
    type_end: int,
    end: int,
)
    requires
        occurs_at(section, pos, lit("name = \"")),
        first_occurrence(section, pos + lit("name = \"").len(), lit("\"")) == Some(name_end),
        pos + lit("name = \"").len() < name_end,
        first_occurrence(section, name_end, lit("productType = \"")) == Some(type_label),
        first_occurrence(section, type_label + lit("productType = \"").len(), lit("\"")) == Some(
            type_end,
        ),
        first_occurrence(section, name_end, lit("};")) == Some(end),
        type_label < end,
    ensures
        native_from(section, pos) == ({
            let name = section.subrange(pos + lit("name = \"").len(), name_end);
            let product_type = section.subrange(
                type_label + lit("productType = \"").len(),
                type_end,
            );
            let info = short_product_info(short_product_type(product_type));
            seq![clipped(name, info.0, info.1)] + native_from(section, end + 2)
        }),
{
    reveal_strlit("name = \"");
    lemma_lit_ascii("name = \"");
    assert(first_occurrence(section, pos, lit("name = \"")) == Some(pos));
}

/// What stands before the next quotation mark holds none, whole or cut.
proof fn lemma_holds_no_quote(section: Seq<u8>, start: int, end: int)
    requires
        0 <= start,
        first_occurrence(section, start, lit("\"")) == Some(end),
    ensures
        !clip(section.subrange(start, end), MAX_NAME_LEN as nat).contains(QUOTE),
{
    reveal_strlit("\"");
    lemma_lit_ascii("\"");
    lemma_found(section, start, lit("\""));
    law_first_occurrence_is_least(section, start, lit("\""));
    let name = section.subrange(start, end);
    let kept_name = clip(name, MAX_NAME_LEN as nat);
    assert forall|i: int| 0 <= i < kept_name.len() implies kept_name[i] != QUOTE by {
        if kept_name[i] == QUOTE {
            assert(section[start + i] == QUOTE);
            assert(section.subrange(start + i, start + i + 1) =~= lit("\""));
            assert(occurs_at(section, start + i, lit("\"")));
        }
    }
}

/// The kind and the subtype of a target with the given product type.
pub fn product_type_info(product_type: &[u8]) -> (info: (u8, &'static [u8]))
    ensures
        (info.0, info.1@) == short_product_info(short_product_type(product_type@)),
{
    let prefix = "com.apple.product-type.".as_bytes();
    let has_prefix: bool = product_type.len() > prefix.len() && bytes_eq(
        &product_type[0..prefix.len()],
        prefix,
    );
    let short = if has_prefix {
        &product_type[prefix.len()..product_type.len()]
    } else {
        product_type
    };
    proof {
        if product_type@.len() > prefix@.len() {
            assert(product_type@.subrange(0, prefix@.len() as int) =~= product_type@.take(
                prefix@.len() as int,
            ));
            assert(product_type@.subrange(prefix@.len() as int, product_type@.len() as int)
                =~= product_type@.skip(prefix@.len() as int));
        }
    }
    if bytes_eq(short, "application".as_bytes()) {
        (TARGET_KIND_BINARY, "xcode-app".as_bytes())
    } else if bytes_eq(short, "tool".as_bytes()) || bytes_eq(short, "commandline-tool".as_bytes()) {
        (TARGET_KIND_BINARY, "cli".as_bytes())
    } else if bytes_eq(short, "app-clip".as_bytes()) {
        (TARGET_KIND_BINARY, "app-clip".as_bytes())
    } else if bytes_eq(short, "framework".as_bytes()) || bytes_eq(
        short,
        "static-framework".as_bytes(),
    ) {
        (TARGET_KIND_FRAMEWORK, "framework".as_bytes())
    } else if bytes_eq(short, "unit-test-bundle".as_bytes()) || bytes_eq(
        short,
        "ui-testing-bundle".as_bytes(),
    ) {
        (TARGET_KIND_TEST, "xcode-test-bundle".as_bytes())
    } else if bytes_eq(short, "app-extension".as_bytes()) || bytes_eq(
        short,
        "tv-app-extension".as_bytes(),
    ) || bytes_eq(short, "system-extension".as_bytes()) || bytes_eq(
        short,
        "watchkit-extension".as_bytes(),
    ) || bytes_eq(short, "extensionkit-extension".as_bytes()) {
        (TARGET_KIND_EXTENSION, "app-extension".as_bytes())
    } else if bytes_eq(short, "library.static".as_bytes()) || bytes_eq(
        short,
        "library.dynamic".as_bytes(),
    ) || bytes_eq(short, "bundle".as_bytes()) || bytes_eq(short, "bundle.unit-test".as_bytes()) {
        (TARGET_KIND_LIBRARY, "library".as_bytes())
    } else {
        (TARGET_KIND_UNKNOWN, &[])
    }
}

/// Finds the section of a project that lists its native targets.
fn find_native_section<'a>(data: &'a [u8]) -> (section: Option<&'a [u8]>)
    ensures
        match section {
            Some(bytes) => native_section(data@) == Some(bytes@),
            None => native_section(data@) is None,
        },
{
    let begin = "/* Begin PBXNativeTarget section */".as_bytes();
    let end = "/* End PBXNativeTarget section */".as_bytes();
    match find_from(data, 0, begin) {
        Some(at) => {
            let start: usize = at + begin.len();
            let stop: usize = match find_from(data, start, end) {
                Some(stop) => stop,
                None => data.len(),
            };
            Some(&data[start..stop])
        },
        None => None,
    }
}

/// Reads the kind and the subtype of the target whose name ends at `name_end`, in a stanza
/// that ends at `end`.
fn read_stanza_info(section: &[u8], name_end: usize, end: usize) -> (info: (u8, &'static [u8]))
    requires
        end == stanza_end(section@, name_end as int),
    ensures
        (info.0, info.1@) == stanza_info(section@, name_end as int),
{
    let label = "productType = \"".as_bytes();
    proof {
        lemma_found(section@, name_end as int, label@);
        lemma_found(section@, name_end as int, lit("};"));
    }
    match find_from(section, name_end, label) {
        Some(at) => {
            if at < end {
                proof {
                    lemma_label_inside_stanza(section@, name_end as int, at as int);
                }
                let start: usize = at + label.len();
                let stop: usize = match find_from(section, start, "\"".as_bytes()) {
                    Some(stop) => stop,
                    None => end,
                };
                product_type_info(&section[start..stop])
            } else {
                (TARGET_KIND_UNKNOWN, &[])
            }
        },
        None => (TARGET_KIND_UNKNOWN, &[]),
    }
}

/// Finds the native targets of an Xcode project.
pub fn parse_pbxproj(data: &[u8]) -> (targets: Targets)
    ensures
        targets@ == kept(native_targets(data@)),
{
    let mut targets = Targets::new();
    let section = match find_native_section(data) {
        Some(section) => section,
        None => {
            return targets;
        },
    };
    let label = "name = \"".as_bytes();
    let mut pos: usize = 0;
    let ghost mut done: Seq<TargetModel> = Seq::empty();
    assert(done + native_from(section@, 0) =~= native_from(section@, 0));
    while pos < section.len()
        invariant
            pos <= section.len(),
            label@ == lit("name = \""),
            targets@ == kept(done),
            done + native_from(section@, pos as int) == native_from(section@, 0),
        ensures
            targets@ == kept(native_from(section@, 0)),
        decreases section.len() - pos,
    {
        proof {
            lemma_found(section@, pos as int, label@);
        }
        let at: usize = match find_from(section, pos, label) {
            Some(at) => at,
            None => {
                assert(done + native_from(section@, pos as int) =~= done);
                break ;
            },
        };
        let name_start: usize = at + label.len();
        proof {
            lemma_found(section@, name_start as int, lit("\""));
        }
        let name_end: usize = match find_from(section, name_start, "\"".as_bytes()) {
            Some(name_end) => name_end,
            None => {
                assert(done + native_from(section@, pos as int) =~= done);
                break ;
            },
        };
        proof {
            reveal_strlit("};");
            lemma_lit_ascii("};");
            lemma_found(section@, name_end as int, lit("};"));
        }
        let name = &section[name_start..name_end];
        let (end, next): (usize, usize) = match find_from(section, name_end, "};".as_bytes()) {
            Some(end) => (end, end + 2),
            None => (section.len(), section.len()),
        };
        let (kind, subtype) = read_stanza_info(section, name_end, end);
        let ghost before = done;
        if !name.is_empty() {
            targets.push(name, kind, subtype);
            proof {
                law_kept_push(done, clipped(name@, kind, subtype@));
                done = done.push(clipped(name@, kind, subtype@));
            }
        }
        proof {
            assert(native_from(section@, next as int) == native_from(section@, end + 2));
            assert(done + native_from(section@, next as int) =~= before + native_from(
                section@,
                pos as int,
            ));
        }
        pos = next;
    }
    targets
}

} // verus!
