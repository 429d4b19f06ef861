//! The project model: what is written of a project and its targets.

use crate::json::views;
use crate::targets::{
    TargetModel, Targets, TARGET_KIND_BINARY, TARGET_KIND_EXTENSION, TARGET_KIND_FRAMEWORK,
    TARGET_KIND_LIBRARY, TARGET_KIND_PLUGIN, TARGET_KIND_PROC_MACRO, TARGET_KIND_TEST,
};
use crate::text::{decoded, text_eq, utf8_lossy};
use vstd::prelude::*;

verus! {

/// A Swift package.
pub const KIND_SPM: u8 = 0;

/// An Xcode project.
pub const KIND_XCODEPROJ: u8 = 1;

/// An Xcode workspace.
pub const KIND_XCWORKSPACE: u8 = 2;

/// A target, its texts decoded.
#[verifier::ext_equal]
pub struct TargetText {
    pub name: Seq<char>,
    pub kind: u8,
    pub subtype: Option<Seq<char>>,
}

/// The subtype of a target; an empty one counts as none.
pub open spec fn subtype_text(subtype: Seq<u8>) -> Option<Seq<char>> {
    if subtype.len() == 0 {
        None
    } else {
        Some(decoded(subtype))
    }
}

/// A target with its texts decoded.
pub open spec fn target_text(target: TargetModel) -> TargetText {
    TargetText {
        name: decoded(target.name),
        kind: target.kind,
        subtype: subtype_text(target.subtype),
    }
}

/// Targets with their texts decoded.
pub open spec fn target_texts(targets: Seq<TargetModel>) -> Seq<TargetText> {
    targets.map_values(|t: TargetModel| target_text(t))
}

/// The kinds of target that make a project an app.
pub open spec fn is_app_kind(kind: u8) -> bool {
    kind == TARGET_KIND_BINARY || kind == TARGET_KIND_FRAMEWORK || kind == TARGET_KIND_EXTENSION
}

/// The kinds of target that make a project a library, where none makes it an app.
pub open spec fn is_library_kind(kind: u8) -> bool {
    kind == TARGET_KIND_LIBRARY || kind == TARGET_KIND_PROC_MACRO || kind == TARGET_KIND_PLUGIN
}

/// The kind of a project, by its own kind and its targets.
pub open spec fn project_kind(kind: u8, targets: Seq<TargetText>) -> Seq<char> {
    if targets.len() == 0 {
        if kind == KIND_XCWORKSPACE {
            "workspace"@
        } else {
            "project"@
        }
    } else if exists|i: int| 0 <= i < targets.len() && is_app_kind((#[trigger] targets[i]).kind) {
        "app"@
    } else if exists|i: int|
        0 <= i < targets.len() && is_library_kind((#[trigger] targets[i]).kind) {
        "library"@
    } else if forall|i: int|
        0 <= i < targets.len() ==> (#[trigger] targets[i]).kind == TARGET_KIND_TEST {
        "test"@
    } else {
        "project"@
    }
}

/// The subtype of a project, by its kind.
pub open spec fn project_subtype(kind: u8) -> Option<Seq<char>> {
    if kind == KIND_SPM {
        Some("swift-package"@)
    } else if kind == KIND_XCODEPROJ {
        Some("xcode-project"@)
    } else if kind == KIND_XCWORKSPACE {
        Some("xcode-workspace"@)
    } else {
        None
    }
}

/// What the kind of a target alone says that it can do.
pub open spec fn kind_capabilities(kind: u8) -> Seq<Seq<char>> {
    if kind == TARGET_KIND_BINARY || kind == TARGET_KIND_EXTENSION {
        seq!["is-executable"@]
    } else if kind == TARGET_KIND_TEST {
        seq!["is-test-only"@]
    } else if kind == TARGET_KIND_PROC_MACRO || kind == TARGET_KIND_PLUGIN {
        seq!["is-library"@, "builds-plugin"@]
    } else if kind == TARGET_KIND_FRAMEWORK || kind == TARGET_KIND_LIBRARY {
        seq!["is-library"@]
    } else {
        Seq::empty()
    }
}

/// The subtypes of targets that have a user interface.
pub open spec fn has_ui(subtype: Option<Seq<char>>) -> bool {
    subtype == Some("xcode-app"@) || subtype == Some("app-extension"@) || subtype == Some(
        "app-clip"@,
    )
}

/// What a target can do, by its kind and its subtype.
pub open spec fn capabilities(kind: u8, subtype: Option<Seq<char>>) -> Seq<Seq<char>> {
    if has_ui(subtype) {
        kind_capabilities(kind).push("has-ui"@)
    } else {
        kind_capabilities(kind)
    }
}

/// `more` joined to `texts`, each text that is not there yet at the end.
pub open spec fn merged(texts: Seq<Seq<char>>, more: Seq<Seq<char>>) -> Seq<Seq<char>>
    decreases more.len(),
{
    if more.len() == 0 {
        texts
    } else {
        let before = merged(texts, more.drop_last());
        if before.contains(more.last()) {
            before
        } else {
            before.push(more.last())
        }
    }
}

/// What the targets of a project can do, each thing once, in the order in which it first
/// comes up.
pub open spec fn project_capabilities(targets: Seq<TargetText>) -> Seq<Seq<char>>
    decreases targets.len(),
{
    if targets.len() == 0 {
        Seq::empty()
    } else {
        merged(
            project_capabilities(targets.drop_last()),
            capabilities(targets.last().kind, targets.last().subtype),
        )
    }
}

proof fn lemma_merged(texts: Seq<Seq<char>>, more: Seq<Seq<char>>)
    ensures
        texts.no_duplicates() ==> merged(texts, more).no_duplicates(),
        forall|text: Seq<char>| #[trigger]
            merged(texts, more).contains(text) <==> texts.contains(text) || more.contains(text),
    decreases more.len(),
{
    if more.len() > 0 {
        let init = more.drop_last();
        let before = merged(texts, init);
        lemma_merged(texts, init);
        assert forall|text: Seq<char>| #[trigger]
            merged(texts, more).contains(text) <==> texts.contains(text) || more.contains(text) by {
            assert(more =~= init.push(more.last()));
            if more.contains(text) {
                let i = choose|i: int| 0 <= i < more.len() && more[i] == text;
                if i < init.len() {
                    assert(init[i] == text);
                    assert(init.contains(text));
                }
            }
            if init.contains(text) {
                let i = choose|i: int| 0 <= i < init.len() && init[i] == text;
                assert(more[i] == text);
            }
            if !before.contains(more.last()) {
                if before.contains(text) {
                    let i = choose|i: int| 0 <= i < before.len() && before[i] == text;
                    assert(before.push(more.last())[i] == text);
                }
                assert(before.push(more.last())[before.len() as int] == more.last());
            }
            assert(more[more.len() - 1] == more.last());
        }
    }
}

/// The capabilities of a project hold nothing twice, and hold exactly what some target of it
/// can do.
pub proof fn law_project_capabilities(targets: Seq<TargetText>)
    ensures
        project_capabilities(targets).no_duplicates(),
        forall|text: Seq<char>| #[trigger]
            project_capabilities(targets).contains(text) <==> exists|i: int|
                0 <= i < targets.len() && capabilities(
                    (#[trigger] targets[i]).kind,
                    targets[i].subtype,
                ).contains(text),
    decreases targets.len(),
{
    if targets.len() > 0 {
        let init = targets.drop_last();
        let last = targets.last();
        law_project_capabilities(init);
        lemma_merged(project_capabilities(init), capabilities(last.kind, last.subtype));
        assert forall|text: Seq<char>| #[trigger]
            project_capabilities(targets).contains(text) <==> exists|i: int|
                0 <= i < targets.len() && capabilities(
                    (#[trigger] targets[i]).kind,
                    targets[i].subtype,
                ).contains(text) by {
            if project_capabilities(init).contains(text) {
                let i = choose|i: int|
                    0 <= i < init.len() && capabilities(
                        (#[trigger] init[i]).kind,
                        init[i].subtype,
                    ).contains(text);
                assert(targets[i] == init[i]);
            }
            if exists|i: int|
                0 <= i < targets.len() && capabilities(
                    (#[trigger] targets[i]).kind,
                    targets[i].subtype,
                ).contains(text) {
                let i = choose|i: int|
                    0 <= i < targets.len() && capabilities(
                        (#[trigger] targets[i]).kind,
                        targets[i].subtype,
                    ).contains(text);
                if i < init.len() {
                    assert(init[i] == targets[i]);
                }
            }
            assert(targets[targets.len() - 1] == last);
        }
    }
}

/// A binary, a framework or an extension among its targets makes any project an app.
pub proof fn law_app_wins(kind: u8, targets: Seq<TargetText>, i: int)
    requires
        0 <= i < targets.len(),
        targets[i].kind == 2 || targets[i].kind == 8 || targets[i].kind == 9,
    ensures
        project_kind(kind, targets) == "app"@,
{
    assert(is_app_kind(targets[i].kind));
}

/// A library, a macro or a plugin among its targets makes a project a library, where none of
/// them is a binary, a framework or an extension.
pub proof fn law_library_comes_next(kind: u8, targets: Seq<TargetText>, i: int)
    requires
        0 <= i < targets.len(),
        targets[i].kind == 1 || targets[i].kind == 6 || targets[i].kind == 7,
        forall|k: int|
            0 <= k < targets.len() ==> (#[trigger] targets[k]).kind != 2 && targets[k].kind != 8
                && targets[k].kind != 9,
    ensures
        project_kind(kind, targets) == "library"@,
{
    assert(is_library_kind(targets[i].kind));
}

/// A project is a test where all its targets are tests.
pub proof fn law_tests_alone(kind: u8, targets: Seq<TargetText>)
    requires
        targets.len() > 0,
        forall|k: int| 0 <= k < targets.len() ==> (#[trigger] targets[k]).kind == 3,
    ensures
        project_kind(kind, targets) == "test"@,
{
}

/// A project is no more than that where its targets are tests and targets of other kinds.
pub proof fn law_other_targets(kind: u8, targets: Seq<TargetText>, i: int)
    requires
        0 <= i < targets.len(),
        targets[i].kind != 3,
        forall|k: int|
            0 <= k < targets.len() ==> (#[trigger] targets[k]).kind != 2 && targets[k].kind != 8
                && targets[k].kind != 9 && targets[k].kind != 1 && targets[k].kind != 6
                && targets[k].kind != 7,
    ensures
        project_kind(kind, targets) == "project"@,
{
}

/// A workspace without targets is a workspace, and anything else without targets a project.
pub proof fn law_no_targets(kind: u8)
    ensures
        kind == 2 ==> project_kind(kind, Seq::empty()) == "workspace"@,
        kind != 2 ==> project_kind(kind, Seq::empty()) == "project"@,
{
}

/// The project's own kind plays no part where it has targets.
pub proof fn law_own_kind_plays_no_part(kind_a: u8, kind_b: u8, targets: Seq<TargetText>)
    requires
        targets.len() > 0,
    ensures
        project_kind(kind_a, targets) == project_kind(kind_b, targets),
{
}

/// The subtypes of projects.
pub proof fn law_project_subtypes(kind: u8)
    ensures
        kind == 0 ==> project_subtype(kind) == Some("swift-package"@),
        kind == 1 ==> project_subtype(kind) == Some("xcode-project"@),
        kind == 2 ==> project_subtype(kind) == Some("xcode-workspace"@),
        kind > 2 ==> project_subtype(kind) is None,
{
}

/// The names of things that a target can do differ.
proof fn lemma_capability_names()
    ensures
        "has-ui"@.len() == 6,
        "is-executable"@.len() == 13 && "is-executable"@[0] == 'i',
        "is-test-only"@.len() == 12,
        "is-library"@.len() == 10,
        "builds-plugin"@.len() == 13 && "builds-plugin"@[0] == 'b',
{
    reveal_strlit("has-ui");
    reveal_strlit("is-executable");
    reveal_strlit("is-test-only");
    reveal_strlit("is-library");
    reveal_strlit("builds-plugin");
}

/// A target has a user interface exactly where it is an app, an app extension or an app clip.
pub proof fn law_has_ui(kind: u8, subtype: Option<Seq<char>>)
    ensures
        capabilities(kind, subtype).contains("has-ui"@) <==> subtype == Some("xcode-app"@)
            || subtype == Some("app-extension"@) || subtype == Some("app-clip"@),
{
    lemma_capability_names();
    let caps = capabilities(kind, subtype);
    if subtype == Some("xcode-app"@) || subtype == Some("app-extension"@) || subtype == Some(
        "app-clip"@,
    ) {
        assert(caps[caps.len() - 1] == "has-ui"@);
    } else if caps.contains("has-ui"@) {
        let i = choose|i: int| 0 <= i < caps.len() && caps[i] == "has-ui"@;
        assert(caps[i].len() != 6);
    }
}

/// No target of a Swift package has a user interface.
pub proof fn law_package_targets_have_no_ui(kind: u8, subtype: Seq<char>)
    requires
        subtype == "swift-executable"@ || subtype == "swiftpm-test"@ || subtype == "swift-macro"@
            || subtype == "swift-plugin"@ || subtype == "binary-target"@ || subtype
            == "swift-library"@,
    ensures
        !capabilities(kind, Some(subtype)).contains("has-ui"@),
{
    law_has_ui(kind, Some(subtype));
    reveal_strlit("swift-executable");
    reveal_strlit("swiftpm-test");
    reveal_strlit("swift-macro");
    reveal_strlit("swift-plugin");
    reveal_strlit("binary-target");
    reveal_strlit("swift-library");
    reveal_strlit("xcode-app");
    reveal_strlit("app-extension");
    reveal_strlit("app-clip");
    assert(subtype[0] == 's' || subtype[0] == 'b');
    assert("xcode-app"@[0] == 'x');
    assert("app-extension"@[0] == 'a');
    assert("app-clip"@[0] == 'a');
}

/// Binaries and extensions can be run, tests are for testing only, and libraries, frameworks,
/// macros and plugins are libraries, of which the last two build plugins.
pub proof fn law_capabilities_by_kind(kind: u8, subtype: Option<Seq<char>>)
    ensures
        capabilities(kind, subtype).contains("is-executable"@) <==> kind == 2 || kind == 9,
        capabilities(kind, subtype).contains("is-test-only"@) <==> kind == 3,
        capabilities(kind, subtype).contains("is-library"@) <==> kind == 1 || kind == 6 || kind == 7
            || kind == 8,
        capabilities(kind, subtype).contains("builds-plugin"@) <==> kind == 6 || kind == 7,
        capabilities(kind, subtype).no_duplicates(),
        forall|i: int|
            0 <= i < capabilities(kind, subtype).len() ==> #[trigger] capabilities(kind, subtype)[i]
                == "is-executable"@ || capabilities(kind, subtype)[i] == "is-test-only"@
                || capabilities(kind, subtype)[i] == "is-library"@ || capabilities(kind, subtype)[i]
                == "builds-plugin"@ || capabilities(kind, subtype)[i] == "has-ui"@,
{
    lemma_capability_names();
    let caps = capabilities(kind, subtype);
    assert(caps.len() > 0 ==> caps.contains(caps[0]));
    assert(caps.len() > 1 ==> caps.contains(caps[1]));
    if caps.contains("is-executable"@) {
        let i = choose|i: int| 0 <= i < caps.len() && caps[i] == "is-executable"@;
        assert(caps[i].len() == 13);
    }
    if caps.contains("is-test-only"@) {
        let i = choose|i: int| 0 <= i < caps.len() && caps[i] == "is-test-only"@;
        assert(caps[i].len() == 12);
    }
    if caps.contains("is-library"@) {
        let i = choose|i: int| 0 <= i < caps.len() && caps[i] == "is-library"@;
        assert(caps[i].len() == 10);
    }
    if caps.contains("builds-plugin"@) {
        let i = choose|i: int| 0 <= i < caps.len() && caps[i] == "builds-plugin"@;
        assert(caps[i].len() == 13);
    }
}

/// What a target can do is said in one order: what its kind says first, with being a library
/// before building plugins, and the user interface last.
pub proof fn law_capability_order(kind: u8, subtype: Option<Seq<char>>)
    ensures
        kind == 6 || kind == 7 ==> capabilities(kind, subtype)[0] == "is-library"@ && capabilities(
            kind,
            subtype,
        )[1] == "builds-plugin"@,
        capabilities(kind, subtype).contains("has-ui"@) ==> capabilities(kind, subtype).last()
            == "has-ui"@,
{
    law_has_ui(kind, subtype);
}

/// Texts are joined one by one: each goes to the end where it is not there yet.
pub proof fn law_merge_one_by_one(
    texts: Seq<Seq<char>>,
    more: Seq<Seq<char>>,
    text: Seq<char>,
)
    ensures
        merged(texts, Seq::empty()) == texts,
        merged(texts, more).contains(text) ==> merged(texts, more.push(text)) == merged(
            texts,
            more,
        ),
        !merged(texts, more).contains(text) ==> merged(texts, more.push(text)) == merged(
            texts,
            more,
        ).push(text),
{
    assert(more.push(text).drop_last() =~= more);
}

/// The capabilities of a project are joined target by target.
pub proof fn law_project_capabilities_grow(targets: Seq<TargetText>, target: TargetText)
    ensures
        project_capabilities(Seq::empty()) == Seq::<Seq<char>>::empty(),
        project_capabilities(targets.push(target)) == merged(
            project_capabilities(targets),
            capabilities(target.kind, target.subtype),
        ),
{
    assert(targets.push(target).drop_last() =~= targets);
}

/// Each target is written by its own name, kind and subtype, decoded; an empty subtype is none.
pub proof fn law_target_texts(targets: Seq<TargetModel>)
    ensures
        target_texts(targets).len() == targets.len(),
        forall|i: int|
            0 <= i < targets.len() ==> {
                let text = #[trigger] target_texts(targets)[i];
                &&& text.name == decoded(targets[i].name)
                &&& text.kind == targets[i].kind
                &&& targets[i].subtype.len() == 0 ==> text.subtype is None
                &&& targets[i].subtype.len() > 0 ==> text.subtype == Some(
                    decoded(targets[i].subtype),
                )
            },
{
}

/// The kind of a project, by its own kind and its targets.
pub fn project_kind_for(kind: u8, targets: &Targets) -> (name: &'static str)
    ensures
        name@ == project_kind(kind, target_texts(targets@)),
        (exists|i: int|
            0 <= i < targets@.len() && ((#[trigger] targets@[i]).kind == 2 || targets@[i].kind == 8
                || targets@[i].kind == 9)) ==> name@ == "app"@,
{
    let ghost texts = target_texts(targets@);
    let n: usize = targets.count();
    if n > 0 {
        let mut has_app: bool = false;
        let mut has_library: bool = false;
        let mut has_non_test: bool = false;
        let mut i: usize = 0;
        while i < n
            invariant
                i <= n == targets@.len(),
                texts == target_texts(targets@),
                n <= crate::targets::MAX_TARGETS,
                has_app == exists|k: int| 0 <= k < i && is_app_kind((#[trigger] texts[k]).kind),
                has_library == exists|k: int|
                    0 <= k < i && is_library_kind((#[trigger] texts[k]).kind),
                !has_non_test == forall|k: int|
                    0 <= k < i ==> (#[trigger] texts[k]).kind == TARGET_KIND_TEST,
            decreases n - i,
        {
            let target_kind: u8 = targets.kind(i);
            assert(texts[i as int].kind == target_kind);
            if target_kind == TARGET_KIND_BINARY || target_kind == TARGET_KIND_FRAMEWORK
                || target_kind == TARGET_KIND_EXTENSION {
                has_app = true;
                has_non_test = true;
            } else if target_kind == TARGET_KIND_LIBRARY || target_kind == TARGET_KIND_PROC_MACRO
                || target_kind == TARGET_KIND_PLUGIN {
                has_library = true;
                has_non_test = true;
            } else if target_kind != TARGET_KIND_TEST {
                has_non_test = true;
            }
            i += 1;
        }
        proof {
            if exists|k: int|
                0 <= k < targets@.len() && ((#[trigger] targets@[k]).kind == 2 || targets@[k].kind
                    == 8 || targets@[k].kind == 9) {
                let k = choose|k: int|
                    0 <= k < targets@.len() && ((#[trigger] targets@[k]).kind == 2
                        || targets@[k].kind == 8 || targets@[k].kind == 9);
                law_app_wins(kind, texts, k);
            }
        }
        if has_app {
            "app"
        } else if has_library {
            "library"
        } else if !has_non_test {
            "test"
        } else {
            "project"
        }
    } else if kind == KIND_XCWORKSPACE {
        "workspace"
    } else {
        "project"
    }
}

/// The subtype of a project, by its kind.
pub fn project_subtype_for(kind: u8) -> (subtype: Option<&'static str>)
    ensures
        match subtype {
            Some(text) => project_subtype(kind) == Some(text@),
            None => project_subtype(kind) is None,
        },
{
    if kind == KIND_SPM {
        Some("swift-package")
    } else if kind == KIND_XCODEPROJ {
        Some("xcode-project")
    } else if kind == KIND_XCWORKSPACE {
        Some("xcode-workspace")
    } else {
        None
    }
}

/// What a target can do, by its kind and its subtype.
pub fn target_capabilities_for(kind: u8, subtype: Option<&str>) -> (caps: Vec<String>)
    ensures
        views(caps@) == capabilities(
            kind,
            match subtype {
                Some(text) => Some(text@),
                None => None,
            },
        ),
        views(caps@).contains("has-ui"@) <==> subtype is Some && (subtype->0@ == "xcode-app"@
            || subtype->0@ == "app-extension"@ || subtype->0@ == "app-clip"@),
{
    proof {
        law_has_ui(
            kind,
            match subtype {
                Some(text) => Some(text@),
                None => None,
            },
        );
    }
    let mut caps: Vec<String> = Vec::new();
    if kind == TARGET_KIND_BINARY || kind == TARGET_KIND_EXTENSION {
        caps.push("is-executable".to_string());
    } else if kind == TARGET_KIND_TEST {
        caps.push("is-test-only".to_string());
    } else if kind == TARGET_KIND_PROC_MACRO || kind == TARGET_KIND_PLUGIN {
        caps.push("is-library".to_string());
        caps.push("builds-plugin".to_string());
    } else if kind == TARGET_KIND_FRAMEWORK || kind == TARGET_KIND_LIBRARY {
        caps.push("is-library".to_string());
    }
    assert(views(caps@) =~= kind_capabilities(kind));
    if let Some(text) = subtype {
        if text_eq(text, "xcode-app") || text_eq(text, "app-extension") || text_eq(
            text,
            "app-clip",
        ) {
            caps.push("has-ui".to_string());
            assert(views(caps@) =~= kind_capabilities(kind).push("has-ui"@));
        }
    }
    caps
}

/// Joins `more` to `caps`, each text that is not there yet at the end.
pub fn merge_capabilities(caps: &mut Vec<String>, more: &Vec<String>)
    ensures
        views(final(caps)@) == merged(views(old(caps)@), views(more@)),
{
    let ghost all = views(more@);
    let mut i: usize = 0;
    assert(all.take(0) =~= Seq::empty());
    while i < more.len()
        invariant
            i <= more@.len(),
            all == views(more@),
            views(caps@) == merged(views(old(caps)@), all.take(i as int)),
        decreases more@.len() - i,
    {
        let ghost before = views(caps@);
        let mut known: bool = false;
        let mut k: usize = 0;
        while k < caps.len()
            invariant
                k <= caps@.len(),
                i < more@.len(),
                before == views(caps@),
                known == exists|j: int| 0 <= j < k && #[trigger] before[j] == more@[i as int]@,
            decreases caps@.len() - k,
        {
            if caps[k] == more[i] {
                known = true;
            }
            assert(before[k as int] == caps@[k as int]@);
            k += 1;
        }
        proof {
            assert(all.take(i + 1).drop_last() =~= all.take(i as int));
            assert(all.take(i + 1).last() == more@[i as int]@);
            assert(known == before.contains(more@[i as int]@));
        }
        if !known {
            caps.push(more[i].clone());
            assert(views(caps@) =~= before.push(more@[i as int]@));
        }
        i += 1;
    }
    assert(all.take(more@.len() as int) =~= all);
}

/// Decodes the subtype of target `i`.
pub(crate) fn decode_subtype(targets: &Targets, i: usize) -> (subtype: Option<String>)
    requires
        i < targets@.len(),
        i < crate::targets::MAX_TARGETS,
    ensures
        match subtype {
            Some(text) => target_text(targets@[i as int]).subtype == Some(text@),
            None => target_text(targets@[i as int]).subtype is None,
        },
{
    let raw = targets.subtype(i);
    if raw.is_empty() {
        None
    } else {
        Some(utf8_lossy(raw))
    }
}

/// What the targets of a project can do.
pub fn project_capabilities_for(targets: &Targets) -> (caps: Vec<String>)
    ensures
        views(caps@) == project_capabilities(target_texts(targets@)),
{
    let n: usize = targets.count();
    let ghost texts = target_texts(targets@);
    let mut caps: Vec<String> = Vec::new();
    let mut i: usize = 0;
    assert(views(caps@) =~= Seq::empty());
    while i < n
        invariant
            i <= n == targets@.len(),
            n <= crate::targets::MAX_TARGETS,
            texts == target_texts(targets@),
            views(caps@) == project_capabilities(texts.take(i as int)),
        decreases n - i,
    {
        let subtype = decode_subtype(targets, i);
        let more = match &subtype {
            Some(text) => target_capabilities_for(targets.kind(i), Some(text.as_str())),
            None => target_capabilities_for(targets.kind(i), None),
        };
        merge_capabilities(&mut caps, &more);
        proof {
            assert(texts.take(i + 1).drop_last() =~= texts.take(i as int));
            assert(texts.take(i + 1).last() == target_text(targets@[i as int]));
        }
        i += 1;
    }
    assert(texts.take(n as int) =~= texts);
    caps
}

} // verus!
