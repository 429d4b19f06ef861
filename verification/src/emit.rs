//! Writing the project model as JSON.

use crate::json::{
    escaped, fields_text, is_document, is_plain, items_text, json_text, law_json_text_unambiguous,
    law_plain_is_unchanged, list_text, object_text, optional, push_field, push_item, quote_list,
    quote_opt, single_text, string_text, strings, views, Json,
};
use crate::model::{
    capabilities, decode_subtype, project_capabilities, project_capabilities_for, project_kind,
    project_kind_for, project_subtype, project_subtype_for, target_capabilities_for, target_texts,
    TargetText, KIND_SPM,
};
use crate::targets::{
    Targets, MAX_TARGETS, TARGET_KIND_BINARY, TARGET_KIND_EXTENSION, TARGET_KIND_FRAMEWORK,
    TARGET_KIND_LIBRARY, TARGET_KIND_PLUGIN, TARGET_KIND_PROC_MACRO, TARGET_KIND_TEST,
};
use crate::text::{
    is_id_char, law_sanitized_is_identifier, sanitize_id, sanitized, utf8_lossy,
};
use vstd::prelude::*;

verus! {

/// Where a project of the given kind is built.
pub open spec fn build_root(kind: u8) -> Seq<char> {
    if kind == KIND_SPM {
        ".build/"@
    } else {
        "DerivedData/"@
    }
}

/// The kind that is written of a target.
pub open spec fn target_kind(kind: u8) -> Seq<char> {
    if kind == TARGET_KIND_BINARY {
        "app"@
    } else if kind == TARGET_KIND_TEST {
        "test"@
    } else if kind == TARGET_KIND_FRAMEWORK {
        "framework"@
    } else if kind == TARGET_KIND_EXTENSION {
        "extension"@
    } else if kind == TARGET_KIND_LIBRARY || kind == TARGET_KIND_PROC_MACRO || kind
        == TARGET_KIND_PLUGIN {
        "library"@
    } else {
        "target"@
    }
}

/// What is written of a target in a project of kind `kind`.
pub open spec fn target_json(kind: u8, target: TargetText) -> Json {
    Json::Object(
        seq![
            ("id"@, Json::Text(sanitized(target.name))),
            ("name"@, Json::Text(target.name)),
            ("kind"@, Json::Text(target_kind(target.kind))),
            ("subtype"@, optional(target.subtype)),
            (
                "capabilities"@,
                Json::List(strings(capabilities(target.kind, target.subtype))),
            ),
            ("language"@, Json::Text("swift"@)),
            ("source_roots"@, Json::List(seq![Json::Text("Sources/"@)])),
            ("test_roots"@, Json::List(seq![Json::Text("Tests/"@)])),
            ("build_roots"@, Json::List(seq![Json::Text(build_root(kind))])),
        ],
    )
}

/// What is written of the targets of a project of kind `kind`.
pub open spec fn targets_json(kind: u8, targets: Seq<TargetText>) -> Seq<Json> {
    targets.map_values(|t: TargetText| target_json(kind, t))
}

/// What is written of a part of the tree that a project owns.
pub open spec fn owner_value(
    path: Seq<char>,
    match_kind: Seq<char>,
    label: Seq<char>,
    project_id: Seq<char>,
    kind: Seq<char>,
) -> Json {
    Json::Object(
        seq![
            ("path"@, Json::Text(path)),
            ("match_kind"@, Json::Text(match_kind)),
            ("label"@, Json::Text(label)),
            ("project_id"@, Json::Text(project_id)),
            ("target_id"@, Json::Text(project_id)),
            ("kind"@, Json::Text(kind)),
        ],
    )
}

/// What is written of all the parts of the tree that a project owns. The manifest of a
/// package is one of them.
pub open spec fn owners_json(kind: u8, display_name: Seq<char>) -> Seq<Json> {
    let id = sanitized(display_name);
    let sources = owner_value("Sources/"@, "prefix"@, display_name, id, "source"@);
    let tests = owner_value("Tests/"@, "prefix"@, display_name + " tests"@, id, "test"@);
    if kind == KIND_SPM {
        let manifest = owner_value("Package.swift"@, "exact"@, display_name, id, "manifest"@);
        seq![manifest, sources, tests]
    } else {
        seq![sources, tests]
    }
}

/// What is written of the one project of a model.
pub open spec fn project_json(
    kind: u8,
    display_name: Seq<char>,
    manifest_path: Seq<char>,
    targets: Seq<TargetText>,
) -> Json {
    Json::Object(
        seq![
            ("id"@, Json::Text(sanitized(display_name))),
            ("name"@, Json::Text(display_name)),
            ("kind"@, Json::Text(project_kind(kind, targets))),
            ("subtype"@, optional(project_subtype(kind))),
            ("capabilities"@, Json::List(strings(project_capabilities(targets)))),
            ("manifest_path"@, Json::Text(manifest_path)),
            ("source_roots"@, Json::List(seq![Json::Text("Sources/"@)])),
            ("test_roots"@, Json::List(seq![Json::Text("Tests/"@)])),
            ("build_roots"@, Json::List(seq![Json::Text(build_root(kind))])),
            ("targets"@, Json::List(targets_json(kind, targets))),
        ],
    )
}

/// The model of a project.
pub open spec fn model_json(
    kind: u8,
    root: Seq<char>,
    ecosystem: Json,
    display_name: Seq<char>,
    manifest_path: Seq<char>,
    targets: Seq<TargetText>,
) -> Json {
    Json::Object(
        seq![
            ("schema_version"@, Json::Number("1"@)),
            ("ecosystem"@, ecosystem),
            ("root"@, Json::Text(root)),
            ("display_name"@, Json::Text(display_name)),
            ("primary_manifest_path"@, Json::Text(manifest_path)),
            (
                "projects"@,
                Json::List(seq![project_json(kind, display_name, manifest_path, targets)]),
            ),
            ("owners"@, Json::List(owners_json(kind, display_name))),
        ],
    )
}

proof fn lemma_fields_text_congruent(a: Seq<(Seq<char>, Json)>, b: Seq<(Seq<char>, Json)>)
    requires
        a.len() == b.len(),
        forall|i: int|
            0 <= i < a.len() ==> (#[trigger] a[i]).0 == b[i].0 && json_text(a[i].1) == json_text(
                b[i].1,
            ),
    ensures
        fields_text(a) == fields_text(b),
    decreases a.len(),
{
    if a.len() == 1 {
        assert(a[0].0 == b[0].0);
    } else if a.len() > 1 {
        let last = a.len() - 1;
        assert(a[last].0 == b[last].0);
        assert forall|i: int| 0 <= i < a.drop_last().len() implies (#[trigger] a.drop_last()[i]).0
            == b.drop_last()[i].0 && json_text(a.drop_last()[i].1) == json_text(
            b.drop_last()[i].1,
        ) by {
            assert(a[i].0 == b[i].0);
        }
        lemma_fields_text_congruent(a.drop_last(), b.drop_last());
    }
}

/// A plain name of an ecosystem is written as any other string is.
pub proof fn law_plain_ecosystem(
    kind: u8,
    root: Seq<char>,
    ecosystem: Seq<char>,
    display_name: Seq<char>,
    manifest_path: Seq<char>,
    targets: Seq<TargetText>,
)
    requires
        is_plain(ecosystem),
    ensures
        json_text(
            model_json(
                kind,
                root,
                Json::Verbatim(ecosystem),
                display_name,
                manifest_path,
                targets,
            ),
        ) == json_text(
            model_json(kind, root, Json::Text(ecosystem), display_name, manifest_path, targets),
        ),
{
    law_plain_is_unchanged(ecosystem);
    let a = model_json(
        kind,
        root,
        Json::Verbatim(ecosystem),
        display_name,
        manifest_path,
        targets,
    )->Object_0;
    let b = model_json(
        kind,
        root,
        Json::Text(ecosystem),
        display_name,
        manifest_path,
        targets,
    )->Object_0;
    lemma_fields_text_congruent(a, b);
}

/// An identifier is written as it stands.
pub proof fn law_identifier_is_plain(text: Seq<char>)
    ensures
        escaped(sanitized(text)) == sanitized(text),
{
    law_sanitized_is_identifier(text);
    assert forall|i: int| 0 <= i < sanitized(text).len() implies '\u{20}' <= #[trigger] sanitized(
        text,
    )[i] && sanitized(text)[i] != '"' && sanitized(text)[i] != '\\' by {
        assert(is_id_char(sanitized(text)[i]));
    }
    law_plain_is_unchanged(sanitized(text));
}

proof fn lemma_strings_are_documents(texts: Seq<Seq<char>>)
    ensures
        is_document(Json::List(strings(texts))),
{
    reveal_with_fuel(is_document, 2);
}

proof fn lemma_optional_is_document(text: Option<Seq<char>>)
    ensures
        is_document(optional(text)),
{
}

proof fn lemma_single_is_document(text: Seq<char>)
    ensures
        is_document(Json::List(seq![Json::Text(text)])),
{
    reveal_with_fuel(is_document, 2);
}

proof fn lemma_target_is_document(kind: u8, target: TargetText)
    ensures
        is_document(target_json(kind, target)),
{
    reveal_with_fuel(is_document, 2);
    lemma_optional_is_document(target.subtype);
    lemma_strings_are_documents(capabilities(target.kind, target.subtype));
    lemma_single_is_document("Sources/"@);
    lemma_single_is_document("Tests/"@);
    lemma_single_is_document(build_root(kind));
}

proof fn lemma_project_is_document(
    kind: u8,
    display_name: Seq<char>,
    manifest_path: Seq<char>,
    targets: Seq<TargetText>,
)
    ensures
        is_document(project_json(kind, display_name, manifest_path, targets)),
{
    reveal_with_fuel(is_document, 2);
    lemma_optional_is_document(project_subtype(kind));
    lemma_strings_are_documents(project_capabilities(targets));
    lemma_single_is_document("Sources/"@);
    lemma_single_is_document("Tests/"@);
    lemma_single_is_document(build_root(kind));
    let items = targets_json(kind, targets);
    assert forall|i: int| 0 <= i < items.len() implies is_document(#[trigger] items[i]) by {
        lemma_target_is_document(kind, targets[i]);
    }
    assert(is_document(Json::List(items)));
}

proof fn lemma_owner_is_document(
    path: Seq<char>,
    match_kind: Seq<char>,
    label: Seq<char>,
    project_id: Seq<char>,
    kind: Seq<char>,
)
    ensures
        is_document(owner_value(path, match_kind, label, project_id, kind)),
{
    reveal_with_fuel(is_document, 2);
}

proof fn lemma_owners_are_documents(kind: u8, display_name: Seq<char>)
    ensures
        is_document(Json::List(owners_json(kind, display_name))),
{
    let id = sanitized(display_name);
    lemma_owner_is_document("Package.swift"@, "exact"@, display_name, id, "manifest"@);
    lemma_owner_is_document("Sources/"@, "prefix"@, display_name, id, "source"@);
    lemma_owner_is_document("Tests/"@, "prefix"@, display_name + " tests"@, id, "test"@);
}

/// Every model is a JSON document, whatever texts it holds.
pub proof fn law_model_is_document(
    kind: u8,
    root: Seq<char>,
    ecosystem: Seq<char>,
    display_name: Seq<char>,
    manifest_path: Seq<char>,
    targets: Seq<TargetText>,
)
    ensures
        is_document(
            model_json(kind, root, Json::Text(ecosystem), display_name, manifest_path, targets),
        ),
{
    let fields = model_json(
        kind,
        root,
        Json::Text(ecosystem),
        display_name,
        manifest_path,
        targets,
    )->Object_0;
    reveal_strlit("1");
    assert(is_document(Json::Number("1"@)));
    let project = project_json(kind, display_name, manifest_path, targets);
    lemma_project_is_document(kind, display_name, manifest_path, targets);
    assert(is_document(Json::List(seq![project])));
    lemma_owners_are_documents(kind, display_name);
    assert forall|i: int| 0 <= i < fields.len() implies is_document((#[trigger] fields[i]).1) by {
    }
}

/// Two models that are written alike have the same root, name, manifest, kind and subtype, and
/// targets with the same names, kinds as written, and subtypes in the same order.
pub proof fn law_model_tells_its_parts(
    kind_a: u8,
    root_a: Seq<char>,
    name_a: Seq<char>,
    manifest_a: Seq<char>,
    targets_a: Seq<TargetText>,
    kind_b: u8,
    root_b: Seq<char>,
    name_b: Seq<char>,
    manifest_b: Seq<char>,
    targets_b: Seq<TargetText>,
    ecosystem: Seq<char>,
)
    requires
        json_text(
            model_json(kind_a, root_a, Json::Text(ecosystem), name_a, manifest_a, targets_a),
        ) == json_text(
            model_json(kind_b, root_b, Json::Text(ecosystem), name_b, manifest_b, targets_b),
        ),
    ensures
        root_a == root_b,
        name_a == name_b,
        manifest_a == manifest_b,
        project_kind(kind_a, targets_a) == project_kind(kind_b, targets_b),
        project_subtype(kind_a) == project_subtype(kind_b),
        targets_a.len() == targets_b.len(),
        forall|i: int|
            0 <= i < targets_a.len() ==> {
                &&& (#[trigger] targets_a[i]).name == targets_b[i].name
                &&& target_kind(targets_a[i].kind) == target_kind(targets_b[i].kind)
                &&& targets_a[i].subtype == targets_b[i].subtype
            },
{
    let a = model_json(kind_a, root_a, Json::Text(ecosystem), name_a, manifest_a, targets_a);
    let b = model_json(kind_b, root_b, Json::Text(ecosystem), name_b, manifest_b, targets_b);
    law_model_is_document(kind_a, root_a, ecosystem, name_a, manifest_a, targets_a);
    law_model_is_document(kind_b, root_b, ecosystem, name_b, manifest_b, targets_b);
    let nothing = Seq::<char>::empty();
    law_json_text_unambiguous(a, b, nothing, nothing);
    let fa = a->Object_0;
    let fb = b->Object_0;
    assert(fa[2] == fb[2]);
    assert(fa[3] == fb[3]);
    assert(fa[4] == fb[4]);
    assert(fa[5] == fb[5]);
    let pa = project_json(kind_a, name_a, manifest_a, targets_a);
    let pb = project_json(kind_b, name_b, manifest_b, targets_b);
    assert(fa[5].1->List_0[0] == pa);
    assert(fb[5].1->List_0[0] == pb);
    assert(pa->Object_0[2] == pb->Object_0[2]);
    assert(pa->Object_0[3] == pb->Object_0[3]);
    assert(pa->Object_0[9] == pb->Object_0[9]);
    let ta = targets_json(kind_a, targets_a);
    let tb = targets_json(kind_b, targets_b);
    assert(ta == tb);
    assert(ta.len() == targets_a.len());
    assert(tb.len() == targets_b.len());
    assert forall|i: int| 0 <= i < targets_a.len() implies {
        &&& (#[trigger] targets_a[i]).name == targets_b[i].name
        &&& target_kind(targets_a[i].kind) == target_kind(targets_b[i].kind)
        &&& targets_a[i].subtype == targets_b[i].subtype
    } by {
        assert(ta[i] == target_json(kind_a, targets_a[i]));
        assert(tb[i] == target_json(kind_b, targets_b[i]));
        let ga = target_json(kind_a, targets_a[i])->Object_0;
        let gb = target_json(kind_b, targets_b[i])->Object_0;
        assert(ga[1] == gb[1]);
        assert(ga[2] == gb[2]);
        assert(ga[3] == gb[3]);
    }
}

/// A package is built in its own directory, and anything else in that of Xcode.
pub proof fn law_build_roots(kind: u8)
    ensures
        kind == 0 ==> build_root(kind) == ".build/"@,
        kind != 0 ==> build_root(kind) == "DerivedData/"@,
{
}

/// The names that are written for the kinds of targets.
pub proof fn law_target_kind_names(kind: u8)
    ensures
        kind == 2 ==> target_kind(kind) == "app"@,
        kind == 3 ==> target_kind(kind) == "test"@,
        kind == 8 ==> target_kind(kind) == "framework"@,
        kind == 9 ==> target_kind(kind) == "extension"@,
        kind == 1 || kind == 6 || kind == 7 ==> target_kind(kind) == "library"@,
        kind == 0 || kind == 4 || kind == 5 || kind > 9 ==> target_kind(kind) == "target"@,
{
}

/// The fields that are written of every target, in their order.
pub proof fn law_target_fields(kind: u8, target: TargetText)
    ensures
        target_json(kind, target) is Object,
        ({
            let fields = target_json(kind, target)->Object_0;
            &&& fields.len() == 9
            &&& fields[0] == ("id"@, Json::Text(sanitized(target.name)))
            &&& fields[1] == ("name"@, Json::Text(target.name))
            &&& fields[2] == ("kind"@, Json::Text(target_kind(target.kind)))
            &&& fields[3].0 == "subtype"@
            &&& target.subtype is None ==> fields[3].1 == Json::Null
            &&& target.subtype is Some ==> fields[3].1 == Json::Text(target.subtype->0)
            &&& fields[4] == (
                "capabilities"@,
                Json::List(strings(capabilities(target.kind, target.subtype))),
            )
            &&& fields[5] == ("language"@, Json::Text("swift"@))
            &&& fields[6] == ("source_roots"@, Json::List(seq![Json::Text("Sources/"@)]))
            &&& fields[7] == ("test_roots"@, Json::List(seq![Json::Text("Tests/"@)]))
            &&& fields[8] == ("build_roots"@, Json::List(seq![Json::Text(build_root(kind))]))
        }),
{
}

/// The fields that are written of every owned part of the tree, in their order.
pub proof fn law_owner_fields(
    path: Seq<char>,
    match_kind: Seq<char>,
    label: Seq<char>,
    project_id: Seq<char>,
    kind: Seq<char>,
)
    ensures
        owner_value(path, match_kind, label, project_id, kind) is Object,
        ({
            let fields = owner_value(path, match_kind, label, project_id, kind)->Object_0;
            &&& fields.len() == 6
            &&& fields[0] == ("path"@, Json::Text(path))
            &&& fields[1] == ("match_kind"@, Json::Text(match_kind))
            &&& fields[2] == ("label"@, Json::Text(label))
            &&& fields[3] == ("project_id"@, Json::Text(project_id))
            &&& fields[4] == ("target_id"@, Json::Text(project_id))
            &&& fields[5] == ("kind"@, Json::Text(kind))
        }),
{
}

/// Every project owns its sources and its tests, and a package its manifest before them.
pub proof fn law_owned_parts(kind: u8, name: Seq<char>)
    ensures
        ({
            let owners = owners_json(kind, name);
            let n = owners.len() as int;
            &&& kind == 0 ==> n == 3 && owners[0] == owner_value(
                "Package.swift"@,
                "exact"@,
                name,
                sanitized(name),
                "manifest"@,
            )
            &&& kind != 0 ==> n == 2
            &&& owners[n - 2] == owner_value(
                "Sources/"@,
                "prefix"@,
                name,
                sanitized(name),
                "source"@,
            )
            &&& owners[n - 1] == owner_value(
                "Tests/"@,
                "prefix"@,
                name + " tests"@,
                sanitized(name),
                "test"@,
            )
        }),
{
}

/// The fields that are written of every project, in their order, and one target after the
/// other in the last of them.
pub proof fn law_project_fields(
    kind: u8,
    name: Seq<char>,
    manifest_path: Seq<char>,
    targets: Seq<TargetText>,
)
    ensures
        project_json(kind, name, manifest_path, targets) is Object,
        ({
            let fields = project_json(kind, name, manifest_path, targets)->Object_0;
            &&& fields.len() == 10
            &&& fields[0] == ("id"@, Json::Text(sanitized(name)))
            &&& fields[1] == ("name"@, Json::Text(name))
            &&& fields[2] == ("kind"@, Json::Text(project_kind(kind, targets)))
            &&& fields[3].0 == "subtype"@
            &&& project_subtype(kind) is None ==> fields[3].1 == Json::Null
            &&& project_subtype(kind) is Some ==> fields[3].1 == Json::Text(project_subtype(kind)->0)
            &&& fields[4] == ("capabilities"@, Json::List(strings(project_capabilities(targets))))
            &&& fields[5] == ("manifest_path"@, Json::Text(manifest_path))
            &&& fields[6] == ("source_roots"@, Json::List(seq![Json::Text("Sources/"@)]))
            &&& fields[7] == ("test_roots"@, Json::List(seq![Json::Text("Tests/"@)]))
            &&& fields[8] == ("build_roots"@, Json::List(seq![Json::Text(build_root(kind))]))
            &&& fields[9].0 == "targets"@
            &&& fields[9].1 is List
            &&& fields[9].1->List_0.len() == targets.len()
            &&& forall|i: int|
                0 <= i < targets.len() ==> #[trigger] fields[9].1->List_0[i] == target_json(
                    kind,
                    targets[i],
                )
        }),
{
}

/// The fields that are written of every model, in their order: it holds one project.
pub proof fn law_model_fields(
    kind: u8,
    root: Seq<char>,
    ecosystem: Json,
    name: Seq<char>,
    manifest_path: Seq<char>,
    targets: Seq<TargetText>,
)
    ensures
        model_json(kind, root, ecosystem, name, manifest_path, targets) is Object,
        ({
            let fields = model_json(
                kind,
                root,
                ecosystem,
                name,
                manifest_path,
                targets,
            )->Object_0;
            &&& fields.len() == 7
            &&& fields[0] == ("schema_version"@, Json::Number(seq!['1']))
            &&& fields[1] == ("ecosystem"@, ecosystem)
            &&& fields[2] == ("root"@, Json::Text(root))
            &&& fields[3] == ("display_name"@, Json::Text(name))
            &&& fields[4] == ("primary_manifest_path"@, Json::Text(manifest_path))
            &&& fields[5] == (
                "projects"@,
                Json::List(seq![project_json(kind, name, manifest_path, targets)]),
            )
            &&& fields[6] == ("owners"@, Json::List(owners_json(kind, name)))
        }),
{
    reveal_strlit("1");
    assert("1"@ =~= seq!['1']);
}

/// The kind that is written of a target.
fn target_kind_name(kind: u8) -> (name: &'static str)
    ensures
        name@ == target_kind(kind),
{
    if kind == TARGET_KIND_BINARY {
        "app"
    } else if kind == TARGET_KIND_TEST {
        "test"
    } else if kind == TARGET_KIND_FRAMEWORK {
        "framework"
    } else if kind == TARGET_KIND_EXTENSION {
        "extension"
    } else if kind == TARGET_KIND_LIBRARY || kind == TARGET_KIND_PROC_MACRO || kind
        == TARGET_KIND_PLUGIN {
        "library"
    } else {
        "target"
    }
}

/// Where a project of the given kind is built.
fn build_root_for(kind: u8) -> (path: &'static str)
    ensures
        path@ == build_root(kind),
{
    if kind == KIND_SPM {
        ".build/"
    } else {
        "DerivedData/"
    }
}

/// Writes a target of a project of kind `kind`.
pub fn emit_target(kind: u8, name: &str, target_kind: u8, subtype: Option<&str>) -> (out: String)
    ensures
        out@ == json_text(
            target_json(
                kind,
                (TargetText {
                    name: name@,
                    kind: target_kind,
                    subtype: match subtype {
                        Some(text) => Some(text@),
                        None => None,
                    },
                }),
            ),
        ),
{
    let ghost subtype_view = match subtype {
        Some(text) => Some(text@),
        None => None,
    };
    let ghost target = TargetText { name: name@, kind: target_kind, subtype: subtype_view };
    let caps = target_capabilities_for(target_kind, subtype);
    let ghost caps_json = strings(views(caps@));
    let ghost sources = seq![Json::Text("Sources/"@)];
    let ghost tests = seq![Json::Text("Tests/"@)];
    let ghost build = seq![Json::Text(build_root(kind))];
    let mut out = String::new();
    let fields: Ghost<Seq<(Seq<char>, Json)>> = Ghost(Seq::empty());
    let fields = push_field(
        &mut out,
        "id",
        string_text(sanitize_id(name).as_str()).as_str(),
        fields,
        Ghost(Json::Text(sanitized(name@))),
    );
    let fields = push_field(
        &mut out,
        "name",
        string_text(name).as_str(),
        fields,
        Ghost(Json::Text(name@)),
    );
    let fields = push_field(
        &mut out,
        "kind",
        string_text(target_kind_name(target_kind)).as_str(),
        fields,
        Ghost(Json::Text(crate::emit::target_kind(target_kind))),
    );
    let fields = push_field(
        &mut out,
        "subtype",
        quote_opt(subtype).as_str(),
        fields,
        Ghost(optional(subtype_view)),
    );
    let fields = push_field(
        &mut out,
        "capabilities",
        list_text(quote_list(caps.as_slice()).as_str(), Ghost(caps_json)).as_str(),
        fields,
        Ghost(Json::List(caps_json)),
    );
    let fields = push_field(
        &mut out,
        "language",
        string_text("swift").as_str(),
        fields,
        Ghost(Json::Text("swift"@)),
    );
    let fields = push_field(
        &mut out,
        "source_roots",
        single_text("Sources/").as_str(),
        fields,
        Ghost(Json::List(sources)),
    );
    let fields = push_field(
        &mut out,
        "test_roots",
        single_text("Tests/").as_str(),
        fields,
        Ghost(Json::List(tests)),
    );
    let fields = push_field(
        &mut out,
        "build_roots",
        single_text(build_root_for(kind)).as_str(),
        fields,
        Ghost(Json::List(build)),
    );
    assert(fields@ =~= target_json(kind, target)->Object_0);
    object_text(out.as_str(), fields)
}

/// Writes a part of the tree that a project owns.
pub fn owner_json(
    path: &str,
    match_kind: &str,
    label: &str,
    project_id: &str,
    kind: &str,
) -> (out: String)
    ensures
        out@ == json_text(owner_value(path@, match_kind@, label@, project_id@, kind@)),
{
    let mut out = String::new();
    let fields: Ghost<Seq<(Seq<char>, Json)>> = Ghost(Seq::empty());
    let fields = push_field(
        &mut out,
        "path",
        string_text(path).as_str(),
        fields,
        Ghost(Json::Text(path@)),
    );
    let fields = push_field(
        &mut out,
        "match_kind",
        string_text(match_kind).as_str(),
        fields,
        Ghost(Json::Text(match_kind@)),
    );
    let fields = push_field(
        &mut out,
        "label",
        string_text(label).as_str(),
        fields,
        Ghost(Json::Text(label@)),
    );
    let fields = push_field(
        &mut out,
        "project_id",
        string_text(project_id).as_str(),
        fields,
        Ghost(Json::Text(project_id@)),
    );
    let fields = push_field(
        &mut out,
        "target_id",
        string_text(project_id).as_str(),
        fields,
        Ghost(Json::Text(project_id@)),
    );
    let fields = push_field(
        &mut out,
        "kind",
        string_text(kind).as_str(),
        fields,
        Ghost(Json::Text(kind@)),
    );
    assert(fields@ =~= owner_value(path@, match_kind@, label@, project_id@, kind@)->Object_0);
    object_text(out.as_str(), fields)
}

/// Writes the parts of the tree that a project owns, with commas between them.
fn emit_owners(kind: u8, display_name: &str) -> (out: String)
    ensures
        out@ == items_text(owners_json(kind, display_name@)),
{
    let id = sanitize_id(display_name);
    let mut tests_label = display_name.to_string();
    tests_label.append(" tests");
    let mut out = String::new();
    let mut owners: Ghost<Seq<Json>> = Ghost(Seq::empty());
    if kind == KIND_SPM {
        owners =
        push_item(
            &mut out,
            owner_json("Package.swift", "exact", display_name, id.as_str(), "manifest").as_str(),
            true,
            owners,
            Ghost(
                owner_value("Package.swift"@, "exact"@, display_name@, id@, "manifest"@),
            ),
        );
    }
    owners =
    push_item(
        &mut out,
        owner_json("Sources/", "prefix", display_name, id.as_str(), "source").as_str(),
        kind != KIND_SPM,
        owners,
        Ghost(owner_value("Sources/"@, "prefix"@, display_name@, id@, "source"@)),
    );
    owners =
    push_item(
        &mut out,
        owner_json("Tests/", "prefix", tests_label.as_str(), id.as_str(), "test").as_str(),
        false,
        owners,
        Ghost(owner_value("Tests/"@, "prefix"@, tests_label@, id@, "test"@)),
    );
    assert(owners@ =~= owners_json(kind, display_name@));
    out
}

/// Writes the targets of a project of kind `kind`, with commas between them.
fn emit_targets(kind: u8, targets: &Targets) -> (out: String)
    ensures
        out@ == items_text(targets_json(kind, target_texts(targets@))),
{
    let n: usize = targets.count();
    let ghost all = targets_json(kind, target_texts(targets@));
    let mut out = String::new();
    let mut written: Ghost<Seq<Json>> = Ghost(Seq::empty());
    let mut i: usize = 0;
    assert(written@ =~= all.take(0));
    while i < n
        invariant
            i <= n == targets@.len(),
            n <= MAX_TARGETS,
            all == targets_json(kind, target_texts(targets@)),
            written@ == all.take(i as int),
            out@ == items_text(written@),
        decreases n - i,
    {
        let name = utf8_lossy(targets.name(i));
        let subtype = decode_subtype(targets, i);
        let text = match &subtype {
            Some(subtype) => emit_target(
                kind,
                name.as_str(),
                targets.kind(i),
                Some(subtype.as_str()),
            ),
            None => emit_target(kind, name.as_str(), targets.kind(i), None),
        };
        assert(text@ == json_text(all[i as int]));
        written = push_item(&mut out, text.as_str(), i == 0, written, Ghost(all[i as int]));
        assert(written@ =~= all.take(i + 1));
        i += 1;
    }
    assert(all.take(n as int) =~= all);
    out
}

/// Writes the one project of a model.
fn emit_project(
    kind: u8,
    display_name: &str,
    manifest_path: &str,
    targets: &Targets,
) -> (out: String)
    ensures
        out@ == json_text(
            project_json(kind, display_name@, manifest_path@, target_texts(targets@)),
        ),
{
    let ghost texts = target_texts(targets@);
    let caps = project_capabilities_for(targets);
    let subtype = project_subtype_for(kind);
    let ghost caps_json = strings(views(caps@));
    let ghost sources = seq![Json::Text("Sources/"@)];
    let ghost tests = seq![Json::Text("Tests/"@)];
    let ghost build = seq![Json::Text(build_root(kind))];
    let mut out = String::new();
    let fields: Ghost<Seq<(Seq<char>, Json)>> = Ghost(Seq::empty());
    let fields = push_field(
        &mut out,
        "id",
        string_text(sanitize_id(display_name).as_str()).as_str(),
        fields,
        Ghost(Json::Text(sanitized(display_name@))),
    );
    let fields = push_field(
        &mut out,
        "name",
        string_text(display_name).as_str(),
        fields,
        Ghost(Json::Text(display_name@)),
    );
    let fields = push_field(
        &mut out,
        "kind",
        string_text(project_kind_for(kind, targets)).as_str(),
        fields,
        Ghost(Json::Text(project_kind(kind, texts))),
    );
    let fields = push_field(
        &mut out,
        "subtype",
        quote_opt(subtype).as_str(),
        fields,
        Ghost(optional(project_subtype(kind))),
    );
    let fields = push_field(
        &mut out,
        "capabilities",
        list_text(quote_list(caps.as_slice()).as_str(), Ghost(caps_json)).as_str(),
        fields,
        Ghost(Json::List(caps_json)),
    );
    let fields = push_field(
        &mut out,
        "manifest_path",
        string_text(manifest_path).as_str(),
        fields,
        Ghost(Json::Text(manifest_path@)),
    );
    let fields = push_field(
        &mut out,
        "source_roots",
        single_text("Sources/").as_str(),
        fields,
        Ghost(Json::List(sources)),
    );
    let fields = push_field(
        &mut out,
        "test_roots",
        single_text("Tests/").as_str(),
        fields,
        Ghost(Json::List(tests)),
    );
    let fields = push_field(
        &mut out,
        "build_roots",
        single_text(build_root_for(kind)).as_str(),
        fields,
        Ghost(Json::List(build)),
    );
    let fields = push_field(
        &mut out,
        "targets",
        list_text(emit_targets(kind, targets).as_str(), Ghost(targets_json(kind, texts))).as_str(),
        fields,
        Ghost(Json::List(targets_json(kind, texts))),
    );
    assert(fields@ =~= project_json(kind, display_name@, manifest_path@, texts)->Object_0);
    object_text(out.as_str(), fields)
}

/// Writes a string with the given text between its quotation marks, as it stands.
fn verbatim_text(text: &str) -> (out: String)
    ensures
        out@ == json_text(Json::Verbatim(text@)),
{
    let mut out = String::new();
    out.push('"');
    out.append(text);
    out.push('"');
    assert(out@ =~= json_text(Json::Verbatim(text@)));
    out
}

/// Writes the model of a project. The name of the ecosystem is written as it stands.
pub fn emit_model(
    kind: u8,
    root: &str,
    ecosystem: &str,
    display_name: &str,
    manifest_path: &str,
    targets: &Targets,
) -> (out: String)
    ensures
        out@ == json_text(
            model_json(
                kind,
                root@,
                Json::Verbatim(ecosystem@),
                display_name@,
                manifest_path@,
                target_texts(targets@),
            ),
        ),
{
    let ghost texts = target_texts(targets@);
    let ghost projects = seq![project_json(kind, display_name@, manifest_path@, texts)];
    let ghost owners = owners_json(kind, display_name@);
    let mut out = String::new();
    let fields: Ghost<Seq<(Seq<char>, Json)>> = Ghost(Seq::empty());
    let fields = push_field(&mut out, "schema_version", "1", fields, Ghost(Json::Number("1"@)));
    let fields = push_field(
        &mut out,
        "ecosystem",
        verbatim_text(ecosystem).as_str(),
        fields,
        Ghost(Json::Verbatim(ecosystem@)),
    );
    let fields = push_field(
        &mut out,
        "root",
        string_text(root).as_str(),
        fields,
        Ghost(Json::Text(root@)),
    );
    let fields = push_field(
        &mut out,
        "display_name",
        string_text(display_name).as_str(),
        fields,
        Ghost(Json::Text(display_name@)),
    );
    let fields = push_field(
        &mut out,
        "primary_manifest_path",
        string_text(manifest_path).as_str(),
        fields,
        Ghost(Json::Text(manifest_path@)),
    );
    let fields = push_field(
        &mut out,
        "projects",
        list_text(
            emit_project(kind, display_name, manifest_path, targets).as_str(),
            Ghost(projects),
        ).as_str(),
        fields,
        Ghost(Json::List(projects)),
    );
    let fields = push_field(
        &mut out,
        "owners",
        list_text(emit_owners(kind, display_name).as_str(), Ghost(owners)).as_str(),
        fields,
        Ghost(Json::List(owners)),
    );
    assert(fields@ =~= model_json(
        kind,
        root@,
        Json::Verbatim(ecosystem@),
        display_name@,
        manifest_path@,
        texts,
    )->Object_0);
    object_text(out.as_str(), fields)
}

} // verus!
