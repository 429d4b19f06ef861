//! Finding the manifest of a project: which files are tried, in which order, and what is
//! made of the first one that can be read.
//!
//! The files themselves are read elsewhere. A search starts with `first_probe`. For each
//! probe the file at `probe_path` is read, and `next_step` is told what it holds.

use crate::emit::{emit_model, law_model_is_document, law_plain_ecosystem, model_json};
use crate::json::{is_document, is_plain, json_text, Json};
use crate::model::{target_texts, KIND_SPM, KIND_XCODEPROJ, KIND_XCWORKSPACE};
use crate::package::{declared_from, package_name_from, parse_package_name, parse_package_swift};
use crate::scan::{lemma_lit_ascii, lit};
use crate::targets::{kept, TargetModel, Targets};
use crate::text::{
    decoded, ends_with, file_name, has_suffix, law_suffix_is_behind, lemma_encode_concat, parent,
    path_file_name, path_parent, trim_end_matches, utf8_lossy, without_suffix,
};
use crate::xcode::{native_targets, parse_pbxproj};
use vstd::prelude::*;
use vstd::slice::slice_to_vec;
use vstd::utf8::{encode_utf8, encode_utf8_decode_utf8, encode_utf8_valid_utf8};

verus! {

/// The length from which on a path is not tried, in bytes.
pub const PATH_LIMIT: usize = 2048;

/// The longest name of a directory, in bytes, in which an Xcode project of that name is
/// looked for.
pub const PROJECT_NAME_LIMIT: usize = 230;

/// The longest name of a directory, in bytes, in which an Xcode workspace of that name is
/// looked for.
pub const WORKSPACE_NAME_LIMIT: usize = 210;

/// A place where a manifest may stand.
#[derive(Clone, Copy, Debug, PartialEq, Eq)]
pub enum Probe {
    /// The root is itself an Xcode project.
    ProjectRoot,
    /// The root is itself an Xcode workspace.
    WorkspaceRoot,
    /// The root holds a Swift package.
    Package,
    /// The root holds an Xcode project of its own name.
    NestedProject,
    /// The root holds an Xcode workspace of its own name.
    NestedWorkspace,
}

/// What comes after a probe.
#[derive(Debug, PartialEq, Eq)]
pub enum Step {
    /// The search is over: this is the model, as JSON.
    Emit(Vec<u8>),
    /// The search goes on with another probe.
    Try(Probe),
    /// The search is over: there is no manifest.
    NotFound,
}

/// A path made of a directory and a name in it; empty where it would be too long.
pub open spec fn joined_path(root: Seq<u8>, suffix: Seq<u8>) -> Seq<u8> {
    if root.len() + 1 + suffix.len() >= PATH_LIMIT {
        Seq::empty()
    } else {
        root + lit("/") + suffix
    }
}

/// Where a probe looks, below the root.
pub open spec fn probe_suffix(root: Seq<char>, probe: Probe) -> Seq<char> {
    match probe {
        Probe::ProjectRoot => "project.pbxproj"@,
        Probe::WorkspaceRoot => "contents.xcworkspacedata"@,
        Probe::Package => "Package.swift"@,
        Probe::NestedProject => file_name(root) + ".xcodeproj/project.pbxproj"@,
        Probe::NestedWorkspace => file_name(root) + ".xcworkspace/contents.xcworkspacedata"@,
    }
}

/// The file that a probe reads; empty where its path would be too long.
pub open spec fn path_of(root: Seq<char>, probe: Probe) -> Seq<u8> {
    joined_path(encode_utf8(root), encode_utf8(probe_suffix(root, probe)))
}

/// Whether the name of the root is short enough for a probe.
pub open spec fn fits(root: Seq<char>, probe: Probe) -> bool {
    match probe {
        Probe::NestedProject => encode_utf8(file_name(root)).len() <= PROJECT_NAME_LIMIT,
        Probe::NestedWorkspace => encode_utf8(file_name(root)).len() <= WORKSPACE_NAME_LIMIT,
        _ => true,
    }
}

/// The probes for a root, in the order in which they are tried.
pub open spec fn probes(root: Seq<char>) -> Seq<Probe> {
    if has_suffix(root, ".xcodeproj"@) {
        seq![Probe::ProjectRoot, Probe::Package, Probe::NestedProject, Probe::NestedWorkspace]
    } else if has_suffix(root, ".xcworkspace"@) {
        seq![Probe::WorkspaceRoot, Probe::Package, Probe::NestedProject, Probe::NestedWorkspace]
    } else {
        seq![Probe::Package, Probe::NestedProject, Probe::NestedWorkspace]
    }
}

/// The probe that follows another.
pub open spec fn following(probe: Probe) -> Option<Probe> {
    match probe {
        Probe::ProjectRoot => Some(Probe::Package),
        Probe::WorkspaceRoot => Some(Probe::Package),
        Probe::Package => Some(Probe::NestedProject),
        Probe::NestedProject => Some(Probe::NestedWorkspace),
        Probe::NestedWorkspace => None,
    }
}

/// The kind of project that a probe finds.
pub open spec fn kind_of(probe: Probe) -> u8 {
    match probe {
        Probe::ProjectRoot => KIND_XCODEPROJ,
        Probe::WorkspaceRoot => KIND_XCWORKSPACE,
        Probe::Package => KIND_SPM,
        Probe::NestedProject => KIND_XCODEPROJ,
        Probe::NestedWorkspace => KIND_XCWORKSPACE,
    }
}

/// The root of the project that a probe finds: where the root is itself an Xcode project or
/// workspace, the directory that holds it.
pub open spec fn project_root(root: Seq<char>, probe: Probe) -> Seq<char> {
    match probe {
        Probe::ProjectRoot => parent(root),
        Probe::WorkspaceRoot => parent(root),
        _ => root,
    }
}

/// The name of the project that a probe finds in a manifest that holds `data`.
pub open spec fn display_name(root: Seq<char>, probe: Probe, data: Seq<u8>) -> Seq<char> {
    match probe {
        Probe::ProjectRoot => without_suffix(file_name(root), ".xcodeproj"@),
        Probe::WorkspaceRoot => without_suffix(file_name(root), ".xcworkspace"@),
        Probe::Package => match package_name_from(data, 0) {
            Some(name) => decoded(name),
            None => file_name(root),
        },
        _ => file_name(root),
    }
}

/// The targets of the project that a probe finds in a manifest that holds `data`.
pub open spec fn found_targets(probe: Probe, data: Seq<u8>) -> Seq<TargetModel> {
    match probe {
        Probe::ProjectRoot => kept(native_targets(data)),
        Probe::NestedProject => kept(native_targets(data)),
        Probe::Package => kept(declared_from(data, 0)),
        _ => Seq::empty(),
    }
}

/// The model of the project that a probe finds in a manifest that holds `data`.
pub open spec fn found_model(root: Seq<char>, probe: Probe, data: Seq<u8>) -> Json {
    model_json(
        kind_of(probe),
        project_root(root, probe),
        Json::Text("swift"@),
        display_name(root, probe, data),
        root + "/"@ + probe_suffix(root, probe),
        target_texts(found_targets(probe, data)),
    )
}

/// A probe finds something where its path is not too long and its file is not empty. A file
/// that cannot be read counts as empty.
pub open spec fn finds(root: Seq<char>, probe: Probe, data: Seq<u8>) -> bool {
    path_of(root, probe).len() > 0 && data.len() > 0
}

/// What a search gives that goes on with `probe`, where `files` says what each file holds.
pub open spec fn search(
    root: Seq<char>,
    probe: Probe,
    files: spec_fn(Seq<u8>) -> Seq<u8>,
) -> Seq<u8>
    decreases
            (match probe {
                Probe::ProjectRoot => 3int,
                Probe::WorkspaceRoot => 3int,
                Probe::Package => 2int,
                Probe::NestedProject => 1int,
                Probe::NestedWorkspace => 0int,
            }),
{
    let data = files(path_of(root, probe));
    if finds(root, probe, data) {
        encode_utf8(json_text(found_model(root, probe, data)))
    } else {
        match following(probe) {
            Some(next) => search(root, next, files),
            None => Seq::empty(),
        }
    }
}

/// No root is both an Xcode project and an Xcode workspace.
pub proof fn law_root_is_one_kind(root: Seq<char>)
    ensures
        !(has_suffix(root, ".xcodeproj"@) && has_suffix(root, ".xcworkspace"@)),
{
    reveal_strlit(".xcodeproj");
    reveal_strlit(".xcworkspace");
    if has_suffix(root, ".xcodeproj"@) && has_suffix(root, ".xcworkspace"@) {
        assert(root.skip(root.len() - 10)[9] == root[root.len() - 1]);
        assert(root.skip(root.len() - 12)[11] == root[root.len() - 1]);
    }
}

/// Every probe but the last is followed by the next one in order.
pub proof fn law_probe_order(root: Seq<char>, i: int)
    requires
        0 <= i < probes(root).len(),
    ensures
        following(probes(root)[i]) == if i + 1 < probes(root).len() {
            Some(probes(root)[i + 1])
        } else {
            None
        },
{
}

proof fn lemma_search_from(
    root: Seq<char>,
    files: spec_fn(Seq<u8>) -> Seq<u8>,
    from: int,
    found: int,
)
    requires
        0 <= from <= found <= probes(root).len(),
        forall|i: int|
            from <= i < found ==> !finds(
                root,
                #[trigger] probes(root)[i],
                files(path_of(root, probes(root)[i])),
            ),
        from < probes(root).len(),
    ensures
        search(root, probes(root)[from], files) == if found < probes(root).len() {
            search(root, probes(root)[found], files)
        } else {
            Seq::empty()
        },
    decreases found - from,
{
    if from < found {
        assert(!finds(root, probes(root)[from], files(path_of(root, probes(root)[from]))));
        law_probe_order(root, from);
        if from + 1 < probes(root).len() {
            lemma_search_from(root, files, from + 1, found);
        }
    }
}

/// A search gives the model of the first probe that finds something.
pub proof fn law_first_find_wins(
    root: Seq<char>,
    files: spec_fn(Seq<u8>) -> Seq<u8>,
    found: int,
)
    requires
        0 <= found < probes(root).len(),
        finds(root, probes(root)[found], files(path_of(root, probes(root)[found]))),
        forall|i: int|
            0 <= i < found ==> !finds(
                root,
                #[trigger] probes(root)[i],
                files(path_of(root, probes(root)[i])),
            ),
    ensures
        search(root, probes(root)[0], files) == encode_utf8(
            json_text(
                found_model(
                    root,
                    probes(root)[found],
                    files(path_of(root, probes(root)[found])),
                ),
            ),
        ),
{
    lemma_search_from(root, files, 0, found);
}

/// A search gives nothing where no probe finds anything.
pub proof fn law_nothing_found(root: Seq<char>, files: spec_fn(Seq<u8>) -> Seq<u8>)
    requires
        forall|i: int|
            0 <= i < probes(root).len() ==> !finds(
                root,
                #[trigger] probes(root)[i],
                files(path_of(root, probes(root)[i])),
            ),
    ensures
        search(root, probes(root)[0], files) == Seq::<u8>::empty(),
{
    lemma_search_from(root, files, 0, probes(root).len() as int);
}

/// What a probe finds is a JSON document.
pub proof fn law_found_model_is_document(root: Seq<char>, probe: Probe, data: Seq<u8>)
    ensures
        is_document(found_model(root, probe, data)),
{
    law_model_is_document(
        kind_of(probe),
        project_root(root, probe),
        "swift"@,
        display_name(root, probe, data),
        root + "/"@ + probe_suffix(root, probe),
        target_texts(found_targets(probe, data)),
    );
}

/// A path that is not too long is the root, a slash and the probe's own part.
pub proof fn law_path_text(root: Seq<char>, probe: Probe)
    requires
        path_of(root, probe).len() > 0,
    ensures
        path_of(root, probe) == encode_utf8(root + "/"@ + probe_suffix(root, probe)),
{
    lemma_encode_concat(root, "/"@);
    lemma_encode_concat(root + "/"@, probe_suffix(root, probe));
}

/// A path is the directory, a slash and the name, where that makes fewer than 2048 bytes, and
/// else empty.
pub proof fn law_path_limit(root: Seq<u8>, suffix: Seq<u8>)
    ensures
        root.len() + 1 + suffix.len() < 2048 ==> joined_path(root, suffix) == root + seq![0x2fu8]
            + suffix,
        root.len() + 1 + suffix.len() >= 2048 ==> joined_path(root, suffix).len() == 0,
{
    reveal_strlit("/");
    lemma_lit_ascii("/");
    assert(lit("/") =~= seq![0x2fu8]);
}

/// Where the probes look below a root.
pub proof fn law_probe_places(root: Seq<char>)
    ensures
        probe_suffix(root, Probe::ProjectRoot) == "project.pbxproj"@,
        probe_suffix(root, Probe::WorkspaceRoot) == "contents.xcworkspacedata"@,
        probe_suffix(root, Probe::Package) == "Package.swift"@,
        probe_suffix(root, Probe::NestedProject) == file_name(root)
            + ".xcodeproj/project.pbxproj"@,
        probe_suffix(root, Probe::NestedWorkspace) == file_name(root)
            + ".xcworkspace/contents.xcworkspacedata"@,
{
}

/// Whether a probe finds something depends on the length of its path and on its file not
/// being empty, never on what the file holds.
pub proof fn law_find_depends_on_lengths(root: Seq<char>, probe: Probe, data: Seq<u8>)
    ensures
        finds(root, probe, data) <==> encode_utf8(root).len() + 1 + encode_utf8(
            probe_suffix(root, probe),
        ).len() < 2048 && data.len() > 0,
{
    law_path_limit(encode_utf8(root), encode_utf8(probe_suffix(root, probe)));
}

/// Any two files that are not empty are found or passed over alike.
pub proof fn law_content_plays_no_part(root: Seq<char>, probe: Probe, a: Seq<u8>, b: Seq<u8>)
    requires
        a.len() > 0,
        b.len() > 0,
    ensures
        finds(root, probe, a) == finds(root, probe, b),
{
}

/// The names for which there is room: 230 bytes for a nested project, 210 for a nested
/// workspace, and any for the others.
pub proof fn law_room_for_names(root: Seq<char>)
    ensures
        fits(root, Probe::NestedProject) <==> encode_utf8(file_name(root)).len() <= 230,
        fits(root, Probe::NestedWorkspace) <==> encode_utf8(file_name(root)).len() <= 210,
        fits(root, Probe::ProjectRoot),
        fits(root, Probe::WorkspaceRoot),
        fits(root, Probe::Package),
{
}

/// Every search tries a package, a nested project and a nested workspace, in this order. A
/// root that is itself a project or a workspace is tried before them.
pub proof fn law_search_plan(root: Seq<char>, rest: Seq<char>)
    ensures
        root == rest + ".xcodeproj"@ ==> probes(root) == seq![
            Probe::ProjectRoot,
            Probe::Package,
            Probe::NestedProject,
            Probe::NestedWorkspace,
        ],
        root == rest + ".xcworkspace"@ ==> probes(root) == seq![
            Probe::WorkspaceRoot,
            Probe::Package,
            Probe::NestedProject,
            Probe::NestedWorkspace,
        ],
        (forall|other: Seq<char>|
            root != #[trigger] (other + ".xcodeproj"@) && root != other + ".xcworkspace"@)
            ==> probes(root) == seq![Probe::Package, Probe::NestedProject, Probe::NestedWorkspace],
{
    law_suffix_is_behind(root, ".xcodeproj"@);
    law_suffix_is_behind(root, ".xcworkspace"@);
    law_root_is_one_kind(root);
    if root == rest + ".xcworkspace"@ {
        assert(has_suffix(root, ".xcworkspace"@));
    }
    if has_suffix(root, ".xcworkspace"@) && !has_suffix(root, ".xcodeproj"@) {
        let other = choose|other: Seq<char>| root == #[trigger] (other + ".xcworkspace"@);
        assert(root != other + ".xcodeproj"@);
    }
}

/// What is made of a package: its targets are those it declares, and its name is the one it
/// gives, or else that of its directory.
pub proof fn law_package_model(root: Seq<char>, data: Seq<u8>)
    ensures
        found_model(root, Probe::Package, data) == model_json(
            0,
            root,
            Json::Text("swift"@),
            match package_name_from(data, 0) {
                Some(name) => decoded(name),
                None => file_name(root),
            },
            root + "/Package.swift"@,
            target_texts(kept(declared_from(data, 0))),
        ),
{
    reveal_strlit("/");
    reveal_strlit("Package.swift");
    reveal_strlit("/Package.swift");
    assert(root + "/"@ + "Package.swift"@ =~= root + "/Package.swift"@);
}

/// What is made of a root that is an Xcode project: it belongs to its directory, has its own
/// name without the suffix, and its targets are the native ones.
pub proof fn law_project_root_model(root: Seq<char>, data: Seq<u8>)
    ensures
        found_model(root, Probe::ProjectRoot, data) == model_json(
            1,
            parent(root),
            Json::Text("swift"@),
            without_suffix(file_name(root), ".xcodeproj"@),
            root + "/project.pbxproj"@,
            target_texts(kept(native_targets(data))),
        ),
{
    reveal_strlit("/");
    reveal_strlit("project.pbxproj");
    reveal_strlit("/project.pbxproj");
    assert(root + "/"@ + "project.pbxproj"@ =~= root + "/project.pbxproj"@);
}

/// What is made of a root that is an Xcode workspace: it belongs to its directory, has its own
/// name without the suffix, and has no targets, whatever its file holds.
pub proof fn law_workspace_root_model(root: Seq<char>, data: Seq<u8>)
    ensures
        found_model(root, Probe::WorkspaceRoot, data) == model_json(
            2,
            parent(root),
            Json::Text("swift"@),
            without_suffix(file_name(root), ".xcworkspace"@),
            root + "/contents.xcworkspacedata"@,
            Seq::empty(),
        ),
{
    reveal_strlit("/");
    reveal_strlit("contents.xcworkspacedata");
    reveal_strlit("/contents.xcworkspacedata");
    assert(root + "/"@ + "contents.xcworkspacedata"@ =~= root + "/contents.xcworkspacedata"@);
    assert(target_texts(found_targets(Probe::WorkspaceRoot, data)) =~= Seq::empty());
}

/// What is made of a project or a workspace inside a root of its name: it has the root and its
/// name, a project has the native targets, and a workspace has none.
pub proof fn law_nested_models(root: Seq<char>, data: Seq<u8>)
    ensures
        found_model(root, Probe::NestedProject, data) == model_json(
            1,
            root,
            Json::Text("swift"@),
            file_name(root),
            root + "/"@ + file_name(root) + ".xcodeproj/project.pbxproj"@,
            target_texts(kept(native_targets(data))),
        ),
        found_model(root, Probe::NestedWorkspace, data) == model_json(
            2,
            root,
            Json::Text("swift"@),
            file_name(root),
            root + "/"@ + file_name(root) + ".xcworkspace/contents.xcworkspacedata"@,
            Seq::empty(),
        ),
{
    assert(root + "/"@ + (file_name(root) + ".xcodeproj/project.pbxproj"@) =~= root + "/"@
        + file_name(root) + ".xcodeproj/project.pbxproj"@);
    assert(root + "/"@ + (file_name(root) + ".xcworkspace/contents.xcworkspacedata"@) =~= root
        + "/"@ + file_name(root) + ".xcworkspace/contents.xcworkspacedata"@);
    assert(target_texts(found_targets(Probe::NestedWorkspace, data)) =~= Seq::empty());
}

/// Joins a directory and a name in it; gives nothing where the path would be too long.
pub fn join_path(root: &[u8], suffix: &[u8]) -> (path: Vec<u8>)
    ensures
        path@ == joined_path(root@, suffix@),
        root@.len() + 1 + suffix@.len() < 2048 ==> path@ == root@ + seq![0x2fu8] + suffix@,
        root@.len() + 1 + suffix@.len() >= 2048 ==> path@.len() == 0,
{
    proof {
        law_path_limit(root@, suffix@);
    }
    if root.len() >= PATH_LIMIT || suffix.len() >= PATH_LIMIT || root.len() + 1 + suffix.len()
        >= PATH_LIMIT {
        return Vec::new();
    }
    let mut path = slice_to_vec(root);
    path.extend_from_slice("/".as_bytes());
    path.extend_from_slice(suffix);
    path
}

/// The probe with which a search starts.
pub fn first_probe(root: &str) -> (probe: Probe)
    ensures
        probe == probes(root@)[0],
{
    if ends_with(root, ".xcodeproj") {
        Probe::ProjectRoot
    } else if ends_with(root, ".xcworkspace") {
        Probe::WorkspaceRoot
    } else {
        Probe::Package
    }
}

/// Whether the name of the root is short enough for a probe.
pub fn probe_fits(root: &str, probe: Probe) -> (yes: bool)
    ensures
        yes == fits(root@, probe),
{
    match probe {
        Probe::NestedProject => path_file_name(root).as_str().as_bytes().len()
            <= PROJECT_NAME_LIMIT,
        Probe::NestedWorkspace => path_file_name(root).as_str().as_bytes().len()
            <= WORKSPACE_NAME_LIMIT,
        _ => true,
    }
}

/// The file that a probe reads; empty where its path would be too long.
pub fn probe_path(root: &str, probe: Probe) -> (path: Vec<u8>)
    requires
        fits(root@, probe),
    ensures
        path@ == path_of(root@, probe),
{
    let suffix = match probe {
        Probe::ProjectRoot => "project.pbxproj".to_string(),
        Probe::WorkspaceRoot => "contents.xcworkspacedata".to_string(),
        Probe::Package => "Package.swift".to_string(),
        Probe::NestedProject => {
            let mut suffix = path_file_name(root);
            suffix.append(".xcodeproj/project.pbxproj");
            suffix
        },
        Probe::NestedWorkspace => {
            let mut suffix = path_file_name(root);
            suffix.append(".xcworkspace/contents.xcworkspacedata");
            suffix
        },
    };
    join_path(root.as_bytes(), suffix.as_str().as_bytes())
}

/// Writes the model of the project that a probe finds in a manifest that holds `data`.
fn emit_found(root: &str, probe: Probe, path: &Vec<u8>, data: &[u8]) -> (out: String)
    requires
        path@ == path_of(root@, probe),
        path@.len() > 0,
    ensures
        out@ == json_text(found_model(root@, probe, data@)),
{
    let manifest_path = utf8_lossy(path.as_slice());
    proof {
        let text = root@ + "/"@ + probe_suffix(root@, probe);
        law_path_text(root@, probe);
        encode_utf8_valid_utf8(text);
        encode_utf8_decode_utf8(text);
        reveal_strlit("swift");
        assert(is_plain("swift"@));
        law_plain_ecosystem(
            kind_of(probe),
            project_root(root@, probe),
            "swift"@,
            display_name(root@, probe, data@),
            text,
            target_texts(found_targets(probe, data@)),
        );
        reveal_strlit(".xcodeproj");
        reveal_strlit(".xcworkspace");
    }
    match probe {
        Probe::ProjectRoot => {
            let name = trim_end_matches(path_file_name(root).as_str(), ".xcodeproj");
            emit_model(
                KIND_XCODEPROJ,
                path_parent(root).as_str(),
                "swift",
                name.as_str(),
                manifest_path.as_str(),
                &parse_pbxproj(data),
            )
        },
        Probe::WorkspaceRoot => {
            let name = trim_end_matches(path_file_name(root).as_str(), ".xcworkspace");
            emit_model(
                KIND_XCWORKSPACE,
                path_parent(root).as_str(),
                "swift",
                name.as_str(),
                manifest_path.as_str(),
                &Targets::new(),
            )
        },
        Probe::Package => {
            let name = match parse_package_name(data) {
                Some(name) => name,
                None => path_file_name(root),
            };
            emit_model(
                KIND_SPM,
                root,
                "swift",
                name.as_str(),
                manifest_path.as_str(),
                &parse_package_swift(data),
            )
        },
        Probe::NestedProject => emit_model(
            KIND_XCODEPROJ,
            root,
            "swift",
            path_file_name(root).as_str(),
            manifest_path.as_str(),
            &parse_pbxproj(data),
        ),
        Probe::NestedWorkspace => emit_model(
            KIND_XCWORKSPACE,
            root,
            "swift",
            path_file_name(root).as_str(),
            manifest_path.as_str(),
            &Targets::new(),
        ),
    }
}

/// What comes after a probe whose file holds `data`; a file that is missing or cannot be
/// read holds nothing.
pub fn next_step(root: &str, probe: Probe, data: &[u8]) -> (step: Step)
    requires
        fits(root@, probe),
    ensures
        match step {
            Step::Emit(model) => finds(root@, probe, data@) && model@ == encode_utf8(
                json_text(found_model(root@, probe, data@)),
            ),
            Step::Try(next) => !finds(root@, probe, data@) && following(probe) == Some(next),
            Step::NotFound => !finds(root@, probe, data@) && following(probe) is None,
        },
        forall|files: spec_fn(Seq<u8>) -> Seq<u8>|
            files(path_of(root@, probe)) == data@ ==> #[trigger] search(root@, probe, files)
                == match step {
                Step::Emit(model) => model@,
                Step::Try(next) => search(root@, next, files),
                Step::NotFound => Seq::empty(),
            },
        step is Emit <==> encode_utf8(root@).len() + 1 + encode_utf8(
            probe_suffix(root@, probe),
        ).len() < 2048 && data@.len() > 0,
        step is Try ==> step->Try_0 == match probe {
            Probe::ProjectRoot => Probe::Package,
            Probe::WorkspaceRoot => Probe::Package,
            Probe::Package => Probe::NestedProject,
            Probe::NestedProject => Probe::NestedWorkspace,
            Probe::NestedWorkspace => Probe::NestedWorkspace,
        },
        step is NotFound ==> probe == Probe::NestedWorkspace,
        probe == Probe::NestedWorkspace ==> step !is Try,
{
    proof {
        law_find_depends_on_lengths(root@, probe, data@);
    }
    let path = probe_path(root, probe);
    if !path.is_empty() && !data.is_empty() {
        let model = emit_found(root, probe, &path, data);
        return Step::Emit(model.as_str().as_bytes_vec());
    }
    match probe {
        Probe::ProjectRoot => Step::Try(Probe::Package),
        Probe::WorkspaceRoot => Step::Try(Probe::Package),
        Probe::Package => Step::Try(Probe::NestedProject),
        Probe::NestedProject => Step::Try(Probe::NestedWorkspace),
        Probe::NestedWorkspace => Step::NotFound,
    }
}

} // verus!
