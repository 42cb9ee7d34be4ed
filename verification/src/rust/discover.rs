//! Finding Rust projects: what a directory walk keeps, which manifests are
//! reported as projects, and how a shared target directory is recognised.
use vstd::prelude::*;

use crate::path::{
    file_name, has_parent, join, parent, parent_text_of, path_components, path_eq, path_file_name,
    path_join, path_starts_with, paths_equal, starts_with,
};
use crate::rust::manifest::{
    extract_json_string, extract_json_string_spec, is_workspace_manifest, is_workspace_text,
    opt_string_view, package_name, package_name_spec,
};
use crate::rust::RustProject;
use crate::text::{owned, push_str, str_eq, string_of, views};

verus! {

/// A manifest found by the walk: its path and its text.
pub struct ManifestFile {
    pub path: String,
    pub contents: String,
}

/// A project to report, before its sizes are measured: its name, its
/// directory, whether it is a workspace root, and the directories of the
/// workspace members counted with it.
#[derive(Debug, Clone, PartialEq, Eq)]
pub struct ProjectPlan {
    pub name: String,
    pub path: String,
    pub is_workspace: bool,
    pub member_dirs: Vec<String>,
}

/// A project plan as text.
pub struct ProjectPlanView {
    pub name: Seq<char>,
    pub path: Seq<char>,
    pub is_workspace: bool,
    pub member_dirs: Seq<Seq<char>>,
}

impl View for ProjectPlan {
    type V = ProjectPlanView;

    open spec fn view(&self) -> ProjectPlanView {
        ProjectPlanView {
            name: self.name@,
            path: self.path@,
            is_workspace: self.is_workspace,
            member_dirs: views(self.member_dirs@),
        }
    }
}

/// The paths of the manifests.
pub open spec fn manifest_paths(ms: Seq<ManifestFile>) -> Seq<Seq<char>> {
    ms.map_values(|m: ManifestFile| m.path@)
}

/// The views of a list of plans.
pub open spec fn plan_views(ps: Seq<ProjectPlan>) -> Seq<ProjectPlanView> {
    ps.map_values(|p: ProjectPlan| p@)
}

/// The workspace roots: the directories of the manifests that declare a
/// workspace, in order; an error names the first such manifest without a
/// parent directory.
pub open spec fn workspace_roots_spec(ms: Seq<ManifestFile>) -> Result<Seq<Seq<char>>, Seq<char>>
    decreases ms.len(),
{
    if ms.len() == 0 {
        Ok(seq![])
    } else {
        match workspace_roots_spec(ms.drop_last()) {
            Err(e) => Err(e),
            Ok(roots) => {
                let m = ms.last();
                if is_workspace_text(m.contents@) {
                    if has_parent(m.path@) {
                        Ok(roots.push(parent_text_of(m.path@)))
                    } else {
                        Err("manifest has no parent: "@ + m.path@)
                    }
                } else {
                    Ok(roots)
                }
            }
        }
    }
}

/// Whether `dir` is one of the roots (as paths).
pub open spec fn is_root(dir: Seq<char>, roots: Seq<Seq<char>>) -> bool {
    exists|i: int| 0 <= i < roots.len() && path_eq(#[trigger] roots[i], dir)
}

/// Whether `dir` lies strictly inside one of the roots.
pub open spec fn inside_some_root(dir: Seq<char>, roots: Seq<Seq<char>>) -> bool {
    exists|i: int|
        0 <= i < roots.len() && !path_eq(dir, #[trigger] roots[i]) && path_starts_with(dir, roots[i])
}

/// A manifest is reported when it has a directory that is a workspace root
/// or lies inside no workspace root.
pub open spec fn should_report(manifest: Seq<char>, roots: Seq<Seq<char>>) -> bool {
    has_parent(manifest) && (is_root(parent_text_of(manifest), roots) || !inside_some_root(
        parent_text_of(manifest),
        roots,
    ))
}

/// Whether `dir` lies inside a workspace root other than `ws`.
pub open spec fn inside_other_root(dir: Seq<char>, ws: Seq<char>, roots: Seq<Seq<char>>) -> bool {
    exists|i: int|
        0 <= i < roots.len() && !path_eq(#[trigger] roots[i], ws) && path_starts_with(dir, roots[i])
}

/// A manifest belongs to workspace `ws` when its directory lies strictly
/// inside `ws` and inside no other workspace root.
pub open spec fn is_member(manifest: Seq<char>, ws: Seq<char>, roots: Seq<Seq<char>>) -> bool {
    has_parent(manifest) && {
        let dir = parent_text_of(manifest);
        !path_eq(dir, ws) && path_starts_with(dir, ws) && !inside_other_root(dir, ws, roots)
    }
}

/// The directories of the members of `ws` among `ms`, in order.
pub open spec fn member_dirs_spec(ms: Seq<Seq<char>>, ws: Seq<char>, roots: Seq<Seq<char>>) -> Seq<
    Seq<char>,
>
    decreases ms.len(),
{
    if ms.len() == 0 {
        seq![]
    } else if is_member(ms.last(), ws, roots) {
        member_dirs_spec(ms.drop_last(), ws, roots).push(parent_text_of(ms.last()))
    } else {
        member_dirs_spec(ms.drop_last(), ws, roots)
    }
}

/// A project's name: its package name, else its directory's name, else
/// `unknown`.
pub open spec fn project_name_spec(contents: Seq<char>, dir: Seq<char>) -> Seq<char> {
    match package_name_spec(contents) {
        Some(n) => n,
        None => match path_file_name(dir) {
            Some(f) => f,
            None => "unknown"@,
        },
    }
}

/// The plan of the project of manifest `m`.
pub open spec fn plan_spec(m: ManifestFile, all: Seq<Seq<char>>, roots: Seq<Seq<char>>) -> ProjectPlanView {
    let dir = parent_text_of(m.path@);
    let ws = is_root(dir, roots);
    ProjectPlanView {
        name: project_name_spec(m.contents@, dir),
        path: dir,
        is_workspace: ws,
        member_dirs: if ws {
            member_dirs_spec(all, dir, roots)
        } else {
            seq![]
        },
    }
}

/// The plans of the reported manifests among `ms`, in order.
pub open spec fn plans_spec(ms: Seq<ManifestFile>, all: Seq<Seq<char>>, roots: Seq<Seq<char>>) -> Seq<
    ProjectPlanView,
>
    decreases ms.len(),
{
    if ms.len() == 0 {
        seq![]
    } else if should_report(ms.last().path@, roots) {
        plans_spec(ms.drop_last(), all, roots).push(plan_spec(ms.last(), all, roots))
    } else {
        plans_spec(ms.drop_last(), all, roots)
    }
}

/// The projects of a set of manifests: a workspace is one project counting
/// the manifests inside it as members; every other manifest outside a
/// workspace is a project of its own.
pub open spec fn plan_projects_spec(ms: Seq<ManifestFile>) -> Result<Seq<ProjectPlanView>, Seq<char>> {
    match workspace_roots_spec(ms) {
        Err(e) => Err(e),
        Ok(roots) => Ok(plans_spec(ms, manifest_paths(ms), roots)),
    }
}

/// The workspace roots among the manifests, as `workspace_roots_spec`.
pub fn workspace_roots(ms: &[ManifestFile]) -> (r: Result<Vec<String>, String>)
    ensures
        match r {
            Ok(roots) => workspace_roots_spec(ms@) == Ok::<Seq<Seq<char>>, Seq<char>>(views(roots@)),
            Err(e) => workspace_roots_spec(ms@) == Err::<Seq<Seq<char>>, Seq<char>>(e@),
        },
{
    let mut roots: Vec<String> = Vec::new();
    let mut i: usize = 0;
    assert(views(roots@) =~= Seq::<Seq<char>>::empty());
    while i < ms.len()
        invariant
            i <= ms@.len(),
            workspace_roots_spec(ms@.subrange(0, i as int)) == Ok::<Seq<Seq<char>>, Seq<char>>(
                views(roots@),
            ),
        decreases ms@.len() - i,
    {
        proof {
            assert(ms@.subrange(0, i + 1).drop_last() == ms@.subrange(0, i as int));
            assert(ms@.subrange(0, i + 1).last() == ms@[i as int]);
        }
        let m = &ms[i];
        if is_workspace_manifest(m.contents.as_str()) {
            match parent(m.path.as_str()) {
                Some(dir) => {
                    let ghost before = roots@;
                    roots.push(dir);
                    assert(views(roots@) == views(before).push(parent_text_of(m.path@)));
                },
                None => {
                    let mut e = owned("manifest has no parent: ");
                    push_str(&mut e, m.path.as_str());
                    proof {
                        lemma_roots_error_stays(ms@, i as int);
                    }
                    return Err(e);
                },
            }
        }
        i = i + 1;
    }
    assert(ms@.subrange(0, ms@.len() as int) == ms@);
    Ok(roots)
}

proof fn lemma_roots_error_stays(ms: Seq<ManifestFile>, i: int)
    requires
        0 <= i < ms.len(),
        workspace_roots_spec(ms.subrange(0, i + 1)) is Err,
    ensures
        workspace_roots_spec(ms) == workspace_roots_spec(ms.subrange(0, i + 1)),
    decreases ms.len() - i,
{
    if i + 1 < ms.len() {
        assert(ms.subrange(0, i + 2).drop_last() == ms.subrange(0, i + 1));
        lemma_roots_error_stays(ms, i + 1);
    } else {
        assert(ms.subrange(0, i + 1) == ms);
    }
}

/// Whether `dir` is one of the roots.
fn any_root_equals(dir: &str, roots: &[String]) -> (r: bool)
    ensures
        r == is_root(dir@, views(roots@)),
{
    let ghost rv = views(roots@);
    let mut i: usize = 0;
    while i < roots.len()
        invariant
            rv == views(roots@),
            i <= roots@.len(),
            forall|j: int| 0 <= j < i ==> !path_eq(#[trigger] rv[j], dir@),
        decreases roots@.len() - i,
    {
        assert(rv[i as int] == roots@[i as int]@);
        if paths_equal(roots[i].as_str(), dir) {
            return true;
        }
        i = i + 1;
    }
    false
}

/// Whether `dir` lies strictly inside one of the roots.
fn inside_any_root(dir: &str, roots: &[String]) -> (r: bool)
    ensures
        r == inside_some_root(dir@, views(roots@)),
{
    let ghost rv = views(roots@);
    let mut i: usize = 0;
    while i < roots.len()
        invariant
            rv == views(roots@),
            i <= roots@.len(),
            forall|j: int|
                0 <= j < i ==> !(!path_eq(dir@, #[trigger] rv[j]) && path_starts_with(dir@, rv[j])),
        decreases roots@.len() - i,
    {
        assert(rv[i as int] == roots@[i as int]@);
        if !paths_equal(dir, roots[i].as_str()) && starts_with(dir, roots[i].as_str()) {
            return true;
        }
        i = i + 1;
    }
    false
}

/// Whether `dir` lies inside a root other than `ws`.
fn inside_other(dir: &str, ws: &str, roots: &[String]) -> (r: bool)
    ensures
        r == inside_other_root(dir@, ws@, views(roots@)),
{
    let ghost rv = views(roots@);
    let mut i: usize = 0;
    while i < roots.len()
        invariant
            rv == views(roots@),
            i <= roots@.len(),
            forall|j: int|
                0 <= j < i ==> !(!path_eq(#[trigger] rv[j], ws@) && path_starts_with(dir@, rv[j])),
        decreases roots@.len() - i,
    {
        assert(rv[i as int] == roots@[i as int]@);
        if !paths_equal(roots[i].as_str(), ws) && starts_with(dir, roots[i].as_str()) {
            return true;
        }
        i = i + 1;
    }
    false
}

/// Whether the manifest is reported as a project of its own.
pub fn should_report_manifest(manifest: &str, roots: &[String]) -> (r: bool)
    ensures
        r == should_report(manifest@, views(roots@)),
{
    match parent(manifest) {
        None => false,
        Some(dir) => any_root_equals(dir.as_str(), roots) || !inside_any_root(dir.as_str(), roots),
    }
}

/// The directories of the members of workspace `ws`, in manifest order.
pub fn workspace_member_dirs(ws: &str, ms: &[ManifestFile], roots: &[String]) -> (r: Vec<String>)
    ensures
        views(r@) == member_dirs_spec(manifest_paths(ms@), ws@, views(roots@)),
{
    let mut r: Vec<String> = Vec::new();
    let mut i: usize = 0;
    assert(views(r@) =~= Seq::<Seq<char>>::empty());
    while i < ms.len()
        invariant
            i <= ms@.len(),
            views(r@) == member_dirs_spec(
                manifest_paths(ms@.subrange(0, i as int)),
                ws@,
                views(roots@),
            ),
        decreases ms@.len() - i,
    {
        proof {
            assert(manifest_paths(ms@.subrange(0, i + 1)).drop_last() == manifest_paths(
                ms@.subrange(0, i as int),
            ));
            assert(manifest_paths(ms@.subrange(0, i + 1)).last() == ms@[i as int].path@);
        }
        match parent(ms[i].path.as_str()) {
            None => {},
            Some(dir) => {
                if !paths_equal(dir.as_str(), ws) && starts_with(dir.as_str(), ws) && !inside_other(
                    dir.as_str(),
                    ws,
                    roots,
                ) {
                    let ghost before = r@;
                    r.push(dir);
                    assert(views(r@) == views(before).push(parent_text_of(ms@[i as int].path@)));
                }
            },
        }
        i = i + 1;
    }
    assert(ms@.subrange(0, ms@.len() as int) == ms@);
    r
}

/// The name of a project: its package name, else its directory's name,
/// else `unknown`.
pub fn project_name(contents: &str, dir: &str) -> (r: String)
    ensures
        r@ == project_name_spec(contents@, dir@),
{
    match package_name(contents) {
        Some(n) => n,
        None => match file_name(dir) {
            Some(f) => string_of(f.as_slice()),
            None => owned("unknown"),
        },
    }
}

/// The projects of a set of manifests (paths in walk order, sorted), as
/// `plan_projects_spec` describes them.
pub fn plan_projects(ms: &[ManifestFile]) -> (r: Result<Vec<ProjectPlan>, String>)
    ensures
        match r {
            Ok(plans) => plan_projects_spec(ms@) == Ok::<Seq<ProjectPlanView>, Seq<char>>(
                plan_views(plans@),
            ),
            Err(e) => plan_projects_spec(ms@) == Err::<Seq<ProjectPlanView>, Seq<char>>(e@),
        },
{
    let roots = match workspace_roots(ms) {
        Ok(roots) => roots,
        Err(e) => return Err(e),
    };
    let ghost rv = views(roots@);
    let mut plans: Vec<ProjectPlan> = Vec::new();
    let mut i: usize = 0;
    assert(plan_views(plans@) =~= Seq::<ProjectPlanView>::empty());
    while i < ms.len()
        invariant
            i <= ms@.len(),
            rv == views(roots@),
            workspace_roots_spec(ms@) == Ok::<Seq<Seq<char>>, Seq<char>>(rv),
            plan_views(plans@) == plans_spec(ms@.subrange(0, i as int), manifest_paths(ms@), rv),
        decreases ms@.len() - i,
    {
        proof {
            assert(ms@.subrange(0, i + 1).drop_last() == ms@.subrange(0, i as int));
            assert(ms@.subrange(0, i + 1).last() == ms@[i as int]);
        }
        let m = &ms[i];
        if should_report_manifest(m.path.as_str(), roots.as_slice()) {
            let dir = match parent(m.path.as_str()) {
                Some(dir) => dir,
                None => {
                    assert(false);
                    return Err(owned("manifest has no parent"));
                },
            };
            let name = project_name(m.contents.as_str(), dir.as_str());
            let is_workspace = any_root_equals(dir.as_str(), roots.as_slice());
            let member_dirs = if is_workspace {
                workspace_member_dirs(dir.as_str(), ms, roots.as_slice())
            } else {
                let v: Vec<String> = Vec::new();
                assert(views(v@) =~= Seq::<Seq<char>>::empty());
                v
            };
            let plan = ProjectPlan { name, path: dir, is_workspace, member_dirs };
            let ghost before = plans@;
            plans.push(plan);
            assert(plan_views(plans@) == plan_views(before).push(plan@));
            assert(plan@ == plan_spec(ms@[i as int], manifest_paths(ms@), rv));
        }
        i = i + 1;
    }
    assert(ms@.subrange(0, ms@.len() as int) == ms@);
    Ok(plans)
}

/// The paths measured as a project directory's sources: the files
/// `Cargo.toml`, `Cargo.lock` and `build.rs`.
pub open spec fn source_files_spec(dir: Seq<char>) -> Seq<Seq<char>> {
    seq![
        path_join(dir, "Cargo.toml"@),
        path_join(dir, "Cargo.lock"@),
        path_join(dir, "build.rs"@),
    ]
}

/// The directories measured as a project directory's sources: `src`,
/// `tests`, `benches` and `examples`.
pub open spec fn source_dirs_spec(dir: Seq<char>) -> Seq<Seq<char>> {
    seq![
        path_join(dir, "src"@),
        path_join(dir, "tests"@),
        path_join(dir, "benches"@),
        path_join(dir, "examples"@),
    ]
}

/// The source files of a project directory.
pub fn source_files(dir: &str) -> (r: Vec<String>)
    ensures
        views(r@) == source_files_spec(dir@),
{
    let mut r: Vec<String> = Vec::new();
    r.push(join(dir, "Cargo.toml"));
    r.push(join(dir, "Cargo.lock"));
    r.push(join(dir, "build.rs"));
    assert(views(r@) =~= source_files_spec(dir@));
    r
}

/// The source directories of a project directory.
pub fn source_dirs(dir: &str) -> (r: Vec<String>)
    ensures
        views(r@) == source_dirs_spec(dir@),
{
    let mut r: Vec<String> = Vec::new();
    r.push(join(dir, "src"));
    r.push(join(dir, "tests"));
    r.push(join(dir, "benches"));
    r.push(join(dir, "examples"));
    assert(views(r@) =~= source_dirs_spec(dir@));
    r
}

/// The sum of a list of sizes.
pub open spec fn sum_sizes(v: Seq<u64>) -> nat
    decreases v.len(),
{
    if v.len() == 0 {
        0
    } else {
        sum_sizes(v.drop_last()) + v.last() as nat
    }
}

/// The sum of the sizes, or `None` when it does not fit in 64 bits.
pub fn checked_total(sizes: &[u64]) -> (r: Option<u64>)
    ensures
        match r {
            Some(t) => t == sum_sizes(sizes@),
            None => sum_sizes(sizes@) > u64::MAX,
        },
{
    let mut total: u64 = 0;
    let mut i: usize = 0;
    while i < sizes.len()
        invariant
            i <= sizes@.len(),
            total == sum_sizes(sizes@.subrange(0, i as int)),
        decreases sizes@.len() - i,
    {
        assert(sizes@.subrange(0, i + 1).drop_last() == sizes@.subrange(0, i as int));
        if sizes[i] > u64::MAX - total {
            proof {
                lemma_sum_prefix_le(sizes@, i + 1);
            }
            return None;
        }
        total = total + sizes[i];
        i = i + 1;
    }
    assert(sizes@.subrange(0, sizes@.len() as int) == sizes@);
    Some(total)
}

proof fn lemma_sum_prefix_le(v: Seq<u64>, k: int)
    requires
        0 <= k <= v.len(),
    ensures
        sum_sizes(v.subrange(0, k)) <= sum_sizes(v),
    decreases v.len() - k,
{
    if k < v.len() {
        lemma_sum_prefix_le(v, k + 1);
        assert(v.subrange(0, k + 1).drop_last() == v.subrange(0, k));
    } else {
        assert(v.subrange(0, k) == v);
    }
}

/// What a directory walk does with an entry.
#[derive(Debug, Clone, Copy, PartialEq, Eq)]
pub enum WalkAction {
    /// Keep the entry (a manifest found, or a file size counted).
    Take,
    /// Walk into the directory.
    Descend,
    /// Leave the entry alone.
    Skip,
}

/// Directories no walk enters: version control, dependency and build
/// outputs, caches, logs and virtual environments.
pub open spec fn is_excluded_name(name: Seq<char>) -> bool {
    name == ".git"@ || name == "node_modules"@ || name == "dist"@ || name == "build"@ || name
        == "tmp"@ || name == "caches"@ || name == "logs"@ || name == "snap"@ || name == ".venv"@
        || name == "venv"@ || name == "env"@ || name == ".env"@
}

/// Whether a walk leaves the directory `name` alone.
pub fn is_excluded_dir(name: &str) -> (r: bool)
    ensures
        r == is_excluded_name(name@),
{
    str_eq(name, ".git") || str_eq(name, "node_modules") || str_eq(name, "dist") || str_eq(
        name,
        "build",
    ) || str_eq(name, "tmp") || str_eq(name, "caches") || str_eq(name, "logs") || str_eq(
        name,
        "snap",
    ) || str_eq(name, ".venv") || str_eq(name, "venv") || str_eq(name, "env") || str_eq(
        name,
        ".env",
    )
}

/// The manifest walk: a file named `Cargo.toml` is a manifest; a directory
/// not excluded is walked; anything else is skipped.
pub open spec fn manifest_entry_spec(name: Seq<char>, is_file: bool, is_dir: bool) -> WalkAction {
    if is_file && name == "Cargo.toml"@ {
        WalkAction::Take
    } else if is_dir && !is_excluded_name(name) {
        WalkAction::Descend
    } else {
        WalkAction::Skip
    }
}

/// What the manifest walk does with an entry.
pub fn manifest_entry_action(name: &str, is_file: bool, is_dir: bool) -> (r: WalkAction)
    ensures
        r == manifest_entry_spec(name@, is_file, is_dir),
{
    if is_file && str_eq(name, "Cargo.toml") {
        WalkAction::Take
    } else if is_dir && !is_excluded_dir(name) {
        WalkAction::Descend
    } else {
        WalkAction::Skip
    }
}

/// The size walk: a file's length is counted; a directory not excluded is
/// walked; anything else (links, devices) counts nothing.
pub open spec fn size_entry_spec(name: Seq<char>, is_file: bool, is_dir: bool) -> WalkAction {
    if is_file {
        WalkAction::Take
    } else if is_dir && !is_excluded_name(name) {
        WalkAction::Descend
    } else {
        WalkAction::Skip
    }
}

/// What the size walk does with an entry.
pub fn size_entry_action(name: &str, is_file: bool, is_dir: bool) -> (r: WalkAction)
    ensures
        r == size_entry_spec(name@, is_file, is_dir),
{
    if is_file {
        WalkAction::Take
    } else if is_dir && !is_excluded_dir(name) {
        WalkAction::Descend
    } else {
        WalkAction::Skip
    }
}

/// The target directory `cargo metadata` reports in its JSON output.
pub fn metadata_target_dir(stdout: &str) -> (r: Option<String>)
    ensures
        opt_string_view(r) == extract_json_string_spec(stdout@, "target_directory"@),
{
    extract_json_string(stdout, "target_directory")
}

/// A project's target directory counts as shared when it is not the
/// project's own `target/`.
pub open spec fn shared_target_spec(project_dir: Seq<char>, target: Option<Seq<char>>) -> Option<
    Seq<char>,
> {
    match target {
        Some(t) => if path_eq(t, path_join(project_dir, "target"@)) {
            None
        } else {
            Some(t)
        },
        None => None,
    }
}

/// The project's target directory, when it is a shared one.
pub fn shared_target_of(project_dir: &str, target: Option<String>) -> (r: Option<String>)
    ensures
        opt_string_view(r) == shared_target_spec(project_dir@, opt_string_view(target)),
{
    match target {
        Some(t) => {
            let own = join(project_dir, "target");
            if paths_equal(t.as_str(), own.as_str()) {
                None
            } else {
                Some(t)
            }
        },
        None => None,
    }
}

/// A workspace is reported as one project: a manifest that belongs to a
/// workspace is counted with it and is never reported as a project of its
/// own.
pub proof fn lemma_member_not_reported(manifest: Seq<char>, ws: Seq<char>, roots: Seq<Seq<char>>)
    requires
        is_root(ws, roots),
        is_member(manifest, ws, roots),
    ensures
        !should_report(manifest, roots),
{
    let dir = parent_text_of(manifest);
    let j = choose|j: int| 0 <= j < roots.len() && path_eq(#[trigger] roots[j], ws);
    let rc = path_components(roots[j]);
    let dc = path_components(dir);
    assert(dc.subrange(0, rc.len() as int) == rc);
    assert(!path_eq(dir, roots[j]) && path_starts_with(dir, roots[j]));
    assert(inside_some_root(dir, roots));
    if is_root(dir, roots) {
        let k = choose|k: int| 0 <= k < roots.len() && path_eq(#[trigger] roots[k], dir);
        assert(path_components(roots[k]) == dc);
        assert(dc.subrange(0, dc.len() as int) == dc);
        assert(!path_eq(roots[k], ws) && path_starts_with(dir, roots[k]));
        assert(inside_other_root(dir, ws, roots));
    }
}

/// The project record of a plan, from the source sizes of the project's
/// directory followed by those of its member directories, and the size of
/// its `target/`: the name and directory come from the plan, the source
/// size is the sum of the source sizes, and the member count is the number
/// of member directories. `None` when the source sizes do not add up within
/// 64 bits.
pub fn project_record(plan: ProjectPlan, source_sizes: &[u64], target_bytes: u64) -> (r: Option<
    RustProject,
>)
    ensures
        sum_sizes(source_sizes@) <= u64::MAX <==> r is Some,
        r matches Some(p) ==> {
            &&& p.name@ == plan.name@
            &&& p.path@ == plan.path@
            &&& p.source_bytes == sum_sizes(source_sizes@)
            &&& p.target_bytes == target_bytes
            &&& p.workspace_members == plan.member_dirs@.len()
        },
{
    match checked_total(source_sizes) {
        Some(source_bytes) => {
            let workspace_members = plan.member_dirs.len();
            Some(
                RustProject {
                    name: plan.name,
                    path: plan.path,
                    source_bytes,
                    target_bytes,
                    workspace_members,
                },
            )
        },
        None => None,
    }
}

/// A project is named after the package its manifest declares, whatever its
/// directory is called; only when the manifest declares no package name is
/// it named after its directory, and `unknown` when the directory has no
/// name either.
pub proof fn lemma_project_named_by_package(
    m: ManifestFile,
    all: Seq<Seq<char>>,
    roots: Seq<Seq<char>>,
)
    ensures
        ({
            let dir = parent_text_of(m.path@);
            let name = plan_spec(m, all, roots).name;
            &&& package_name_spec(m.contents@) matches Some(n) ==> name == n
            &&& package_name_spec(m.contents@) is None ==> name == match path_file_name(dir) {
                Some(f) => f,
                None => "unknown"@,
            }
        }),
        forall|dir: Seq<char>|
            #![trigger project_name_spec(m.contents@, dir)]
            package_name_spec(m.contents@) matches Some(n) ==> project_name_spec(m.contents@, dir)
                == n,
{
}

} // verus!
