//! Rust projects: what was found under the root, how it is reported, and
//! the rustup toolchains worth removing.
pub mod discover;
pub mod manifest;

use vstd::prelude::*;

use crate::text::{decimal, pad_left, push_decimal, push_padded_left, push_str, views};
use crate::{format_bytes, format_bytes_spec};

verus! {

/// A Rust project (or a workspace, reported as one project).
#[derive(Debug, Clone, PartialEq, Eq)]
pub struct RustProject {
    pub name: String,
    pub path: String,
    pub source_bytes: u64,
    pub target_bytes: u64,
    pub workspace_members: usize,
}

/// The Cargo build artifacts found: each project's own `target/` and the
/// shared target directory, if one is configured.
#[derive(Debug, Clone, PartialEq, Eq)]
pub struct CargoBuildArtifacts {
    pub projects: Vec<RustProject>,
    pub shared_target: Option<CargoTargetDir>,
}

/// A Cargo target directory and its size.
#[derive(Debug, Clone, PartialEq, Eq)]
pub struct CargoTargetDir {
    pub path: String,
    pub bytes: u64,
}

/// The installed rustup toolchains and which are active and default.
#[derive(Debug, Clone, PartialEq, Eq)]
pub struct RustupToolchains {
    pub active: String,
    pub default: String,
    pub installed: Vec<String>,
}

impl RustProject {
    /// The space removing the project's `target/` would free.
    pub fn reclaimable_bytes(&self) -> (r: u64)
        ensures
            r == self.target_bytes,
    {
        self.target_bytes
    }
}

/// The total size of the projects' `target/` directories.
pub open spec fn total_target_bytes(ps: Seq<RustProject>) -> nat
    decreases ps.len(),
{
    if ps.len() == 0 {
        0
    } else {
        total_target_bytes(ps.drop_last()) + ps.last().target_bytes as nat
    }
}

/// The report lines of one project.
pub open spec fn project_block(p: RustProject) -> Seq<char> {
    project_heading(p) + "  target/ "@ + pad_left(format_bytes_spec(p.target_bytes as nat), 9) + "\n"@
        + "  source  "@ + pad_left(format_bytes_spec(p.source_bytes as nat), 9) + "\n\n"@
}

/// The first line(s) of a project's block: its name, marked as a workspace
/// with its member count when it has members.
pub open spec fn project_heading(p: RustProject) -> Seq<char> {
    if p.workspace_members > 0 {
        p.name@ + " (workspace)\n"@ + "  members: "@ + decimal(p.workspace_members as nat) + "\n"@
    } else {
        p.name@ + "\n"@
    }
}

/// The report lines of the projects, in order.
pub open spec fn project_blocks(ps: Seq<RustProject>) -> Seq<char>
    decreases ps.len(),
{
    if ps.len() == 0 {
        seq![]
    } else {
        project_blocks(ps.drop_last()) + project_block(ps.last())
    }
}

/// The project report: each project with its `target/` and source sizes,
/// then the total of the `target/` sizes.
pub open spec fn render_projects_spec(ps: Seq<RustProject>) -> Seq<char> {
    if ps.len() == 0 {
        "No Rust projects found."@
    } else {
        project_blocks(ps) + "Total reclaimable build artifacts:\n"@ + format_bytes_spec(
            total_target_bytes(ps),
        )
    }
}

/// The names of `v` that are neither `a` nor `b`, in order.
pub open spec fn without(v: Seq<Seq<char>>, a: Seq<char>, b: Seq<char>) -> Seq<Seq<char>>
    decreases v.len(),
{
    if v.len() == 0 {
        seq![]
    } else if v.last() != a && v.last() != b {
        without(v.drop_last(), a, b).push(v.last())
    } else {
        without(v.drop_last(), a, b)
    }
}

proof fn lemma_total_prefix(ps: Seq<RustProject>, i: int)
    requires
        0 <= i < ps.len(),
    ensures
        total_target_bytes(ps.subrange(0, i + 1)) == total_target_bytes(ps.subrange(0, i))
            + ps[i].target_bytes,
        total_target_bytes(ps.subrange(0, i)) <= total_target_bytes(ps),
        total_target_bytes(ps.subrange(0, i + 1)) <= total_target_bytes(ps),
    decreases ps.len() - i,
{
    assert(ps.subrange(0, i + 1).drop_last() == ps.subrange(0, i));
    if i + 1 < ps.len() {
        lemma_total_prefix(ps, i + 1);
    } else {
        assert(ps.subrange(0, i + 1) == ps);
    }
}

/// Appends the report lines of one project.
fn push_project(output: &mut String, p: &RustProject)
    ensures
        final(output)@ == old(output)@ + project_block(*p),
{
    let ghost start = output@;
    push_str(output, p.name.as_str());
    if p.workspace_members > 0 {
        push_str(output, " (workspace)\n");
        push_str(output, "  members: ");
        push_decimal(output, p.workspace_members as u128);
        push_str(output, "\n");
    } else {
        push_str(output, "\n");
    }
    let ghost heading = output@;
    push_str(output, "  target/ ");
    let t = crate::text::chars_of(format_bytes(p.target_bytes).as_str());
    push_padded_left(output, t.as_slice(), 9);
    push_str(output, "\n");
    push_str(output, "  source  ");
    let s = crate::text::chars_of(format_bytes(p.source_bytes).as_str());
    push_padded_left(output, s.as_slice(), 9);
    push_str(output, "\n\n");
    assert(output@ =~= start + project_block(*p));
}

/// The project report, as `render_projects_spec` describes it.
pub fn render_projects(projects: &[RustProject]) -> (r: String)
    requires
        total_target_bytes(projects@) <= u64::MAX,
    ensures
        r@ == render_projects_spec(projects@),
{
    if projects.len() == 0 {
        return crate::text::owned("No Rust projects found.");
    }
    let mut output = String::new();
    let mut total: u64 = 0;
    let mut i: usize = 0;
    while i < projects.len()
        invariant
            i <= projects@.len(),
            total_target_bytes(projects@) <= u64::MAX,
            output@ == project_blocks(projects@.subrange(0, i as int)),
            total == total_target_bytes(projects@.subrange(0, i as int)),
        decreases projects@.len() - i,
    {
        proof {
            lemma_total_prefix(projects@, i as int);
            assert(projects@.subrange(0, i + 1).drop_last() == projects@.subrange(0, i as int));
        }
        push_project(&mut output, &projects[i]);
        total = total + projects[i].reclaimable_bytes();
        i = i + 1;
    }
    assert(projects@.subrange(0, projects@.len() as int) == projects@);
    push_str(&mut output, "Total reclaimable build artifacts:\n");
    let t = format_bytes(total);
    push_str(&mut output, t.as_str());
    output
}

/// The names of `v` that are neither `a` nor `b`, in order.
fn names_without(v: &[String], a: &str, b: &str) -> (r: Vec<String>)
    ensures
        views(r@) == without(views(v@), a@, b@),
{
    let mut r: Vec<String> = Vec::new();
    let mut i: usize = 0;
    assert(views(r@) =~= Seq::<Seq<char>>::empty());
    while i < v.len()
        invariant
            i <= v@.len(),
            views(r@) == without(views(v@.subrange(0, i as int)), a@, b@),
        decreases v@.len() - i,
    {
        proof {
            assert(views(v@.subrange(0, i + 1)).drop_last() == views(v@.subrange(0, i as int)));
            assert(views(v@.subrange(0, i + 1)).last() == v@[i as int]@);
        }
        if !crate::text::str_eq(v[i].as_str(), a) && !crate::text::str_eq(v[i].as_str(), b) {
            let ghost before = r@;
            r.push(v[i].clone());
            assert(views(r@) == views(before).push(v@[i as int]@));
        }
        i = i + 1;
    }
    assert(v@.subrange(0, v@.len() as int) == v@);
    r
}

impl RustupToolchains {
    /// The installed toolchains other than the default one, in order.
    pub fn additional(&self) -> (r: Vec<String>)
        ensures
            views(r@) == without(views(self.installed@), self.default@, self.default@),
    {
        names_without(self.installed.as_slice(), self.default.as_str(), self.default.as_str())
    }

    /// The installed toolchains that are neither active nor default, in
    /// order: those that can be uninstalled.
    pub fn removable(&self) -> (r: Vec<String>)
        ensures
            views(r@) == without(views(self.installed@), self.active@, self.default@),
    {
        names_without(self.installed.as_slice(), self.active.as_str(), self.default.as_str())
    }
}

proof fn lemma_blocks_start(ps: Seq<RustProject>)
    requires
        ps.len() > 0,
    ensures
        project_block(ps[0]).len() <= project_blocks(ps).len(),
        project_blocks(ps).subrange(0, project_block(ps[0]).len() as int) == project_block(ps[0]),
    decreases ps.len(),
{
    let b = project_block(ps[0]);
    if ps.len() == 1 {
        assert(project_blocks(ps.drop_last()) == Seq::<char>::empty());
        assert(project_blocks(ps) =~= b);
    } else {
        lemma_blocks_start(ps.drop_last());
        assert(ps.drop_last()[0] == ps[0]);
        let d = project_blocks(ps.drop_last());
        assert(project_blocks(ps) == d + project_block(ps.last()));
        assert((d + project_block(ps.last())).subrange(0, b.len() as int) =~= d.subrange(
            0,
            b.len() as int,
        ));
    }
}

/// The project report: with no project a fixed sentence; otherwise one block
/// per project in order, the first opening with the first project's
/// heading, and at the end, after a blank line, the total of the `target/`
/// sizes (source sizes are not counted).
pub proof fn lemma_render_projects_frame(ps: Seq<RustProject>)
    ensures
        ps.len() == 0 ==> render_projects_spec(ps) == "No Rust projects found."@,
        ps.len() > 0 ==> {
            let t = render_projects_spec(ps);
            let tail = "\n\nTotal reclaimable build artifacts:\n"@ + format_bytes_spec(
                total_target_bytes(ps),
            );
            let head = project_heading(ps[0]);
            &&& tail.len() <= t.len()
            &&& t.subrange(t.len() - tail.len(), t.len() as int) == tail
            &&& head.len() <= t.len()
            &&& t.subrange(0, head.len() as int) == head
        },
{
    if ps.len() > 0 {
        let t = render_projects_spec(ps);
        let f = format_bytes_spec(total_target_bytes(ps));
        let total_line = "Total reclaimable build artifacts:\n"@;
        let tail = "\n\nTotal reclaimable build artifacts:\n"@ + f;
        assert("\n\nTotal reclaimable build artifacts:\n"@ =~= "\n\n"@ + total_line) by {
            reveal_strlit("\n\nTotal reclaimable build artifacts:\n");
            reveal_strlit("Total reclaimable build artifacts:\n");
            reveal_strlit("\n\n");
        }
        let last = ps.last();
        let x = project_heading(last) + "  target/ "@ + pad_left(
            format_bytes_spec(last.target_bytes as nat),
            9,
        ) + "\n"@ + "  source  "@ + pad_left(format_bytes_spec(last.source_bytes as nat), 9);
        let d = project_blocks(ps.drop_last());
        assert(t == d + (x + "\n\n"@) + total_line + f);
        assert(t.subrange(t.len() - tail.len(), t.len() as int) =~= tail);
        lemma_blocks_start(ps);
        let b = project_block(ps[0]);
        let head = project_heading(ps[0]);
        assert(t.subrange(0, b.len() as int) == b) by {
            assert(t.subrange(0, b.len() as int) =~= project_blocks(ps).subrange(0, b.len() as int));
        }
        assert(t.subrange(0, head.len() as int) =~= b.subrange(0, head.len() as int));
    }
}

proof fn lemma_blocks_prefix(ps: Seq<RustProject>, k: int)
    requires
        0 <= k <= ps.len(),
    ensures
        project_blocks(ps.take(k)).len() <= project_blocks(ps).len(),
        project_blocks(ps).subrange(0, project_blocks(ps.take(k)).len() as int) == project_blocks(
            ps.take(k),
        ),
    decreases ps.len() - k,
{
    if k == ps.len() {
        assert(ps.take(k) == ps);
        assert(project_blocks(ps).subrange(0, project_blocks(ps).len() as int) == project_blocks(ps));
    } else {
        lemma_blocks_prefix(ps, k + 1);
        assert(ps.take(k + 1).drop_last() == ps.take(k));
        let a = project_blocks(ps.take(k));
        let b = project_blocks(ps.take(k + 1));
        assert(b == a + project_block(ps.take(k + 1).last()));
        assert(project_blocks(ps).subrange(0, a.len() as int) =~= b.subrange(0, a.len() as int));
        assert(b.subrange(0, a.len() as int) =~= a);
    }
}

/// Each project's block in the report, after the blocks of the projects
/// before it, opens with its name; a project with workspace members (one or
/// more) is marked as a workspace and given its member count, and a project
/// without members goes straight on to its `target/` size.
pub proof fn lemma_report_block_headings(ps: Seq<RustProject>, i: int)
    requires
        0 <= i < ps.len(),
    ensures
        ({
            let t = render_projects_spec(ps);
            let p = ps[i];
            let off = project_blocks(ps.take(i)).len();
            let h = if p.workspace_members > 0 {
                p.name@ + " (workspace)\n"@ + "  members: "@ + decimal(p.workspace_members as nat)
                    + "\n"@
            } else {
                p.name@ + "\n"@ + "  target/ "@
            };
            &&& off + h.len() <= t.len()
            &&& t.subrange(off as int, (off + h.len()) as int) == h
        }),
{
    let p = ps[i];
    lemma_blocks_prefix(ps, i + 1);
    assert(ps.take(i + 1).drop_last() == ps.take(i));
    assert(ps.take(i + 1).last() == p);
    let a = project_blocks(ps.take(i));
    let b = project_blocks(ps.take(i + 1));
    let blk = project_block(p);
    assert(b == a + blk);
    let h = if p.workspace_members > 0 {
        p.name@ + " (workspace)\n"@ + "  members: "@ + decimal(p.workspace_members as nat) + "\n"@
    } else {
        p.name@ + "\n"@ + "  target/ "@
    };
    assert(blk.subrange(0, h.len() as int) =~= h);
    let t = render_projects_spec(ps);
    let all = project_blocks(ps);
    assert(t.subrange(0, all.len() as int) =~= all);
    assert(t.subrange(a.len() as int, (a.len() + h.len()) as int) =~= all.subrange(
        a.len() as int,
        (a.len() + h.len()) as int,
    ));
    assert(all.subrange(a.len() as int, (a.len() + h.len()) as int) =~= b.subrange(
        a.len() as int,
        (a.len() + h.len()) as int,
    ));
}

} // verus!
