//! Cleaning the `target/` directories of Rust projects: the plan, its
//! summary, and the check made before each removal.
use vstd::prelude::*;

use crate::path::{file_name, is_plain_name, join, lemma_join_file_name, path_file_name, path_join};
use crate::rust::{total_target_bytes, RustProject};
use crate::text::{chars_eq_str, chars_of, owned, pad_left, push_padded_left, push_str};
use crate::{format_bytes, format_bytes_spec};

verus! {

/// The `target/` directories to remove and the space they take.
#[derive(Debug, Clone, PartialEq, Eq)]
pub struct CleanPlan {
    pub items: Vec<TargetCleanup>,
    pub total_bytes: u64,
}

/// One project's `target/` directory to remove.
#[derive(Debug, Clone, PartialEq, Eq)]
pub struct TargetCleanup {
    pub project_name: String,
    pub project_path: String,
    pub target_path: String,
    pub bytes: u64,
}

/// A planned removal as text.
pub struct TargetCleanupView {
    pub project_name: Seq<char>,
    pub project_path: Seq<char>,
    pub target_path: Seq<char>,
    pub bytes: u64,
}

impl View for TargetCleanup {
    type V = TargetCleanupView;

    open spec fn view(&self) -> TargetCleanupView {
        TargetCleanupView {
            project_name: self.project_name@,
            project_path: self.project_path@,
            target_path: self.target_path@,
            bytes: self.bytes,
        }
    }
}

/// The views of the planned removals.
pub open spec fn item_views(v: Seq<TargetCleanup>) -> Seq<TargetCleanupView> {
    v.map_values(|t: TargetCleanup| t@)
}

/// The removal planned for a project: its `target/` directory.
pub open spec fn cleanup_of(p: RustProject) -> TargetCleanupView {
    TargetCleanupView {
        project_name: p.name@,
        project_path: p.path@,
        target_path: path_join(p.path@, "target"@),
        bytes: p.target_bytes,
    }
}

/// The removals planned for the projects: one per project whose `target/`
/// holds something, in order.
pub open spec fn plan_items_spec(ps: Seq<RustProject>) -> Seq<TargetCleanupView>
    decreases ps.len(),
{
    if ps.len() == 0 {
        seq![]
    } else if ps.last().target_bytes == 0 {
        plan_items_spec(ps.drop_last())
    } else {
        plan_items_spec(ps.drop_last()).push(cleanup_of(ps.last()))
    }
}

/// The total size of the planned removals.
pub open spec fn items_total(v: Seq<TargetCleanupView>) -> nat
    decreases v.len(),
{
    if v.len() == 0 {
        0
    } else {
        items_total(v.drop_last()) + v.last().bytes as nat
    }
}

/// The summary line of one removal.
pub open spec fn item_text(t: TargetCleanupView) -> Seq<char> {
    t.project_name + "\n  target/ "@ + pad_left(format_bytes_spec(t.bytes as nat), 9) + "  "@
        + t.target_path + "\n"@
}

/// The summary lines of the removals, in order.
pub open spec fn items_text(v: Seq<TargetCleanupView>) -> Seq<char>
    decreases v.len(),
{
    if v.len() == 0 {
        seq![]
    } else {
        items_text(v.drop_last()) + item_text(v.last())
    }
}

/// The plan summary: a fixed sentence when nothing is planned; otherwise
/// each removal, the estimated space and why removal is safe.
pub open spec fn render_plan_spec(plan: CleanPlan) -> Seq<char> {
    if plan.items@.len() == 0 {
        "No target/ directories found. No files will be deleted."@
    } else {
        "The following Rust build artifact directories will be removed:\n\n"@ + items_text(
            item_views(plan.items@),
        ) + "\nEstimated reclaimable space: "@ + format_bytes_spec(plan.total_bytes as nat)
            + "\n\n"@
            + "Safety: target/ contains Cargo build artifacts. Removing it is normally safe because Cargo rebuilds it, but the next build may take longer and any manually placed files under target/ will be lost."@
    }
}

proof fn lemma_items_total(ps: Seq<RustProject>)
    ensures
        items_total(plan_items_spec(ps)) == total_target_bytes(ps),
    decreases ps.len(),
{
    if ps.len() > 0 {
        lemma_items_total(ps.drop_last());
        let prev = plan_items_spec(ps.drop_last());
        if ps.last().target_bytes != 0 {
            assert(plan_items_spec(ps).drop_last() == prev);
            assert(plan_items_spec(ps).last() == cleanup_of(ps.last()));
        }
    }
}

proof fn lemma_total_prefix(ps: Seq<RustProject>, k: int)
    requires
        0 <= k <= ps.len(),
    ensures
        total_target_bytes(ps.subrange(0, k)) <= total_target_bytes(ps),
    decreases ps.len() - k,
{
    if k < ps.len() {
        lemma_total_prefix(ps, k + 1);
        assert(ps.subrange(0, k + 1).drop_last() == ps.subrange(0, k));
    } else {
        assert(ps.subrange(0, k) == ps);
    }
}

/// The removals for the discovered projects: each project with a non-empty
/// `target/`, and their total size.
pub fn plan(projects: &[RustProject]) -> (r: CleanPlan)
    requires
        total_target_bytes(projects@) <= u64::MAX,
    ensures
        item_views(r.items@) == plan_items_spec(projects@),
        r.total_bytes == total_target_bytes(projects@),
        r.total_bytes == items_total(item_views(r.items@)),
{
    let mut items: Vec<TargetCleanup> = Vec::new();
    let mut total: u64 = 0;
    let mut i: usize = 0;
    assert(item_views(items@) =~= Seq::<TargetCleanupView>::empty());
    while i < projects.len()
        invariant
            i <= projects@.len(),
            total_target_bytes(projects@) <= u64::MAX,
            item_views(items@) == plan_items_spec(projects@.subrange(0, i as int)),
            total == total_target_bytes(projects@.subrange(0, i as int)),
        decreases projects@.len() - i,
    {
        proof {
            assert(projects@.subrange(0, i + 1).drop_last() == projects@.subrange(0, i as int));
            assert(projects@.subrange(0, i + 1).last() == projects@[i as int]);
            lemma_total_prefix(projects@, i + 1);
        }
        let p = &projects[i];
        if p.target_bytes != 0 {
            let item = TargetCleanup {
                project_name: p.name.clone(),
                target_path: join(p.path.as_str(), "target"),
                project_path: p.path.clone(),
                bytes: p.target_bytes,
            };
            let ghost before = items@;
            items.push(item);
            assert(item_views(items@) == item_views(before).push(cleanup_of(*p)));
        }
        total = total + p.target_bytes;
        i = i + 1;
    }
    assert(projects@.subrange(0, projects@.len() as int) == projects@);
    proof {
        lemma_items_total(projects@);
    }
    CleanPlan { items, total_bytes: total }
}

/// Appends the summary line of one removal.
fn push_item(output: &mut String, t: &TargetCleanup)
    ensures
        final(output)@ == old(output)@ + item_text(t@),
{
    let ghost start = output@;
    push_str(output, t.project_name.as_str());
    push_str(output, "\n  target/ ");
    let b = chars_of(format_bytes(t.bytes).as_str());
    push_padded_left(output, b.as_slice(), 9);
    push_str(output, "  ");
    push_str(output, t.target_path.as_str());
    push_str(output, "\n");
    assert(output@ =~= start + item_text(t@));
}

/// The plan summary, as `render_plan_spec` describes it.
pub fn render_plan(plan: &CleanPlan) -> (r: String)
    ensures
        r@ == render_plan_spec(*plan),
{
    if plan.items.len() == 0 {
        return owned("No target/ directories found. No files will be deleted.");
    }
    let mut output = owned("The following Rust build artifact directories will be removed:\n\n");
    let ghost head = output@;
    let ghost iv = item_views(plan.items@);
    let mut i: usize = 0;
    while i < plan.items.len()
        invariant
            i <= plan.items@.len(),
            iv == item_views(plan.items@),
            output@ == head + items_text(iv.subrange(0, i as int)),
        decreases plan.items@.len() - i,
    {
        proof {
            assert(iv.subrange(0, i + 1).drop_last() == iv.subrange(0, i as int));
            assert(iv.subrange(0, i + 1).last() == plan.items@[i as int]@);
        }
        push_item(&mut output, &plan.items[i]);
        i = i + 1;
        assert(output@ =~= head + items_text(iv.subrange(0, i as int)));
    }
    assert(iv.subrange(0, iv.len() as int) == iv);
    push_str(&mut output, "\nEstimated reclaimable space: ");
    let t = format_bytes(plan.total_bytes);
    push_str(&mut output, t.as_str());
    push_str(&mut output, "\n\n");
    push_str(
        &mut output,
        "Safety: target/ contains Cargo build artifacts. Removing it is normally safe because Cargo rebuilds it, but the next build may take longer and any manually placed files under target/ will be lost.",
    );
    output
}

/// Only a directory named `target` may be removed.
pub open spec fn removal_allowed(target_path: Seq<char>) -> bool {
    path_file_name(target_path) == Some("target"@)
}

/// Checks a planned path before removal: an error names any path whose
/// final component is not `target`.
pub fn check_removal(target_path: &str) -> (r: Result<(), String>)
    ensures
        r is Ok <==> removal_allowed(target_path@),
        r matches Err(e) ==> e@ == "refusing to delete non-target path: "@ + target_path@,
{
    let ok = match file_name(target_path) {
        Some(n) => chars_eq_str(n.as_slice(), "target"),
        None => false,
    };
    if ok {
        Ok(())
    } else {
        let mut e = owned("refusing to delete non-target path: ");
        push_str(&mut e, target_path);
        Err(e)
    }
}

/// Every removal a plan holds passes the check made before removal: only
/// `target/` directories are ever removed.
pub proof fn lemma_planned_removals_allowed(projects: Seq<RustProject>)
    ensures
        forall|i: int|
            0 <= i < plan_items_spec(projects).len() ==> removal_allowed(
                #[trigger] plan_items_spec(projects)[i].target_path,
            ),
    decreases projects.len(),
{
    if projects.len() > 0 {
        lemma_planned_removals_allowed(projects.drop_last());
        reveal_strlit("target");
        assert(is_plain_name("target"@)) by {
            assert(!crate::text::has_char("target"@, '/'));
        }
        lemma_join_file_name(projects.last().path@, "target"@);
        let prev = plan_items_spec(projects.drop_last());
        let cur = plan_items_spec(projects);
        assert forall|i: int| 0 <= i < cur.len() implies removal_allowed(
            #[trigger] cur[i].target_path,
        ) by {
            if i < prev.len() {
                assert(cur[i] == prev[i]);
            }
        }
    }
}

proof fn lemma_items_text_prefix(v: Seq<TargetCleanupView>, k: int)
    requires
        0 <= k <= v.len(),
    ensures
        items_text(v.take(k)).len() <= items_text(v).len(),
        items_text(v).subrange(0, items_text(v.take(k)).len() as int) == items_text(v.take(k)),
    decreases v.len() - k,
{
    if k == v.len() {
        assert(v.take(k) == v);
        assert(items_text(v).subrange(0, items_text(v).len() as int) == items_text(v));
    } else {
        lemma_items_text_prefix(v, k + 1);
        assert(v.take(k + 1).drop_last() == v.take(k));
        let a = items_text(v.take(k));
        let b = items_text(v.take(k + 1));
        assert(b == a + item_text(v.take(k + 1).last()));
        assert(items_text(v).subrange(0, a.len() as int) =~= b.subrange(0, a.len() as int));
        assert(b.subrange(0, a.len() as int) =~= a);
    }
}

/// The plan summary lists every planned removal once, in plan order: the
/// block of the `i`-th removal, which names its project, its size and its
/// `target/` path, follows the heading and the blocks of the removals
/// before it.
pub proof fn lemma_plan_lists_every_item(plan: CleanPlan, i: int)
    requires
        0 <= i < plan.items@.len(),
    ensures
        ({
            let t = render_plan_spec(plan);
            let item = plan.items@[i];
            let line = item.project_name@ + "\n  target/ "@ + pad_left(
                format_bytes_spec(item.bytes as nat),
                9,
            ) + "  "@ + item.target_path@ + "\n"@;
            let off = "The following Rust build artifact directories will be removed:\n\n"@.len()
                + items_text(item_views(plan.items@).take(i)).len();
            &&& off + line.len() <= t.len()
            &&& t.subrange(off as int, (off + line.len()) as int) == line
        }),
{
    let v = item_views(plan.items@);
    let head = "The following Rust build artifact directories will be removed:\n\n"@;
    let item = plan.items@[i];
    let line = item_text(v[i]);
    lemma_items_text_prefix(v, i + 1);
    assert(v.take(i + 1).drop_last() == v.take(i));
    assert(v.take(i + 1).last() == v[i]);
    let a = items_text(v.take(i));
    let b = items_text(v.take(i + 1));
    assert(b == a + line);
    let t = render_plan_spec(plan);
    let rest = "\nEstimated reclaimable space: "@ + format_bytes_spec(plan.total_bytes as nat)
        + "\n\n"@
        + "Safety: target/ contains Cargo build artifacts. Removing it is normally safe because Cargo rebuilds it, but the next build may take longer and any manually placed files under target/ will be lost."@;
    assert(t == head + items_text(v) + rest);
    let off = head.len() + a.len();
    assert(t.subrange(off as int, (off + line.len()) as int) =~= items_text(v).subrange(
        a.len() as int,
        (a.len() + line.len()) as int,
    ));
    assert(items_text(v).subrange(a.len() as int, (a.len() + line.len()) as int) =~= b.subrange(
        a.len() as int,
        (a.len() + line.len()) as int,
    ));
}

} // verus!
