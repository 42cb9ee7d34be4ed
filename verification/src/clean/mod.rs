//! Cleanup commands: what to show, when to ask, and what to report.
pub mod shared;
pub mod target;

use vstd::prelude::*;

use crate::cli::{CleanSharedOptions, CleanTargetOptions};
use crate::text::{
    chars_eq_str, chars_of, decimal, owned, push_decimal, push_str, trim, trim_end, trim_start,
    trimmed,
};
use crate::{format_bytes, format_bytes_spec};

verus! {

/// The next step of a cleanup command.
#[derive(Debug, Clone, PartialEq, Eq)]
pub enum CleanupStep {
    /// Nothing is deleted: print this text and stop.
    Report(String),
    /// Delete without asking, then print this text.
    DeleteThenReport(String),
    /// Print `summary` on a line of its own, then `prompt`, and read an
    /// answer; `deleted` is reported if the deletion goes ahead.
    Confirm { summary: String, prompt: String, deleted: String },
}

/// The outcome of a confirmation answer.
#[derive(Debug, Clone, PartialEq, Eq)]
pub enum ConfirmOutcome {
    /// Nothing is deleted: print this text.
    Abort(String),
    /// Delete, then print this text.
    Delete(String),
}

/// A cleanup step as text.
pub enum CleanupStepView {
    Report(Seq<char>),
    DeleteThenReport(Seq<char>),
    Confirm(Seq<char>, Seq<char>, Seq<char>),
}

/// A confirmation outcome as text.
pub enum ConfirmOutcomeView {
    Abort(Seq<char>),
    Delete(Seq<char>),
}

impl View for CleanupStep {
    type V = CleanupStepView;

    open spec fn view(&self) -> CleanupStepView {
        match self {
            CleanupStep::Report(s) => CleanupStepView::Report(s@),
            CleanupStep::DeleteThenReport(s) => CleanupStepView::DeleteThenReport(s@),
            CleanupStep::Confirm { summary, prompt, deleted } => CleanupStepView::Confirm(
                summary@,
                prompt@,
                deleted@,
            ),
        }
    }
}

impl View for ConfirmOutcome {
    type V = ConfirmOutcomeView;

    open spec fn view(&self) -> ConfirmOutcomeView {
        match self {
            ConfirmOutcome::Abort(s) => ConfirmOutcomeView::Abort(s@),
            ConfirmOutcome::Delete(s) => ConfirmOutcomeView::Delete(s@),
        }
    }
}

/// Deleting a plan once it is shown: at once with `--yes` (reporting the
/// summary and what was deleted), otherwise after asking.
pub open spec fn confirmed_step(
    summary: Seq<char>,
    prompt: Seq<char>,
    deleted: Seq<char>,
    yes: bool,
) -> CleanupStepView {
    if yes {
        CleanupStepView::DeleteThenReport(summary + "\n\n"@ + deleted)
    } else {
        CleanupStepView::Confirm(summary, prompt, deleted)
    }
}

/// The note added to a dry run.
pub open spec fn dry_run_note() -> Seq<char> {
    "\n\nDry run: no files were deleted.\n\nRun 'disk-maint clean target' to review and confirm deletion,\nor 'disk-maint clean target --yes' to delete without prompting."@
}

/// What `clean target` reports once it has deleted.
pub open spec fn target_deleted_text(count: nat, total: u64) -> Seq<char> {
    "Deleted "@ + decimal(count) + " target/ directories.\nReclaimed approximately "@
        + format_bytes_spec(total as nat) + "."@
}

/// The first step of `clean target`: report when nothing is planned or on a
/// dry run; otherwise delete, at once with `--yes` or after asking.
pub open spec fn target_step_spec(plan: target::CleanPlan, options: CleanTargetOptions) -> CleanupStepView {
    let summary = target::render_plan_spec(plan);
    if plan.items@.len() == 0 {
        CleanupStepView::Report(summary)
    } else if options.dry_run {
        CleanupStepView::Report(summary + dry_run_note())
    } else {
        confirmed_step(
            summary,
            "Delete these target/ directories? Type 'yes' to continue: "@,
            target_deleted_text(plan.items@.len(), plan.total_bytes),
            options.yes,
        )
    }
}

/// What `clean shared` reports once it has deleted.
pub open spec fn shared_deleted_text(total: u64) -> Seq<char> {
    "Deleted shared Cargo target directory.\nReclaimed approximately "@ + format_bytes_spec(
        total as nat,
    ) + "."@
}

/// The first step of `clean shared`: report when there is no shared target
/// directory; otherwise delete, at once with `--yes` or after asking.
pub open spec fn shared_step_spec(plan: shared::CleanPlan, options: CleanSharedOptions) -> CleanupStepView {
    let summary = shared::render_plan_spec(plan);
    if plan.target_path is None {
        CleanupStepView::Report(summary)
    } else {
        confirmed_step(
            summary,
            "Delete the shared Cargo target directory? Type 'yes' to continue: "@,
            shared_deleted_text(plan.total_bytes),
            options.yes,
        )
    }
}

/// Whether an answer confirms: `yes`, ignoring surrounding whitespace.
pub open spec fn is_confirmation(answer: Seq<char>) -> bool {
    trim(answer) == "yes"@
}

/// The outcome of an answer: delete (and report `deleted`) only on
/// confirmation; otherwise abort with a fixed message.
pub open spec fn confirm_spec(answer: Seq<char>, deleted: Seq<char>) -> ConfirmOutcomeView {
    if is_confirmation(answer) {
        ConfirmOutcomeView::Delete(deleted)
    } else {
        ConfirmOutcomeView::Abort("Aborted. No files were deleted."@)
    }
}

/// The step for a shown plan.
fn confirmed(summary: String, prompt: &str, deleted: String, yes: bool) -> (r: CleanupStep)
    ensures
        r@ == confirmed_step(summary@, prompt@, deleted@, yes),
{
    if yes {
        let mut s = summary;
        push_str(&mut s, "\n\n");
        push_str(&mut s, deleted.as_str());
        CleanupStep::DeleteThenReport(s)
    } else {
        CleanupStep::Confirm { summary, prompt: owned(prompt), deleted }
    }
}

/// The first step of `clean target`, as `target_step_spec` describes it.
pub fn begin_target_cleanup(plan: &target::CleanPlan, options: CleanTargetOptions) -> (r: CleanupStep)
    ensures
        r@ == target_step_spec(*plan, options),
{
    let summary = target::render_plan(plan);
    if plan.items.len() == 0 {
        return CleanupStep::Report(summary);
    }
    if options.dry_run {
        let mut s = summary;
        push_str(
            &mut s,
            "\n\nDry run: no files were deleted.\n\nRun 'disk-maint clean target' to review and confirm deletion,\nor 'disk-maint clean target --yes' to delete without prompting.",
        );
        return CleanupStep::Report(s);
    }
    let mut deleted = owned("Deleted ");
    push_decimal(&mut deleted, plan.items.len() as u128);
    push_str(&mut deleted, " target/ directories.\nReclaimed approximately ");
    let t = format_bytes(plan.total_bytes);
    push_str(&mut deleted, t.as_str());
    push_str(&mut deleted, ".");
    confirmed(
        summary,
        "Delete these target/ directories? Type 'yes' to continue: ",
        deleted,
        options.yes,
    )
}

/// The first step of `clean shared`, as `shared_step_spec` describes it.
pub fn begin_shared_cleanup(plan: &shared::CleanPlan, options: CleanSharedOptions) -> (r: CleanupStep)
    ensures
        r@ == shared_step_spec(*plan, options),
{
    let summary = shared::render_plan(plan);
    if plan.target_path.is_none() {
        return CleanupStep::Report(summary);
    }
    let mut deleted = owned("Deleted shared Cargo target directory.\nReclaimed approximately ");
    let t = format_bytes(plan.total_bytes);
    push_str(&mut deleted, t.as_str());
    push_str(&mut deleted, ".");
    confirmed(
        summary,
        "Delete the shared Cargo target directory? Type 'yes' to continue: ",
        deleted,
        options.yes,
    )
}

/// The outcome of a confirmation answer, as `confirm_spec` describes it.
pub fn confirm(answer: &str, deleted: String) -> (r: ConfirmOutcome)
    ensures
        r@ == confirm_spec(answer@, deleted@),
{
    let v = chars_of(answer);
    let t = trimmed(v.as_slice());
    if chars_eq_str(t.as_slice(), "yes") {
        ConfirmOutcome::Delete(deleted)
    } else {
        ConfirmOutcome::Abort(owned("Aborted. No files were deleted."))
    }
}

/// `clean target` deletes without asking only when `--yes` was given, never
/// on a dry run and never when nothing is planned; whatever it does first,
/// it shows the plan summary.
pub proof fn lemma_target_deletes_only_with_consent(
    plan: target::CleanPlan,
    options: CleanTargetOptions,
)
    ensures
        target_step_spec(plan, options) is DeleteThenReport ==> options.yes && !options.dry_run
            && plan.items@.len() > 0,
        options.dry_run || plan.items@.len() == 0 ==> target_step_spec(plan, options) is Report,
        match target_step_spec(plan, options) {
            CleanupStepView::Report(t) => t.subrange(0, target::render_plan_spec(plan).len() as int)
                == target::render_plan_spec(plan),
            CleanupStepView::DeleteThenReport(t) => t.subrange(
                0,
                target::render_plan_spec(plan).len() as int,
            ) == target::render_plan_spec(plan),
            CleanupStepView::Confirm(summary, _, _) => summary == target::render_plan_spec(plan),
        },
{
    let summary = target::render_plan_spec(plan);
    assert(summary.subrange(0, summary.len() as int) == summary);
    assert((summary + dry_run_note()).subrange(0, summary.len() as int) == summary);
    let deleted = target_deleted_text(plan.items@.len(), plan.total_bytes);
    assert((summary + "\n\n"@ + deleted).subrange(0, summary.len() as int) == summary);
}

/// `clean shared` deletes without asking only when `--yes` was given and a
/// shared target directory exists; whatever it does first, it shows the
/// plan summary.
pub proof fn lemma_shared_deletes_only_with_consent(
    plan: shared::CleanPlan,
    options: CleanSharedOptions,
)
    ensures
        shared_step_spec(plan, options) is DeleteThenReport ==> options.yes
            && plan.target_path is Some,
        plan.target_path is None ==> shared_step_spec(plan, options) is Report,
        match shared_step_spec(plan, options) {
            CleanupStepView::Report(t) => t == shared::render_plan_spec(plan),
            CleanupStepView::DeleteThenReport(t) => t.subrange(
                0,
                shared::render_plan_spec(plan).len() as int,
            ) == shared::render_plan_spec(plan),
            CleanupStepView::Confirm(summary, _, _) => summary == shared::render_plan_spec(plan),
        },
{
    let summary = shared::render_plan_spec(plan);
    let deleted = shared_deleted_text(plan.total_bytes);
    assert((summary + "\n\n"@ + deleted).subrange(0, summary.len() as int) == summary);
}

/// Only the answer `yes` (surrounding whitespace aside) deletes; any other
/// answer, the empty one included, aborts with nothing deleted.
pub proof fn lemma_only_yes_confirms(answer: Seq<char>, deleted: Seq<char>)
    ensures
        confirm_spec(answer, deleted) is Delete <==> trim(answer) == "yes"@,
        confirm_spec("yes"@, deleted) == ConfirmOutcomeView::Delete(deleted),
        confirm_spec(seq![], deleted) is Abort,
{
    reveal_strlit("yes");
    assert(trim_start("yes"@) == "yes"@);
    assert(trim_end("yes"@) == "yes"@);
    assert(trim_start(seq![]) == Seq::<char>::empty());
    assert(trim_end(seq![]) == Seq::<char>::empty());
}

} // verus!
