//! Going back to the accepted state after an apply that was cut short, the
//! confirmation of a change that waits for it, and what is done when the
//! appliance starts.

use crate::apply::{lemma_reply_keys, principal_json, principal_value, refusal, refuse};
use crate::desired::{DesiredState, DesiredView};
use crate::identity::{Principal, PrincipalView};
use crate::journal::{
    awaits_confirmation, copy_bytes, copy_principal, is_expired, pending_error, principal_opt,
    requires_recovery, ApplyAttribution, ApplyOperation, ApplyPhase, AttributionView, Journal,
    JournalView, OperationView, RecoveryTarget,
};
use crate::json::{text_or_null, Json, JsonView};
use crate::nft;
use crate::nft::{lockdown_lines, ruleset};
use crate::text;
use crate::text::{add_text, copy_opt, failure, is_text, lines_text, texts};
use vstd::prelude::*;

verus! {

// ---------------------------------------------------------------------------
// Stopping forwarding
// ---------------------------------------------------------------------------

/// The rule sets that stop forwarding, to be tried one after the other until
/// one is in place: that of the state to go back to, which also says what may
/// come in, and one that lets nothing in.
pub open spec fn guard_scripts(target: Option<DesiredView>) -> Seq<Seq<char>> {
    match target {
        Some(s) => seq![lines_text(ruleset(s, true)), lines_text(lockdown_lines())],
        None => seq![lines_text(lockdown_lines())],
    }
}

/// The rule sets that stop forwarding.
pub fn require_recovery_guard(target: &Result<RecoveryTarget, String>) -> (r: Vec<String>)
    ensures
        texts(r@) == guard_scripts(
            match *target {
                Ok(t) => Some(t.operation.accepted@),
                Err(_) => None,
            },
        ),
{
    let mut out: Vec<String> = Vec::new();
    if let Ok(t) = target {
        add_text(&mut out, nft::nft_rules_with_recovery_guard(&t.operation.accepted, true));
    }
    add_text(&mut out, nft::lockdown_nft());
    assert(texts(out@) == guard_scripts(
        match *target {
            Ok(t) => Some(t.operation.accepted@),
            Err(_) => None,
        },
    ));
    out
}

// ---------------------------------------------------------------------------
// Going back
// ---------------------------------------------------------------------------

/// One step of going back.
#[derive(Clone, Copy, Debug, PartialEq, Eq, Structural)]
pub enum RecoveryStep {
    /// Suspend the services.
    Suspend,
    /// Apply the accepted state.
    Apply,
    /// Take the routes away that only the tentative state has.
    Prune,
    /// Write the accepted state.
    Persist,
    /// Put its predecessor back.
    RestorePredecessor,
    /// Put back who made it.
    RestoreAttribution,
    /// Start the services, and wait for them.
    Publish,
    /// Take the record away, and start forwarding.
    Finish,
}

/// The steps of going back; the older kind of record knows no predecessor.
pub open spec fn recovery_plan(legacy: bool, tentative: bool) -> Seq<RecoveryStep> {
    seq![RecoveryStep::Suspend, RecoveryStep::Apply] + (if tentative {
        seq![RecoveryStep::Prune]
    } else {
        Seq::empty()
    }) + seq![RecoveryStep::Persist] + (if legacy {
        Seq::empty()
    } else {
        seq![RecoveryStep::RestorePredecessor, RecoveryStep::RestoreAttribution]
    }) + seq![RecoveryStep::Publish, RecoveryStep::Finish]
}

/// The steps of going back, each to be done only where the one before was.
pub fn recover_interrupted_apply(legacy: bool, tentative: bool) -> (r: Vec<RecoveryStep>)
    ensures
        r@ == recovery_plan(legacy, tentative),
{
    let mut plan: Vec<RecoveryStep> = Vec::new();
    plan.push(RecoveryStep::Suspend);
    plan.push(RecoveryStep::Apply);
    if tentative {
        plan.push(RecoveryStep::Prune);
    }
    plan.push(RecoveryStep::Persist);
    if !legacy {
        plan.push(RecoveryStep::RestorePredecessor);
        plan.push(RecoveryStep::RestoreAttribution);
    }
    plan.push(RecoveryStep::Publish);
    plan.push(RecoveryStep::Finish);
    assert(plan@ == recovery_plan(legacy, tentative));
    plan
}

/// Whether only forwarding has to be started: the record is gone, and so
/// everything else was done before.
pub fn only_reopen(flag: bool, record: bool, legacy: bool) -> (r: bool)
    ensures
        r == (flag && !record && !legacy),
{
    flag && !record && !legacy
}

/// Forwarding is started last of all, when the accepted state is applied and
/// written and the services are running.
pub proof fn law_recovery_finishes_last(legacy: bool, tentative: bool)
    ensures
        recovery_plan(legacy, tentative).last() == RecoveryStep::Finish,
        recovery_plan(legacy, tentative).contains(RecoveryStep::Apply),
        recovery_plan(legacy, tentative).contains(RecoveryStep::Persist),
        recovery_plan(legacy, tentative).contains(RecoveryStep::Publish),
        forall|k: int|
            0 <= k < recovery_plan(legacy, tentative).len() - 1 ==> #[trigger] recovery_plan(
                legacy,
                tentative,
            )[k] != RecoveryStep::Finish,
{
    let p = recovery_plan(legacy, tentative);
    assert(p[1] == RecoveryStep::Apply);
    assert(p[2] == RecoveryStep::Persist || p[3] == RecoveryStep::Persist);
    assert(p[p.len() - 2] == RecoveryStep::Publish);
}

/// How far the end of going back has come.
#[derive(Clone, Copy, Debug, PartialEq, Eq, Structural)]
pub enum FinishStage {
    /// The record is being taken away.
    Removing,
    /// That failed: forwarding is being stopped.
    RemoveGuard,
    /// Forwarding is being started.
    Opening,
    /// That failed: forwarding is being stopped.
    OpenGuard,
    Closed,
}

/// The end of going back.
pub struct Finish {
    pub stage: FinishStage,
    pub error: String,
}

/// What is to be done next.
pub enum FinishAction {
    RemoveRecord,
    /// Put the rules without the guard in place.
    Open,
    RequireGuard,
    /// All is done; where it succeeded, the appliance has recovered.
    Done(Result<(), String>),
}

pub enum FinishActionView {
    RemoveRecord,
    Open,
    RequireGuard,
    Done(Option<Seq<char>>),
}

impl View for FinishAction {
    type V = FinishActionView;

    open spec fn view(&self) -> FinishActionView {
        match self {
            FinishAction::RemoveRecord => FinishActionView::RemoveRecord,
            FinishAction::Open => FinishActionView::Open,
            FinishAction::RequireGuard => FinishActionView::RequireGuard,
            FinishAction::Done(r) => FinishActionView::Done(failure(*r)),
        }
    }
}

/// How the end goes on: `r` is what came of the last action, `debug` how that
/// reads in a report.
pub open spec fn finish_next(stage: FinishStage, error: Seq<char>, r: Option<Seq<char>>, debug: Seq<char>) -> (
    FinishStage,
    Seq<char>,
    FinishActionView,
) {
    match stage {
        FinishStage::Removing => match r {
            None => (FinishStage::Opening, error, FinishActionView::Open),
            Some(e) => (FinishStage::RemoveGuard, e, FinishActionView::RequireGuard),
        },
        FinishStage::Opening => match r {
            None => (FinishStage::Closed, error, FinishActionView::Done(None)),
            Some(e) => (FinishStage::OpenGuard, e, FinishActionView::RequireGuard),
        },
        FinishStage::RemoveGuard => (
            FinishStage::Closed,
            error,
            FinishActionView::Done(
                Some("complete interrupted apply recovery: "@ + error + "; guard: "@ + debug),
            ),
        ),
        FinishStage::OpenGuard => (
            FinishStage::Closed,
            error,
            FinishActionView::Done(
                Some("reopen restored forwarding: "@ + error + "; guard: "@ + debug),
            ),
        ),
        FinishStage::Closed => (
            FinishStage::Closed,
            error,
            FinishActionView::Done(Some("recovery is over"@)),
        ),
    }
}

impl Finish {
    /// The end from the start, or from the start of forwarding.
    pub fn begin(reopen: bool) -> (r: (Finish, FinishAction))
        ensures
            r.0.stage == if reopen {
                FinishStage::Opening
            } else {
                FinishStage::Removing
            },
            r.1@ == if reopen {
                FinishActionView::Open
            } else {
                FinishActionView::RemoveRecord
            },
    {
        if reopen {
            (Finish { stage: FinishStage::Opening, error: String::new() }, FinishAction::Open)
        } else {
            (
                Finish { stage: FinishStage::Removing, error: String::new() },
                FinishAction::RemoveRecord,
            )
        }
    }

    /// How the end goes on.
    pub fn next(self, r: Result<(), String>, debug: &str) -> (n: (Finish, FinishAction))
        ensures
            (n.0.stage, n.0.error@, n.1@) == finish_next(self.stage, self.error@, failure(r), debug@),
    {
        match self.stage {
            FinishStage::Removing => match r {
                Ok(_) => (Finish { stage: FinishStage::Opening, ..self }, FinishAction::Open),
                Err(error) => (
                    Finish { stage: FinishStage::RemoveGuard, error },
                    FinishAction::RequireGuard,
                ),
            },
            FinishStage::Opening => match r {
                Ok(_) => (Finish { stage: FinishStage::Closed, ..self }, FinishAction::Done(Ok(()))),
                Err(error) => (
                    Finish { stage: FinishStage::OpenGuard, error },
                    FinishAction::RequireGuard,
                ),
            },
            FinishStage::RemoveGuard => {
                let e = "complete interrupted apply recovery: ".to_owned().concat(
                    self.error.as_str(),
                ).concat("; guard: ").concat(debug);
                (Finish { stage: FinishStage::Closed, ..self }, FinishAction::Done(Err(e)))
            },
            FinishStage::OpenGuard => {
                let e = "reopen restored forwarding: ".to_owned().concat(self.error.as_str()).concat(
                    "; guard: ",
                ).concat(debug);
                (Finish { stage: FinishStage::Closed, ..self }, FinishAction::Done(Err(e)))
            },
            FinishStage::Closed => (self, FinishAction::Done(Err("recovery is over".to_owned()))),
        }
    }
}

/// Forwarding is started only once the record is gone, and where that fails it
/// is stopped again before anything is reported.
pub proof fn law_forwarding_starts_after_the_record_is_gone(
    stage: FinishStage,
    error: Seq<char>,
    r: Option<Seq<char>>,
    debug: Seq<char>,
)
    requires
        stage != FinishStage::Closed,
    ensures
        finish_next(stage, error, r, debug).2 is Open ==> stage == FinishStage::Removing && r is None,
        finish_next(stage, error, r, debug).2 == FinishActionView::Done(None) ==> stage
            == FinishStage::Opening && r is None,
        r is Some && (stage == FinishStage::Removing || stage == FinishStage::Opening) ==> finish_next(
            stage,
            error,
            r,
            debug,
        ).2 is RequireGuard,
{
}

// ---------------------------------------------------------------------------
// Starting up
// ---------------------------------------------------------------------------

/// One step of starting up.
#[derive(Clone, Copy, Debug, PartialEq, Eq, Structural)]
pub enum StartStep {
    /// Stop forwarding; where that fails, the appliance does not start.
    Guard,
    /// Put the rules for the host's own traffic in place.
    HostPull,
    /// Take down what an attempt to take ownership left behind.
    RecoverBootstrap,
    /// Go back to the accepted state; a failure is reported and left for an
    /// administrator.
    RecoverApply,
    /// Apply the accepted state and write it.
    ApplyAccepted,
    /// Start the services, where nothing has to be recovered.
    StartServices,
    /// Take the record of an apply away that was accepted.
    RemoveRecord,
    /// Close the web interface, and carry out the first-boot choice.
    FirstBoot,
}

/// Whether an apply was cut short.
pub open spec fn interrupted(bootstrapped: bool, j: JournalView, legacy: bool) -> bool {
    bootstrapped && (requires_recovery(j) || awaits_confirmation(j) || pending_error(j) is Some || legacy)
}

/// The steps of starting up. An appliance without an owner has no state left
/// when what an attempt to take ownership left behind is gone.
pub open spec fn start_plan(bootstrapped: bool, j: JournalView, legacy: bool, has_state: bool) -> Seq<
    StartStep,
> {
    let cut = interrupted(bootstrapped, j, legacy);
    (if cut {
        seq![StartStep::Guard, StartStep::HostPull]
    } else {
        seq![StartStep::HostPull]
    }) + (if bootstrapped {
        Seq::empty()
    } else {
        seq![StartStep::RecoverBootstrap]
    }) + (if cut {
        seq![StartStep::RecoverApply]
    } else if bootstrapped && has_state {
        seq![StartStep::ApplyAccepted, StartStep::StartServices] + (if !(j is Absent) && !requires_recovery(j) {
            seq![StartStep::RemoveRecord]
        } else {
            Seq::empty()
        })
    } else {
        seq![StartStep::FirstBoot]
    })
}

fn was_interrupted(bootstrapped: bool, j: &Journal, legacy: bool) -> (r: bool)
    ensures
        r == interrupted(bootstrapped, j@, legacy),
{
    let found = match j {
        Journal::Absent => false,
        Journal::Found(op) => op.phase != ApplyPhase::Accepted,
        _ => true,
    };
    bootstrapped && (found || legacy)
}

/// The steps of starting up, from what is found when it begins.
pub fn start_up(bootstrapped: bool, j: &Journal, legacy: bool, has_state: bool) -> (r: Vec<StartStep>)
    ensures
        r@ == start_plan(bootstrapped, j@, legacy, has_state),
{
    let cut = was_interrupted(bootstrapped, j, legacy);
    let mut plan: Vec<StartStep> = Vec::new();
    if cut {
        plan.push(StartStep::Guard);
    }
    plan.push(StartStep::HostPull);
    if !bootstrapped {
        plan.push(StartStep::RecoverBootstrap);
    }
    if cut {
        plan.push(StartStep::RecoverApply);
    } else if bootstrapped && has_state {
        plan.push(StartStep::ApplyAccepted);
        plan.push(StartStep::StartServices);
        let accepted = match j {
            Journal::Absent => false,
            Journal::Found(op) => op.phase != ApplyPhase::Applying,
            _ => false,
        };
        if accepted {
            plan.push(StartStep::RemoveRecord);
        }
    } else {
        plan.push(StartStep::FirstBoot);
    }
    assert(plan@ == start_plan(bootstrapped, j@, legacy, has_state));
    plan
}

/// An appliance without an owner applies no state when it starts, and starts
/// no services.
pub proof fn law_start_without_an_owner(j: JournalView, legacy: bool, has_state: bool)
    ensures
        start_plan(false, j, legacy, has_state) == seq![
            StartStep::HostPull,
            StartStep::RecoverBootstrap,
            StartStep::FirstBoot,
        ],
{
}

/// After an apply that was cut short, forwarding is stopped before anything
/// else is done, and no other state is applied than the one gone back to.
pub proof fn law_start_is_guarded_after_an_interruption(j: JournalView, legacy: bool, has_state: bool)
    requires
        interrupted(true, j, legacy),
    ensures
        start_plan(true, j, legacy, has_state) == seq![
            StartStep::Guard,
            StartStep::HostPull,
            StartStep::RecoverApply,
        ],
{
}

// ---------------------------------------------------------------------------
// Confirming a change
// ---------------------------------------------------------------------------

/// How far a confirmation has come.
#[derive(Clone, Copy, Debug, PartialEq, Eq, Structural)]
pub enum ConfirmStage {
    /// The record tells no change: forwarding is being stopped.
    Guarding,
    /// The time is over: the accepted state is being gone back to.
    Expiring,
    /// Who made and who confirmed the change is being written.
    Attributing,
    /// The new state is being written.
    Persisting,
    /// The old state is being written as its predecessor.
    Retaining,
    /// The record is being written that makes the new state the accepted one.
    Accepting,
    /// One of these failed: the accepted state is being gone back to.
    Recovering,
    /// The record is being taken away.
    Cleaning,
    Done,
}

/// A confirmation of a change.
pub struct Confirmation {
    pub stage: ConfirmStage,
    pub operation: ApplyOperation,
    pub revision: u64,
    pub confirming: Principal,
    pub error: String,
}

#[verifier::ext_equal]
pub struct ConfirmationView {
    pub stage: ConfirmStage,
    pub operation: OperationView,
    pub revision: u64,
    pub confirming: PrincipalView,
    pub error: Seq<char>,
}

impl View for Confirmation {
    type V = ConfirmationView;

    open spec fn view(&self) -> ConfirmationView {
        ConfirmationView {
            stage: self.stage,
            operation: self.operation@,
            revision: self.revision,
            confirming: self.confirming@,
            error: self.error@,
        }
    }
}

/// What is to be done next.
pub enum ConfirmAction {
    RequireGuard,
    /// Go back to the accepted state.
    Recover,
    /// Write who made and who confirmed the change.
    WriteAttribution,
    /// Write the new state as the accepted one.
    PersistProposed,
    /// Write the old state as the predecessor.
    RetainAccepted,
    /// Write the record of acceptance.
    WriteRecord,
    RemoveRecord,
    Reply(Json),
}

pub enum ConfirmActionView {
    RequireGuard,
    Recover,
    WriteAttribution,
    PersistProposed,
    RetainAccepted,
    WriteRecord,
    RemoveRecord,
    Reply(JsonView),
}

impl View for ConfirmAction {
    type V = ConfirmActionView;

    open spec fn view(&self) -> ConfirmActionView {
        match self {
            ConfirmAction::RequireGuard => ConfirmActionView::RequireGuard,
            ConfirmAction::Recover => ConfirmActionView::Recover,
            ConfirmAction::WriteAttribution => ConfirmActionView::WriteAttribution,
            ConfirmAction::PersistProposed => ConfirmActionView::PersistProposed,
            ConfirmAction::RetainAccepted => ConfirmActionView::RetainAccepted,
            ConfirmAction::WriteRecord => ConfirmActionView::WriteRecord,
            ConfirmAction::RemoveRecord => ConfirmActionView::RemoveRecord,
            ConfirmAction::Reply(j) => ConfirmActionView::Reply(j@),
        }
    }
}

/// Why a confirmation is refused before anything is done about it, if so:
/// something is missing from the request, a recovery is under way, or no such
/// change waits.
pub open spec fn confirm_refusal(
    request: JsonView,
    confirming: Option<PrincipalView>,
    recovering: bool,
    j: JournalView,
) -> Option<JsonView> {
    if request.natural_member("revision"@) is None {
        Some(refusal("rejected"@, None, "pending revision is required"@))
    } else if request.text_member("confirmation_id"@) is None {
        Some(refusal("rejected"@, None, "Apply confirmation ID is required"@))
    } else if confirming is None {
        Some(refusal("rejected"@, None, "current administrator identity is required"@))
    } else if recovering {
        Some(refusal("rejected"@, None, "Apply recovery is in progress"@))
    } else if pending_error(j) is Some {
        Some(refusal("failed"@, None, pending_error(j)->0))
    } else if !awaits_confirmation(j) {
        Some(refusal("rejected"@, None, "no Apply confirmation is pending"@))
    } else {
        let op = j->Found_0;
        if op.proposed is Some && ((op.proposed->0).revision != request.natural_member("revision"@)->0
            || op.confirmation_id != request.text_member("confirmation_id"@)) {
            Some(refusal("rejected"@, None, "pending Apply operation changed"@))
        } else {
            None
        }
    }
}

/// Where a confirmation begins.
pub open spec fn confirm_start(op: OperationView, now: Option<u64>) -> (ConfirmStage, ConfirmActionView) {
    if op.proposed is None {
        (ConfirmStage::Guarding, ConfirmActionView::RequireGuard)
    } else if is_expired(op.deadline_boot_ns, now) {
        (ConfirmStage::Expiring, ConfirmActionView::Recover)
    } else {
        (ConfirmStage::Attributing, ConfirmActionView::WriteAttribution)
    }
}

/// Begins a confirmation, or refuses it.
pub fn confirm_apply(
    request: &Json,
    confirming: Option<Principal>,
    recovering: bool,
    j: Journal,
    now: Result<u64, String>,
) -> (r: Result<(Confirmation, ConfirmAction), Json>)
    ensures
        match r {
            Err(reply) => confirm_refusal(request@, principal_opt(confirming), recovering, j@) == Some(
                reply@,
            ),
            Ok((c, action)) => {
                let op = j@->Found_0;
                let (stage, first) = confirm_start(
                    op,
                    match now {
                        Ok(n) => Some(n),
                        Err(_) => None,
                    },
                );
                &&& confirm_refusal(request@, principal_opt(confirming), recovering, j@) is None
                &&& c@ == (ConfirmationView {
                    stage,
                    operation: op,
                    revision: request@.natural_member("revision"@)->0,
                    confirming: principal_opt(confirming)->0,
                    error: Seq::empty(),
                })
                &&& action@ == first
            },
        },
{
    let revision = match request.natural_member("revision") {
        Some(n) => n,
        None => return Err(refuse("rejected", None, "pending revision is required")),
    };
    let id = match request.text_member("confirmation_id") {
        Some(s) => s,
        None => return Err(refuse("rejected", None, "Apply confirmation ID is required")),
    };
    let confirming = match confirming {
        Some(p) => p,
        None => return Err(
            refuse("rejected", None, "current administrator identity is required"),
        ),
    };
    if recovering {
        return Err(refuse("rejected", None, "Apply recovery is in progress"));
    }
    let operation = match crate::journal::pending_operation(j) {
        Ok(Some(op)) => op,
        Ok(None) => return Err(refuse("rejected", None, "no Apply confirmation is pending")),
        Err(e) => return Err(refuse("failed", None, e.as_str())),
    };
    let error = String::new();
    assert(error@ == Seq::<char>::empty());
    let matched = match &operation.proposed {
        None => {
            return Ok(
                (
                    Confirmation {
                        stage: ConfirmStage::Guarding,
                        operation,
                        revision,
                        confirming,
                        error,
                    },
                    ConfirmAction::RequireGuard,
                ),
            );
        },
        Some(s) => s.revision == revision && is_text(&operation.confirmation_id, id),
    };
    if !matched {
        return Err(refuse("rejected", None, "pending Apply operation changed"));
    }
    let expired = match crate::journal::pending_expired(&operation, now) {
        Ok(b) => b,
        Err(_) => true,
    };
    if expired {
        return Ok(
            (
                Confirmation { stage: ConfirmStage::Expiring, operation, revision, confirming, error },
                ConfirmAction::Recover,
            ),
        );
    }
    Ok(
        (
            Confirmation { stage: ConfirmStage::Attributing, operation, revision, confirming, error },
            ConfirmAction::WriteAttribution,
        ),
    )
}

/// What a recovery is reported as.
pub open spec fn restoration(r: Option<Seq<char>>) -> JsonView {
    JsonView::Text(
        if r is None {
            "restored"@
        } else {
            "required"@
        },
    )
}

fn restoration_value(r: &Result<(), String>) -> (j: Json)
    ensures
        j@ == restoration(failure(*r)),
{
    match r {
        Ok(_) => Json::text("restored"),
        Err(_) => Json::text("required"),
    }
}

/// The reply to a confirmation that came in time.
pub open spec fn confirmed_reply(c: ConfirmationView) -> JsonView {
    JsonView::object().with("ok"@, JsonView::Bool(true)).with("outcome"@, JsonView::Text("accepted"@)).with(
        "status"@,
        JsonView::Text("accepted"@),
    ).with("revision"@, JsonView::Natural(c.revision)).with(
        "applying"@,
        principal_json(c.operation.applying),
    ).with("confirming"@, principal_json(Some(c.confirming)))
}

/// Goes on to the next stage, or back to the accepted state.
pub open spec fn confirm_proceed(
    c: ConfirmationView,
    r: Option<Seq<char>>,
    stage: ConfirmStage,
    action: ConfirmActionView,
) -> (ConfirmationView, ConfirmActionView) {
    match r {
        None => (ConfirmationView { stage, ..c }, action),
        Some(e) => (
            ConfirmationView { stage: ConfirmStage::Recovering, error: e, ..c },
            ConfirmActionView::Recover,
        ),
    }
}

pub open spec fn confirm_reply(c: ConfirmationView, j: JsonView) -> (ConfirmationView, ConfirmActionView) {
    (ConfirmationView { stage: ConfirmStage::Done, ..c }, ConfirmActionView::Reply(j))
}

/// How a confirmation goes on: `r` is what came of the last action.
pub open spec fn confirm_next(c: ConfirmationView, r: Option<Seq<char>>) -> (
    ConfirmationView,
    ConfirmActionView,
) {
    match c.stage {
        ConfirmStage::Guarding => confirm_reply(
            c,
            refusal("failed"@, None, "pending Apply revision is missing"@),
        ),
        ConfirmStage::Expiring => confirm_reply(
            c,
            refusal("rejected"@, None, "Apply confirmation expired"@).with(
                "restoration"@,
                restoration(r),
            ),
        ),
        ConfirmStage::Attributing => confirm_proceed(
            c,
            r,
            ConfirmStage::Persisting,
            ConfirmActionView::PersistProposed,
        ),
        ConfirmStage::Persisting => confirm_proceed(
            c,
            r,
            ConfirmStage::Retaining,
            ConfirmActionView::RetainAccepted,
        ),
        ConfirmStage::Retaining => confirm_proceed(
            c,
            r,
            ConfirmStage::Accepting,
            ConfirmActionView::WriteRecord,
        ),
        ConfirmStage::Accepting => confirm_proceed(
            c,
            r,
            ConfirmStage::Cleaning,
            ConfirmActionView::RemoveRecord,
        ),
        ConfirmStage::Recovering => confirm_reply(
            c,
            refusal("failed"@, None, c.error).with("restoration"@, restoration(r)).with(
                "recovery_error"@,
                text_or_null(r),
            ),
        ),
        ConfirmStage::Cleaning => confirm_reply(c, confirmed_reply(c)),
        ConfirmStage::Done => (c, ConfirmActionView::Reply(JsonView::Null)),
    }
}

/// Who made and who confirmed the change.
pub open spec fn confirmed_attribution(c: ConfirmationView) -> AttributionView {
    AttributionView {
        revision: c.revision,
        applying: c.operation.applying,
        confirming: Some(c.confirming),
        draft_version: c.operation.draft_version,
    }
}

/// The record of acceptance.
pub open spec fn confirmed_record(c: ConfirmationView) -> OperationView {
    OperationView {
        phase: ApplyPhase::Accepted,
        proposed: None,
        confirmation_id: None,
        deadline_boot_ns: None,
        expires_at_unix_ms: None,
        ..c.operation
    }
}

impl Confirmation {
    fn proceed(self, r: Result<(), String>, stage: ConfirmStage, action: ConfirmAction) -> (n: (
        Confirmation,
        ConfirmAction,
    ))
        ensures
            (n.0@, n.1@) == confirm_proceed(self@, failure(r), stage, action@),
    {
        match r {
            Ok(_) => (Confirmation { stage, ..self }, action),
            Err(error) => (
                Confirmation { stage: ConfirmStage::Recovering, error, ..self },
                ConfirmAction::Recover,
            ),
        }
    }

    fn reply(self, j: Json) -> (n: (Confirmation, ConfirmAction))
        ensures
            (n.0@, n.1@) == confirm_reply(self@, j@),
    {
        (Confirmation { stage: ConfirmStage::Done, ..self }, ConfirmAction::Reply(j))
    }

    /// How the confirmation goes on.
    pub fn next(self, r: Result<(), String>) -> (n: (Confirmation, ConfirmAction))
        ensures
            (n.0@, n.1@) == confirm_next(self@, failure(r)),
    {
        match self.stage {
            ConfirmStage::Guarding => self.reply(
                refuse("failed", None, "pending Apply revision is missing"),
            ),
            ConfirmStage::Expiring => self.reply(
                refuse("rejected", None, "Apply confirmation expired").with(
                    "restoration",
                    restoration_value(&r),
                ),
            ),
            ConfirmStage::Attributing => self.proceed(
                r,
                ConfirmStage::Persisting,
                ConfirmAction::PersistProposed,
            ),
            ConfirmStage::Persisting => self.proceed(
                r,
                ConfirmStage::Retaining,
                ConfirmAction::RetainAccepted,
            ),
            ConfirmStage::Retaining => self.proceed(
                r,
                ConfirmStage::Accepting,
                ConfirmAction::WriteRecord,
            ),
            ConfirmStage::Accepting => self.proceed(
                r,
                ConfirmStage::Cleaning,
                ConfirmAction::RemoveRecord,
            ),
            ConfirmStage::Recovering => {
                let j = refuse("failed", None, self.error.as_str()).with(
                    "restoration",
                    restoration_value(&r),
                );
                let j = match &r {
                    Ok(_) => j.with("recovery_error", Json::Null),
                    Err(e) => j.with("recovery_error", Json::text(e.as_str())),
                };
                self.reply(j)
            },
            ConfirmStage::Cleaning => {
                let who = Some(self.confirming.clone());
                let j = Json::object().with("ok", Json::Bool(true)).with(
                    "outcome",
                    Json::text("accepted"),
                ).with("status", Json::text("accepted")).with("revision", Json::Natural(self.revision)).with(
                    "applying",
                    principal_value(&self.operation.applying),
                ).with("confirming", principal_value(&who));
                self.reply(j)
            },
            ConfirmStage::Done => (self, ConfirmAction::Reply(Json::Null)),
        }
    }

    /// Who made and who confirmed the change.
    pub fn attribution(&self) -> (r: ApplyAttribution)
        ensures
            r@ == confirmed_attribution(self@),
    {
        ApplyAttribution {
            revision: self.revision,
            applying: copy_principal(&self.operation.applying),
            confirming: Some(self.confirming.clone()),
            draft_version: copy_opt(&self.operation.draft_version),
        }
    }

    /// The record of acceptance.
    pub fn record(&self) -> (r: ApplyOperation)
        ensures
            r@ == confirmed_record(self@),
    {
        ApplyOperation {
            phase: ApplyPhase::Accepted,
            accepted: self.operation.accepted.clone(),
            previous_accepted: copy_bytes(&self.operation.previous_accepted),
            previous_attribution: copy_bytes(&self.operation.previous_attribution),
            proposed: None,
            confirmation_id: None,
            applying: copy_principal(&self.operation.applying),
            draft_version: copy_opt(&self.operation.draft_version),
            deadline_boot_ns: None,
            expires_at_unix_ms: None,
        }
    }
}

/// A change is confirmed only by the name and revision that it waits under,
/// in time, and by somebody.
pub proof fn law_confirmation_names_the_change(
    request: JsonView,
    confirming: Option<PrincipalView>,
    recovering: bool,
    j: JournalView,
    now: Option<u64>,
)
    requires
        confirm_refusal(request, confirming, recovering, j) is None,
        confirm_start(j->Found_0, now).0 == ConfirmStage::Attributing,
    ensures
        confirming is Some && !recovering && awaits_confirmation(j),
        ((j->Found_0).proposed->0).revision == request.natural_member("revision"@)->0,
        (j->Found_0).confirmation_id == request.text_member("confirmation_id"@),
        (j->Found_0).deadline_boot_ns matches Some(d) && now matches Some(n) && n < d,
{
}

/// The reply that says that a change was accepted comes only once the record
/// of it is written, and that only once everything before it is.
pub proof fn law_confirmation_follows_every_write(c: ConfirmationView, r: Option<Seq<char>>)
    requires
        c.stage != ConfirmStage::Done,
    ensures
        confirm_next(c, r).0.stage == ConfirmStage::Persisting ==> c.stage == ConfirmStage::Attributing && r
            is None,
        confirm_next(c, r).0.stage == ConfirmStage::Retaining ==> c.stage == ConfirmStage::Persisting && r
            is None,
        confirm_next(c, r).0.stage == ConfirmStage::Accepting ==> c.stage == ConfirmStage::Retaining && r
            is None,
        confirm_next(c, r).0.stage == ConfirmStage::Cleaning ==> c.stage == ConfirmStage::Accepting && r
            is None,
        r is Some && (c.stage == ConfirmStage::Attributing || c.stage == ConfirmStage::Persisting || c.stage
            == ConfirmStage::Retaining || c.stage == ConfirmStage::Accepting) ==> confirm_next(c, r).1
            == ConfirmActionView::Recover,
{
}

// ---------------------------------------------------------------------------
// Restoring the state before
// ---------------------------------------------------------------------------

/// What was found where the predecessor of the accepted state is kept.
pub enum PreviousFile {
    Missing,
    Unreadable(String),
    Undecodable(String),
    Found(DesiredState),
}

/// What is done about a request to restore the state before.
pub enum Restore {
    /// Reply.
    Reply(Json),
    /// Go back to the accepted state, and reply as [`recovered`] says.
    Recover,
    /// Apply that state on top of the accepted one of that revision.
    Apply(DesiredState, u64),
}

/// What is known when the state before is to be restored.
pub struct RestoreFacts {
    pub bootstrapped: bool,
    pub recovering: bool,
    pub pending: bool,
    pub accepted: Result<DesiredState, String>,
    pub previous: PreviousFile,
}

/// What is done about a request to restore the state before: the reply, where
/// it is refused.
pub open spec fn restore_refusal(f: RestoreFacts) -> Option<JsonView> {
    if !f.bootstrapped {
        Some(
            refusal("rejected"@, None, "complete Bootstrap before restoring Desired state"@),
        )
    } else if f.recovering {
        None
    } else if f.pending {
        Some(refusal("rejected"@, None, "Apply confirmation is pending"@))
    } else {
        match f.accepted {
            Err(e) => Some(refusal("failed"@, None, e@)),
            Ok(current) => match f.previous {
                PreviousFile::Missing => Some(
                    refusal(
                        "rejected"@,
                        Some(current.revision),
                        "no previous Accepted network revision is available"@,
                    ),
                ),
                PreviousFile::Unreadable(e) => Some(
                    refusal(
                        "failed"@,
                        Some(current.revision),
                        "read previous Accepted network revision: "@ + e@,
                    ),
                ),
                PreviousFile::Undecodable(e) => Some(
                    refusal(
                        "failed"@,
                        Some(current.revision),
                        "parse previous Accepted network revision: "@ + e@,
                    ),
                ),
                PreviousFile::Found(s) => if s.revision == 0 || s.revision >= current.revision {
                    Some(
                        refusal(
                            "failed"@,
                            Some(current.revision),
                            "previous Accepted network revision is not older than the current revision"@,
                        ),
                    )
                } else {
                    None
                },
            },
        }
    }
}

/// What is done about a request to restore the state before.
pub fn restore_previous_request(f: RestoreFacts) -> (r: Restore)
    ensures
        match r {
            Restore::Reply(j) => restore_refusal(f) == Some(j@),
            Restore::Recover => f.bootstrapped && f.recovering,
            Restore::Apply(s, base) => restore_refusal(f) is None && !f.recovering && f.previous
                == PreviousFile::Found(s) && (f.accepted matches Ok(c) && c.revision == base),
        },
{
    if !f.bootstrapped {
        return Restore::Reply(
            refuse("rejected", None, "complete Bootstrap before restoring Desired state"),
        );
    }
    if f.recovering {
        return Restore::Recover;
    }
    if f.pending {
        return Restore::Reply(refuse("rejected", None, "Apply confirmation is pending"));
    }
    let n: u64 = match f.accepted {
        Ok(s) => s.revision,
        Err(e) => return Restore::Reply(refuse("failed", None, e.as_str())),
    };
    match f.previous {
        PreviousFile::Missing => Restore::Reply(
            refuse("rejected", Some(n), "no previous Accepted network revision is available"),
        ),
        PreviousFile::Unreadable(e) => Restore::Reply(
            refuse(
                "failed",
                Some(n),
                "read previous Accepted network revision: ".to_owned().concat(e.as_str()).as_str(),
            ),
        ),
        PreviousFile::Undecodable(e) => Restore::Reply(
            refuse(
                "failed",
                Some(n),
                "parse previous Accepted network revision: ".to_owned().concat(e.as_str()).as_str(),
            ),
        ),
        PreviousFile::Found(s) => {
            if s.revision == 0 || s.revision >= n {
                return Restore::Reply(
                    refuse(
                        "failed",
                        Some(n),
                        "previous Accepted network revision is not older than the current revision",
                    ),
                );
            }
            Restore::Apply(s, n)
        },
    }
}

/// The reply to a recovery that was asked for.
pub open spec fn recovered_reply(r: Result<u64, Seq<char>>) -> JsonView {
    match r {
        Ok(n) => JsonView::object().with("ok"@, JsonView::Bool(true)).with(
            "outcome"@,
            JsonView::Text("restored"@),
        ).with("restoration"@, JsonView::Text("restored"@)).with("revision"@, JsonView::Natural(n)),
        Err(e) => JsonView::object().with("ok"@, JsonView::Bool(false)).with(
            "outcome"@,
            JsonView::Text("failed"@),
        ).with("restoration"@, JsonView::Text("required"@)).with("error"@, JsonView::Text(e)),
    }
}

/// The reply to a recovery that was asked for.
pub fn recovered(r: Result<u64, String>) -> (j: Json)
    ensures
        j@ == recovered_reply(
            match r {
                Ok(n) => Ok(n),
                Err(e) => Err(e@),
            },
        ),
{
    match r {
        Ok(n) => Json::object().with("ok", Json::Bool(true)).with("outcome", Json::text("restored")).with(
            "restoration",
            Json::text("restored"),
        ).with("revision", Json::Natural(n)),
        Err(e) => Json::object().with("ok", Json::Bool(false)).with("outcome", Json::text("failed")).with(
            "restoration",
            Json::text("required"),
        ).with("error", Json::text(e.as_str())),
    }
}

/// What is restored is older than what it takes the place of.
pub proof fn law_restored_state_is_older(f: RestoreFacts)
    requires
        restore_refusal(f) is None,
        !f.recovering,
    ensures
        f.bootstrapped,
        f.previous matches PreviousFile::Found(s) && f.accepted matches Ok(c) && 0 < s.revision < c.revision,
{
}

/// Everything of the accepted state is put back, in this order: the services
/// are suspended, the state is applied and written, its predecessor and whoever
/// made it are put back where the record knows them, the services are started,
/// and forwarding is started at the end. Routes of a tentative state are taken
/// away where there is one.
pub proof fn law_recovery_puts_everything_back(legacy: bool, tentative: bool)
    ensures
        legacy && !tentative ==> recovery_plan(legacy, tentative) == seq![
            RecoveryStep::Suspend,
            RecoveryStep::Apply,
            RecoveryStep::Persist,
            RecoveryStep::Publish,
            RecoveryStep::Finish,
        ],
        legacy && tentative ==> recovery_plan(legacy, tentative) == seq![
            RecoveryStep::Suspend,
            RecoveryStep::Apply,
            RecoveryStep::Prune,
            RecoveryStep::Persist,
            RecoveryStep::Publish,
            RecoveryStep::Finish,
        ],
        !legacy && !tentative ==> recovery_plan(legacy, tentative) == seq![
            RecoveryStep::Suspend,
            RecoveryStep::Apply,
            RecoveryStep::Persist,
            RecoveryStep::RestorePredecessor,
            RecoveryStep::RestoreAttribution,
            RecoveryStep::Publish,
            RecoveryStep::Finish,
        ],
        !legacy && tentative ==> recovery_plan(legacy, tentative) == seq![
            RecoveryStep::Suspend,
            RecoveryStep::Apply,
            RecoveryStep::Prune,
            RecoveryStep::Persist,
            RecoveryStep::RestorePredecessor,
            RecoveryStep::RestoreAttribution,
            RecoveryStep::Publish,
            RecoveryStep::Finish,
        ],
{
}

/// Once the record is gone, forwarding is started, and then the recovery is
/// over; whatever fails is told.
pub proof fn law_recovery_comes_to_its_end(error: Seq<char>, x: Seq<char>, r: Option<Seq<char>>, debug: Seq<char>)
    ensures
        finish_next(FinishStage::Removing, error, None, debug).0 == FinishStage::Opening,
        finish_next(FinishStage::Removing, error, None, debug).2 is Open,
        finish_next(FinishStage::Opening, error, None, debug).0 == FinishStage::Closed,
        finish_next(FinishStage::Opening, error, None, debug).2 == FinishActionView::Done(None),
        finish_next(FinishStage::Removing, error, Some(x), debug).0 == FinishStage::RemoveGuard,
        finish_next(FinishStage::Removing, error, Some(x), debug).1 == x,
        finish_next(FinishStage::Opening, error, Some(x), debug).0 == FinishStage::OpenGuard,
        finish_next(FinishStage::Opening, error, Some(x), debug).1 == x,
        finish_next(FinishStage::RemoveGuard, error, r, debug).2 matches FinishActionView::Done(Some(_)),
        finish_next(FinishStage::OpenGuard, error, r, debug).2 matches FinishActionView::Done(Some(_)),
{
}

/// When an appliance with an owner starts, an apply was cut short just where its
/// record says that it was being applied or waits, or tells nothing, or an older
/// record is there. Else its accepted state is applied and its services are
/// started, and the record of an accepted apply is taken away; and where it has
/// no state, it is as on its first boot.
pub proof fn law_start_with_an_owner(j: JournalView, legacy: bool, has_state: bool)
    ensures
        interrupted(true, j, legacy) <==> legacy || match j {
            JournalView::Absent => false,
            JournalView::Unreadable(_) => true,
            JournalView::Undecodable(_) => true,
            JournalView::Found(op) => op.phase != ApplyPhase::Accepted,
        },
        !legacy && j is Absent && has_state ==> start_plan(true, j, legacy, has_state) == seq![
            StartStep::HostPull,
            StartStep::ApplyAccepted,
            StartStep::StartServices,
        ],
        !legacy && (j matches JournalView::Found(op) && op.phase == ApplyPhase::Accepted) && has_state
            ==> start_plan(true, j, legacy, has_state) == seq![
            StartStep::HostPull,
            StartStep::ApplyAccepted,
            StartStep::StartServices,
            StartStep::RemoveRecord,
        ],
        !legacy && (j is Absent || (j matches JournalView::Found(op) && op.phase == ApplyPhase::Accepted))
            && !has_state ==> start_plan(true, j, legacy, has_state) == seq![
            StartStep::HostPull,
            StartStep::FirstBoot,
        ],
{
}

/// A confirmation that names the revision and the change that wait, from
/// somebody and while nothing is being recovered, is taken; in time, it begins
/// by noting who made and who confirmed the change, and after that the accepted
/// state is gone back to.
pub proof fn law_right_confirmation_is_taken(
    request: JsonView,
    who: PrincipalView,
    op: OperationView,
    now: Option<u64>,
)
    requires
        op.phase == ApplyPhase::PendingConfirmation,
        op.proposed is Some,
        op.confirmation_id is Some,
        request.member("revision"@) == Some(JsonView::Natural((op.proposed->0).revision)),
        request.member("confirmation_id"@) == Some(JsonView::Text(op.confirmation_id->0)),
    ensures
        confirm_refusal(request, Some(who), false, JournalView::Found(op)) is None,
        op.deadline_boot_ns is Some && now is Some && now->0 < op.deadline_boot_ns->0 ==> confirm_start(op, now)
            == (ConfirmStage::Attributing, ConfirmActionView::WriteAttribution),
        op.deadline_boot_ns is None || now is None || now->0 >= op.deadline_boot_ns->0 ==> confirm_start(op, now)
            == (ConfirmStage::Expiring, ConfirmActionView::Recover),
{
}

/// From there each write leads to the next: the new state, its predecessor, and
/// the record that makes it the accepted one; then the reply says who made and
/// who confirmed it. A failure is told, with whether the accepted state could be
/// gone back to.
pub proof fn law_confirmation_runs_its_course(c: ConfirmationView, x: Seq<char>, r: Option<Seq<char>>)
    ensures
        c.stage == ConfirmStage::Attributing ==> confirm_next(c, None) == (
            ConfirmationView { stage: ConfirmStage::Persisting, ..c },
            ConfirmActionView::PersistProposed,
        ),
        c.stage == ConfirmStage::Persisting ==> confirm_next(c, None) == (
            ConfirmationView { stage: ConfirmStage::Retaining, ..c },
            ConfirmActionView::RetainAccepted,
        ),
        c.stage == ConfirmStage::Retaining ==> confirm_next(c, None) == (
            ConfirmationView { stage: ConfirmStage::Accepting, ..c },
            ConfirmActionView::WriteRecord,
        ),
        c.stage == ConfirmStage::Accepting ==> confirm_next(c, None) == (
            ConfirmationView { stage: ConfirmStage::Cleaning, ..c },
            ConfirmActionView::RemoveRecord,
        ),
        c.stage == ConfirmStage::Attributing || c.stage == ConfirmStage::Persisting || c.stage
            == ConfirmStage::Retaining || c.stage == ConfirmStage::Accepting ==> confirm_next(c, Some(x)) == (
            ConfirmationView { stage: ConfirmStage::Recovering, error: x, ..c },
            ConfirmActionView::Recover,
        ),
        c.stage == ConfirmStage::Cleaning ==> (confirm_next(c, r).1 matches ConfirmActionView::Reply(v) && v.member(
            "ok"@,
        ) == Some(JsonView::Bool(true)) && v.member("outcome"@) == Some(JsonView::Text("accepted"@)) && v.member(
            "revision"@,
        ) == Some(JsonView::Natural(c.revision)) && v.member("applying"@) == Some(
            principal_json(c.operation.applying),
        ) && v.member("confirming"@) == Some(principal_json(Some(c.confirming)))),
        c.stage == ConfirmStage::Recovering ==> (confirm_next(c, r).1 matches ConfirmActionView::Reply(v)
            && v.member("ok"@) == Some(JsonView::Bool(false)) && v.member("error"@) == Some(
            JsonView::Text(c.error),
        ) && v.member("restoration"@) == Some(
            JsonView::Text(
                if r is None {
                    "restored"@
                } else {
                    "required"@
                },
            ),
        )),
        c.stage == ConfirmStage::Expiring ==> (confirm_next(c, r).1 matches ConfirmActionView::Reply(v)
            && v.member("ok"@) == Some(JsonView::Bool(false)) && v.member("restoration"@) == Some(
            JsonView::Text(
                if r is None {
                    "restored"@
                } else {
                    "required"@
                },
            ),
        )),
        c.stage == ConfirmStage::Guarding ==> (confirm_next(c, r).1 matches ConfirmActionView::Reply(v)
            && v.member("ok"@) == Some(JsonView::Bool(false))),
{
    lemma_reply_keys();
}

/// What is written of a confirmed change: who made and who confirmed it, and a
/// record of acceptance that keeps what there was to go back to.
pub proof fn law_confirmed_change_is_attributed(c: ConfirmationView)
    ensures
        confirmed_attribution(c).revision == c.revision,
        confirmed_attribution(c).applying == c.operation.applying,
        confirmed_attribution(c).confirming == Some(c.confirming),
        confirmed_attribution(c).draft_version == c.operation.draft_version,
        confirmed_record(c).phase == ApplyPhase::Accepted,
        confirmed_record(c).accepted == c.operation.accepted,
        confirmed_record(c).previous_accepted == c.operation.previous_accepted,
        confirmed_record(c).previous_attribution == c.operation.previous_attribution,
        confirmed_record(c).applying == c.operation.applying,
        confirmed_record(c).draft_version == c.operation.draft_version,
        confirmed_record(c).proposed is None && confirmed_record(c).confirmation_id is None
            && confirmed_record(c).deadline_boot_ns is None,
{
}

/// An older state that was kept can always be restored, where nothing else is
/// under way; the reply to a recovery says whether it succeeded.
pub proof fn law_older_state_can_be_restored(f: RestoreFacts, n: u64, e: Seq<char>)
    ensures
        f.bootstrapped && !f.recovering && !f.pending && f.accepted is Ok && (f.previous matches PreviousFile::Found(
            s,
        ) && 0 < s.revision < (f.accepted->Ok_0).revision) ==> restore_refusal(f) is None,
        f.bootstrapped && f.recovering ==> restore_refusal(f) is None,
        recovered_reply(Ok(n)).member("ok"@) == Some(JsonView::Bool(true)),
        recovered_reply(Ok(n)).member("restoration"@) == Some(JsonView::Text("restored"@)),
        recovered_reply(Ok(n)).member("revision"@) == Some(JsonView::Natural(n)),
        recovered_reply(Err(e)).member("ok"@) == Some(JsonView::Bool(false)),
        recovered_reply(Err(e)).member("restoration"@) == Some(JsonView::Text("required"@)),
        recovered_reply(Err(e)).member("error"@) == Some(JsonView::Text(e)),
{
    lemma_reply_keys();
}

/// Forwarding can always be stopped: the rules of the state to go back to with
/// the guard are tried where it is known, and those that let nothing through in
/// any case, last.
pub proof fn law_forwarding_can_always_be_stopped(s: DesiredView)
    ensures
        guard_scripts(Some(s)) == seq![lines_text(ruleset(s, true)), lines_text(lockdown_lines())],
        guard_scripts(None) == seq![lines_text(lockdown_lines())],
        lockdown_lines() == seq![
            "flush ruleset"@,
            "table ip fwos-pull {"@,
            "  chain postrouting {"@,
            "    type nat hook postrouting priority srcnat; policy accept;"@,
            "    ip saddr 169.254.127.0/30 masquerade"@,
            "  }"@,
            "}"@,
            "table inet fwos-recovery {"@,
            "  chain input {"@,
            "    type filter hook input priority filter; policy drop;"@,
            "    iifname \"lo\" accept"@,
            "  }"@,
            "  chain forward {"@,
            "    type filter hook forward priority filter; policy drop;"@,
            "  }"@,
            "}"@,
        ],
{
}

} // verus!
