//! The transaction that puts one Desired state in the place of another.
//!
//! An [`Attempt`] says what is to be done next; what came of it decides how it
//! goes on. Before anything is touched, a record is kept of what to go back to.
//! Whatever fails afterwards is answered by going back: first nothing is
//! forwarded any more, and only when everything is as it was is that lifted.

use crate::desired::{iface_views, DesiredState, DesiredView, Iface, IfaceView};
use crate::footprint::{FootprintView, RollbackFootprint};
use crate::identity::{Principal, PrincipalView};
use crate::journal::{
    bytes_opt, copy_bytes, copy_principal, principal_opt, ApplyAttribution, ApplyIntent, ApplyOperation,
    ApplyPhase, AttributionView, OperationView, CONFIRMATION_MS, CONFIRMATION_NS,
};
use crate::json::{Json, JsonView};
use crate::nft;
use crate::nft::ruleset;
use crate::policy;
use crate::policy::validate_error;
use crate::text;
use crate::text::{add_text, copy_opt, failure, join, joined, lines_text, text_opt, texts};
use vstd::prelude::*;

verus! {

// ---------------------------------------------------------------------------
// States
// ---------------------------------------------------------------------------

/// How far an attempt has come.
#[derive(Clone, Copy, Debug, PartialEq, Eq, Structural)]
pub enum Stage {
    /// The firewall rules are being checked.
    Checking,
    /// The live network is being looked at.
    Capturing,
    /// What is to be kept is being read.
    Keeping,
    /// The record of the attempt is being written.
    Journaling,
    /// That failed, but left a record: forwarding is being stopped.
    JournalGuard,
    /// The services on the LAN are being suspended.
    Suspending,
    /// That failed: they are being put back.
    Resuming,
    /// Then the record is being taken away.
    Clearing,
    /// That failed too: forwarding is being stopped.
    SuspendGuard,
    /// The new state is being applied.
    Applying,
    /// Routes of the old state are being taken away.
    Pruning,
    /// The services are being started.
    Publishing,
    /// They are being waited for.
    Waiting,
    /// The new state is being written.
    Persisting,
    /// The old state is being written as its predecessor.
    Retaining,
    /// Who changed it is being written.
    Attributing,
    /// The record is being written that makes the new state the accepted one.
    Accepting,
    /// That failed: forwarding is being stopped.
    AcceptGuard,
    /// The record is being taken away.
    Cleaning,
    /// The change is being given a name to confirm it by.
    Naming,
    /// The time to confirm it is being set.
    Timing,
    /// The record is being written that makes it wait to be confirmed.
    Deferring,
    /// Going back: forwarding is being stopped.
    Guarding,
    /// The services are being suspended.
    Halting,
    /// The old state is being applied.
    Reverting,
    /// Routes of the new state are being taken away.
    Unrouting,
    /// What the new state added is being taken away.
    Undoing,
    /// The old state is being written.
    Rewriting,
    /// Its predecessor is being written.
    Returning,
    /// Who changed it is being written.
    Reattributing,
    /// The services are being put back.
    Restarting,
    /// They are being waited for.
    Rewaiting,
    /// The record is being taken away, and forwarding started.
    Finishing,
    /// All is done.
    Done,
}

/// An attempt to put one state in the place of another.
pub struct Attempt {
    pub stage: Stage,
    pub current: DesiredState,
    pub proposed: DesiredState,
    pub base: u64,
    pub actor: Option<Principal>,
    pub draft_version: Option<String>,
    pub intent: ApplyIntent,
    pub ready_before: bool,
    pub predecessor: Option<Vec<u8>>,
    pub attribution: Option<Vec<u8>>,
    pub footprint: Option<RollbackFootprint>,
    pub error: String,
    pub failures: Vec<String>,
    pub token: Option<String>,
    pub boot_ns: u64,
    pub unix_ms: u64,
}

#[verifier::ext_equal]
pub struct AttemptView {
    pub stage: Stage,
    pub current: DesiredView,
    pub proposed: DesiredView,
    pub base: u64,
    pub actor: Option<PrincipalView>,
    pub draft_version: Option<Seq<char>>,
    pub intent: ApplyIntent,
    pub ready_before: bool,
    pub predecessor: Option<Seq<u8>>,
    pub attribution: Option<Seq<u8>>,
    pub footprint: Option<FootprintView>,
    pub error: Seq<char>,
    pub failures: Seq<Seq<char>>,
    pub token: Option<Seq<char>>,
    pub boot_ns: u64,
    pub unix_ms: u64,
}

pub open spec fn footprint_opt(f: Option<RollbackFootprint>) -> Option<FootprintView> {
    match f {
        Some(x) => Some(x@),
        None => None,
    }
}

impl View for Attempt {
    type V = AttemptView;

    open spec fn view(&self) -> AttemptView {
        AttemptView {
            stage: self.stage,
            current: self.current@,
            proposed: self.proposed@,
            base: self.base,
            actor: principal_opt(self.actor),
            draft_version: text_opt(self.draft_version),
            intent: self.intent,
            ready_before: self.ready_before,
            predecessor: bytes_opt(self.predecessor),
            attribution: bytes_opt(self.attribution),
            footprint: footprint_opt(self.footprint),
            error: self.error@,
            failures: texts(self.failures@),
            token: text_opt(self.token),
            boot_ns: self.boot_ns,
            unix_ms: self.unix_ms,
        }
    }
}

/// What came of writing the record.
pub enum Written {
    Done,
    /// It could not be encoded.
    Unencoded(String),
    /// It could not be written; whether what is there now has to be recovered
    /// from.
    Failed(String, bool),
}

/// What came of what was to be done.
pub enum Event {
    /// It was done, or not.
    Outcome(Result<(), String>),
    /// What an apply can be taken back with.
    Captured(Result<RollbackFootprint, String>),
    /// What is kept: the predecessor, who made the accepted state, and whether
    /// the services are running.
    Kept(Result<Option<Vec<u8>>, String>, Result<Option<Vec<u8>>, String>, bool),
    /// The record was written, or not.
    Written(Written),
    /// The generation of the services that was made ready.
    Ready(Result<Option<String>, String>),
    /// A state was applied, or not; its interfaces as they then were.
    Applied(Vec<Iface>, Result<(), String>),
    /// A random name.
    Token(Result<String, String>),
    /// The time since the start, and the time of day.
    Clock(Result<(u64, u64), String>),
    /// What failed when the additions were taken away.
    Undone(Vec<String>),
    /// Forwarding was stopped, or not; the second text is how that reads in a
    /// report.
    Guarded(Result<(), String>, String),
}

pub enum EventView {
    Outcome(Option<Seq<char>>),
    Captured(Result<FootprintView, Seq<char>>),
    Kept(Result<Option<Seq<u8>>, Seq<char>>, Result<Option<Seq<u8>>, Seq<char>>, bool),
    Done,
    Unencoded(Seq<char>),
    Failed(Seq<char>, bool),
    Ready(Result<Option<Seq<char>>, Seq<char>>),
    Applied(Seq<IfaceView>, Option<Seq<char>>),
    Token(Result<Seq<char>, Seq<char>>),
    Clock(Result<(u64, u64), Seq<char>>),
    Undone(Seq<Seq<char>>),
    Guarded(Option<Seq<char>>, Seq<char>),
}

pub open spec fn bytes_result(r: Result<Option<Vec<u8>>, String>) -> Result<Option<Seq<u8>>, Seq<char>> {
    match r {
        Ok(b) => Ok(bytes_opt(b)),
        Err(e) => Err(e@),
    }
}

impl View for Event {
    type V = EventView;

    open spec fn view(&self) -> EventView {
        match self {
            Event::Outcome(r) => EventView::Outcome(failure(*r)),
            Event::Captured(Ok(f)) => EventView::Captured(Ok(f@)),
            Event::Captured(Err(e)) => EventView::Captured(Err(e@)),
            Event::Kept(p, a, ready) => EventView::Kept(bytes_result(*p), bytes_result(*a), *ready),
            Event::Written(Written::Done) => EventView::Done,
            Event::Written(Written::Unencoded(e)) => EventView::Unencoded(e@),
            Event::Written(Written::Failed(e, b)) => EventView::Failed(e@, *b),
            Event::Ready(Ok(g)) => EventView::Ready(Ok(text_opt(*g))),
            Event::Ready(Err(e)) => EventView::Ready(Err(e@)),
            Event::Applied(v, r) => EventView::Applied(iface_views(v@), failure(*r)),
            Event::Token(Ok(t)) => EventView::Token(Ok(t@)),
            Event::Token(Err(e)) => EventView::Token(Err(e@)),
            Event::Clock(Ok(t)) => EventView::Clock(Ok(*t)),
            Event::Clock(Err(e)) => EventView::Clock(Err(e@)),
            Event::Undone(v) => EventView::Undone(texts(v@)),
            Event::Guarded(r, d) => EventView::Guarded(failure(*r), d@),
        }
    }
}

/// What is to be done next.
pub enum Action {
    /// Have the firewall rules checked.
    CheckRules(String),
    /// Look at the live network before the new state.
    Capture,
    /// Read what is to be kept.
    ReadKept,
    /// Write the record of the attempt, as [`Attempt::record`] has it.
    WriteRecord(ApplyPhase),
    /// Take the record away.
    RemoveRecord,
    /// Stop forwarding.
    RequireGuard,
    /// Start the services, or suspend them.
    SetReady(bool),
    /// Apply the new state.
    ApplyProposed,
    /// Apply the old state.
    ApplyCurrent,
    /// Take the routes of the old state away that the new one lacks.
    PruneCurrent,
    /// Take the routes of the new state away that the old one lacks.
    PruneProposed,
    /// Wait for a generation of the services.
    Wait(String),
    /// Write the new state as the accepted one.
    PersistProposed,
    /// Write the old state as the accepted one.
    PersistCurrent,
    /// Write the old state as the predecessor.
    RetainCurrent,
    /// Write who made the accepted state.
    WriteAttribution,
    /// Make a random name.
    MakeToken,
    /// Look at the clocks.
    ReadClock,
    /// Take away what the new state added.
    Undo,
    /// Put the predecessor back.
    RestorePredecessor,
    /// Put back who made the accepted state.
    RestoreAttribution,
    /// Take the record away and start forwarding.
    FinishRecovery,
    /// Reply; where it is said, the appliance has to be recovered.
    Reply(Json, bool),
}

pub enum ActionView {
    CheckRules(Seq<char>),
    Capture,
    ReadKept,
    WriteRecord(ApplyPhase),
    RemoveRecord,
    RequireGuard,
    SetReady(bool),
    ApplyProposed,
    ApplyCurrent,
    PruneCurrent,
    PruneProposed,
    Wait(Seq<char>),
    PersistProposed,
    PersistCurrent,
    RetainCurrent,
    WriteAttribution,
    MakeToken,
    ReadClock,
    Undo,
    RestorePredecessor,
    RestoreAttribution,
    FinishRecovery,
    Reply(JsonView, bool),
}

impl View for Action {
    type V = ActionView;

    open spec fn view(&self) -> ActionView {
        match self {
            Action::CheckRules(s) => ActionView::CheckRules(s@),
            Action::Capture => ActionView::Capture,
            Action::ReadKept => ActionView::ReadKept,
            Action::WriteRecord(p) => ActionView::WriteRecord(*p),
            Action::RemoveRecord => ActionView::RemoveRecord,
            Action::RequireGuard => ActionView::RequireGuard,
            Action::SetReady(b) => ActionView::SetReady(*b),
            Action::ApplyProposed => ActionView::ApplyProposed,
            Action::ApplyCurrent => ActionView::ApplyCurrent,
            Action::PruneCurrent => ActionView::PruneCurrent,
            Action::PruneProposed => ActionView::PruneProposed,
            Action::Wait(g) => ActionView::Wait(g@),
            Action::PersistProposed => ActionView::PersistProposed,
            Action::PersistCurrent => ActionView::PersistCurrent,
            Action::RetainCurrent => ActionView::RetainCurrent,
            Action::WriteAttribution => ActionView::WriteAttribution,
            Action::MakeToken => ActionView::MakeToken,
            Action::ReadClock => ActionView::ReadClock,
            Action::Undo => ActionView::Undo,
            Action::RestorePredecessor => ActionView::RestorePredecessor,
            Action::RestoreAttribution => ActionView::RestoreAttribution,
            Action::FinishRecovery => ActionView::FinishRecovery,
            Action::Reply(j, b) => ActionView::Reply(j@, *b),
        }
    }
}

// ---------------------------------------------------------------------------
// Replies
// ---------------------------------------------------------------------------

pub open spec fn principal_json(p: Option<PrincipalView>) -> JsonView {
    match p {
        Some(x) => JsonView::object().with("source"@, JsonView::Text(x.source)).with(
            "subject"@,
            JsonView::Text(x.subject),
        ).with("username"@, JsonView::Text(x.username)),
        None => JsonView::Null,
    }
}

pub fn principal_value(p: &Option<Principal>) -> (r: Json)
    ensures
        r@ == principal_json(principal_opt(*p)),
{
    match p {
        Some(x) => Json::object().with("source", Json::text(x.source.as_str())).with(
            "subject",
            Json::text(x.subject.as_str()),
        ).with("username", Json::text(x.username.as_str())),
        None => Json::Null,
    }
}

/// The reply to a request that nothing was done about.
pub open spec fn refusal(outcome: Seq<char>, revision: Option<u64>, error: Seq<char>) -> JsonView {
    let base = JsonView::object().with("ok"@, JsonView::Bool(false)).with(
        "outcome"@,
        JsonView::Text(outcome),
    );
    (match revision {
        Some(n) => base.with("revision"@, JsonView::Natural(n)),
        None => base,
    }).with("error"@, JsonView::Text(error))
}

pub fn refuse(outcome: &str, revision: Option<u64>, error: &str) -> (r: Json)
    ensures
        r@ == refusal(outcome@, revision, error@),
        r is Object,
{
    let base = Json::object().with("ok", Json::Bool(false)).with("outcome", Json::text(outcome));
    (match revision {
        Some(n) => base.with("revision", Json::Natural(n)),
        None => base,
    }).with("error", Json::text(error))
}

/// The reply to an attempt that failed: what became of what was there.
pub open spec fn failed_reply(restoration: Seq<char>, revision: u64, error: Seq<char>) -> JsonView {
    refusal("failed"@, Some(revision), error).with("restoration"@, JsonView::Text(restoration))
}

fn failed(restoration: &str, revision: u64, error: &str) -> (r: Json)
    ensures
        r@ == failed_reply(restoration@, revision, error@),
        r is Object,
{
    refuse("failed", Some(revision), error).with("restoration", Json::text(restoration))
}

/// The reply to an attempt of which nobody can say whether it was accepted.
pub open spec fn indeterminate_reply(error: Seq<char>, guard: Seq<char>) -> JsonView {
    refusal("indeterminate"@, None, error).with("restoration"@, JsonView::Text("required"@)).with(
        "recovery_error"@,
        JsonView::Text("forwarding guard: "@ + guard),
    )
}

/// The reply to an attempt that was accepted.
pub open spec fn accepted_reply(a: AttemptView) -> JsonView {
    JsonView::object().with("ok"@, JsonView::Bool(true)).with("outcome"@, JsonView::Text("accepted"@)).with(
        "status"@,
        JsonView::Text("accepted"@),
    ).with("applied"@, JsonView::Bool(true)).with("accepted"@, JsonView::Bool(true)).with(
        "revision"@,
        JsonView::Natural(a.proposed.revision),
    ).with("base_revision"@, JsonView::Natural(a.base)).with(
        "predecessor_revision"@,
        JsonView::Natural(a.current.revision),
    ).with("applying"@, principal_json(a.actor))
}

/// The reply to an attempt that waits to be confirmed.
pub open spec fn pending_reply(a: AttemptView) -> JsonView {
    JsonView::object().with("ok"@, JsonView::Bool(true)).with(
        "outcome"@,
        JsonView::Text("pending_confirmation"@),
    ).with("status"@, JsonView::Text("pending_confirmation"@)).with("applied"@, JsonView::Bool(true)).with(
        "accepted"@,
        JsonView::Bool(false),
    ).with("revision"@, JsonView::Natural(a.proposed.revision)).with(
        "base_revision"@,
        JsonView::Natural(a.base),
    ).with("applying"@, principal_json(a.actor)).with(
        "expires_at_unix_ms"@,
        JsonView::Natural(expiry_ms(a.unix_ms)),
    )
}

/// The reply to an attempt that was taken back, or was not.
pub open spec fn restored_reply(a: AttemptView) -> JsonView {
    let whole = a.failures.len() == 0;
    let base = JsonView::object().with("ok"@, JsonView::Bool(false)).with(
        "outcome"@,
        JsonView::Text("failed"@),
    ).with(
        "status"@,
        JsonView::Text(
            if whole {
                "restored"@
            } else {
                "recovery_required"@
            },
        ),
    ).with(
        "restoration"@,
        JsonView::Text(
            if whole {
                "restored"@
            } else {
                "failed"@
            },
        ),
    ).with("applied"@, JsonView::Bool(false)).with("accepted"@, JsonView::Bool(false)).with(
        "revision"@,
        JsonView::Natural(a.current.revision),
    ).with("error"@, JsonView::Text(a.error));
    if whole {
        base
    } else {
        base.with("recovery_error"@, JsonView::Text(join(a.failures, "; "@)))
    }
}

// ---------------------------------------------------------------------------
// Records
// ---------------------------------------------------------------------------

/// A time that much later, as far as that can be counted.
pub open spec fn later(t: u64, by: u64) -> u64 {
    if t + by > u64::MAX {
        u64::MAX
    } else {
        (t + by) as u64
    }
}

pub open spec fn expiry_ms(unix_ms: u64) -> u64 {
    later(unix_ms, CONFIRMATION_MS)
}

pub(crate) fn add_time(t: u64, by: u64) -> (r: u64)
    ensures
        r == later(t, by),
{
    if t > u64::MAX - by {
        u64::MAX
    } else {
        t + by
    }
}

/// The record of an attempt: what to go back to and, while it waits to be
/// confirmed, what it is and until when.
pub open spec fn record_of(a: AttemptView, phase: ApplyPhase) -> OperationView {
    let waits = phase == ApplyPhase::PendingConfirmation;
    OperationView {
        phase,
        accepted: a.current,
        previous_accepted: a.predecessor,
        previous_attribution: a.attribution,
        proposed: if waits {
            Some(a.proposed)
        } else {
            None
        },
        confirmation_id: if waits {
            a.token
        } else {
            None
        },
        applying: a.actor,
        draft_version: a.draft_version,
        deadline_boot_ns: if waits {
            Some(later(a.boot_ns, CONFIRMATION_NS))
        } else {
            None
        },
        expires_at_unix_ms: if waits {
            Some(expiry_ms(a.unix_ms))
        } else {
            None
        },
    }
}

/// Who made the new state.
pub open spec fn attribution_of(a: AttemptView) -> AttributionView {
    AttributionView {
        revision: a.proposed.revision,
        applying: a.actor,
        confirming: None,
        draft_version: a.draft_version,
    }
}

impl Attempt {
    /// The record of the attempt.
    pub fn record(&self, phase: ApplyPhase) -> (r: ApplyOperation)
        ensures
            r@ == record_of(self@, phase),
    {
        let waits = phase == ApplyPhase::PendingConfirmation;
        ApplyOperation {
            phase,
            accepted: self.current.clone(),
            previous_accepted: copy_bytes(&self.predecessor),
            previous_attribution: copy_bytes(&self.attribution),
            proposed: if waits {
                Some(self.proposed.clone())
            } else {
                None
            },
            confirmation_id: if waits {
                copy_opt(&self.token)
            } else {
                None
            },
            applying: copy_principal(&self.actor),
            draft_version: copy_opt(&self.draft_version),
            deadline_boot_ns: if waits {
                Some(add_time(self.boot_ns, CONFIRMATION_NS))
            } else {
                None
            },
            expires_at_unix_ms: if waits {
                Some(add_time(self.unix_ms, CONFIRMATION_MS))
            } else {
                None
            },
        }
    }

    /// Who made the new state.
    pub fn made_by(&self) -> (r: ApplyAttribution)
        ensures
            r@ == attribution_of(self@),
    {
        ApplyAttribution {
            revision: self.proposed.revision,
            applying: copy_principal(&self.actor),
            confirming: None,
            draft_version: copy_opt(&self.draft_version),
        }
    }
}

// ---------------------------------------------------------------------------
// Transitions
// ---------------------------------------------------------------------------

pub open spec fn at(a: AttemptView, stage: Stage) -> AttemptView {
    AttemptView { stage, ..a }
}

pub open spec fn saying(a: AttemptView, error: Seq<char>) -> AttemptView {
    AttemptView { error, ..a }
}

/// One more thing that failed while going back.
pub open spec fn failing(a: AttemptView, what: Seq<char>, r: Option<Seq<char>>) -> AttemptView {
    match r {
        Some(e) => AttemptView { failures: a.failures.push(what + e), ..a },
        None => a,
    }
}

/// All is done, with this reply.
pub open spec fn reply(a: AttemptView, j: JsonView) -> (AttemptView, ActionView) {
    (at(a, Stage::Done), ActionView::Reply(j, false))
}

/// Something failed after the old state was touched: it is gone back to.
pub open spec fn go_back(a: AttemptView, error: Seq<char>) -> (AttemptView, ActionView) {
    (
        AttemptView { stage: Stage::Guarding, error, failures: Seq::empty(), ..a },
        ActionView::RequireGuard,
    )
}

/// What follows where something was done, and where it was not.
pub open spec fn proceed(
    a: AttemptView,
    r: Option<Seq<char>>,
    stage: Stage,
    action: ActionView,
) -> (AttemptView, ActionView) {
    match r {
        None => (at(a, stage), action),
        Some(e) => go_back(a, e),
    }
}

/// Whether the new state is accepted without waiting to be confirmed.
pub open spec fn accepts_at_once(a: AttemptView) -> bool {
    !a.current.apply_confirmation || a.intent == ApplyIntent::RecoveryRestore
}

/// The end of going back: the reply says whether everything is as it was.
pub open spec fn settled(a: AttemptView) -> (AttemptView, ActionView) {
    (at(a, Stage::Done), ActionView::Reply(restored_reply(a), a.failures.len() > 0))
}

/// Going back goes on only as long as nothing failed.
pub open spec fn while_whole(a: AttemptView, stage: Stage, action: ActionView) -> (AttemptView, ActionView) {
    if a.failures.len() == 0 {
        (at(a, stage), action)
    } else {
        settled(a)
    }
}

pub open spec fn suspend_failure(error: Seq<char>) -> Seq<char> {
    "could not suspend LAN service activation: "@ + error
}

pub open spec fn journal_failure(error: Seq<char>) -> Seq<char> {
    "could not retain Accepted Desired state before apply: "@ + error
}

/// How an attempt goes on before anything was touched.
pub open spec fn next_early(a: AttemptView, e: EventView) -> (AttemptView, ActionView) {
    let n = a.current.revision;
    match (a.stage, e) {
        (Stage::Checking, EventView::Outcome(r)) => match r {
            Some(x) => reply(a, refusal("rejected"@, Some(n), x)),
            None => if n == u64::MAX {
                reply(a, refusal("rejected"@, None, "revision limit reached"@))
            } else {
                (
                    at(
                        AttemptView {
                            proposed: DesiredView { revision: (n + 1) as u64, ..a.proposed },
                            ..a
                        },
                        Stage::Capturing,
                    ),
                    ActionView::Capture,
                )
            },
        },
        (Stage::Capturing, EventView::Captured(r)) => match r {
            Err(x) => reply(
                a,
                failed_reply("unchanged"@, n, "could not inspect live network before apply: "@ + x),
            ),
            Ok(f) => (
                at(AttemptView { footprint: Some(f), ..a }, Stage::Keeping),
                ActionView::ReadKept,
            ),
        },
        (Stage::Keeping, EventView::Kept(p, t, ready)) => match (p, t) {
            (Err(x), _) => reply(
                a,
                refusal("failed"@, Some(n), "read retained predecessor: "@ + x),
            ),
            (_, Err(x)) => reply(a, refusal("failed"@, None, "read prior Apply actors: "@ + x)),
            (Ok(predecessor), Ok(attribution)) => (
                at(
                    AttemptView { predecessor, attribution, ready_before: ready, ..a },
                    Stage::Journaling,
                ),
                ActionView::WriteRecord(ApplyPhase::Applying),
            ),
        },
        (Stage::Journaling, EventView::Unencoded(x)) => reply(
            a,
            failed_reply("unchanged"@, n, "encode apply operation: "@ + x),
        ),
        (Stage::Journaling, EventView::Failed(x, dirty)) => if dirty {
            (at(saying(a, x), Stage::JournalGuard), ActionView::RequireGuard)
        } else {
            reply(a, failed_reply("unchanged"@, n, journal_failure(x)))
        },
        (Stage::Journaling, EventView::Done) => (
            at(a, Stage::Suspending),
            ActionView::SetReady(false),
        ),
        (Stage::JournalGuard, EventView::Guarded(_, debug)) => reply(
            a,
            failed_reply("required"@, n, journal_failure(a.error)).with(
                "recovery_error"@,
                JsonView::Text("forwarding guard: "@ + debug),
            ),
        ),
        (Stage::Suspending, EventView::Ready(r)) => match r {
            Ok(_) => (at(a, Stage::Applying), ActionView::ApplyProposed),
            Err(x) => (
                at(saying(a, x), Stage::Resuming),
                ActionView::SetReady(a.ready_before),
            ),
        },
        (Stage::Resuming, EventView::Ready(r)) => match r {
            Ok(_) => (at(a, Stage::Clearing), ActionView::RemoveRecord),
            Err(x) => (
                at(failing(a, "restore LAN service readiness: "@, Some(x)), Stage::SuspendGuard),
                ActionView::RequireGuard,
            ),
        },
        (Stage::Clearing, EventView::Done) => reply(
            a,
            failed_reply("unchanged"@, n, suspend_failure(a.error)),
        ),
        (Stage::Clearing, EventView::Failed(x, dirty)) => if dirty {
            (
                at(failing(a, "clear in-flight operation: "@, Some(x)), Stage::SuspendGuard),
                ActionView::RequireGuard,
            )
        } else {
            reply(
                a,
                failed_reply("unchanged"@, n, suspend_failure(a.error)).with(
                    "cleanup_error"@,
                    JsonView::Text(x),
                ),
            )
        },
        (Stage::SuspendGuard, EventView::Guarded(r, _)) => reply(
            a,
            failed_reply("required"@, n, suspend_failure(a.error)).with(
                "recovery_error"@,
                JsonView::Text(join(failing(a, "block forwarding: "@, r).failures, "; "@)),
            ),
        ),
        _ => (a, ActionView::Reply(JsonView::Null, true)),
    }
}

/// How an attempt goes on while the new state is brought up.
pub open spec fn next_forward(a: AttemptView, e: EventView) -> (AttemptView, ActionView) {
    match (a.stage, e) {
        (Stage::Applying, EventView::Applied(interfaces, r)) => proceed(
            AttemptView { proposed: DesiredView { interfaces, ..a.proposed }, ..a },
            r,
            Stage::Pruning,
            ActionView::PruneCurrent,
        ),
        (Stage::Pruning, EventView::Outcome(r)) => proceed(
            a,
            r,
            Stage::Publishing,
            ActionView::SetReady(true),
        ),
        (Stage::Publishing, EventView::Ready(r)) => match r {
            Ok(Some(g)) => (at(a, Stage::Waiting), ActionView::Wait(g)),
            Ok(None) => go_back(a, "LAN service generation was not published"@),
            Err(x) => go_back(a, x),
        },
        (Stage::Waiting, EventView::Outcome(r)) => if accepts_at_once(a) {
            proceed(a, r, Stage::Persisting, ActionView::PersistProposed)
        } else {
            proceed(a, r, Stage::Naming, ActionView::MakeToken)
        },
        (Stage::Persisting, EventView::Outcome(r)) => proceed(
            a,
            r,
            Stage::Retaining,
            ActionView::RetainCurrent,
        ),
        (Stage::Retaining, EventView::Outcome(r)) => proceed(
            a,
            r,
            Stage::Attributing,
            ActionView::WriteAttribution,
        ),
        (Stage::Attributing, EventView::Outcome(r)) => proceed(
            a,
            r,
            Stage::Accepting,
            ActionView::WriteRecord(ApplyPhase::Accepted),
        ),
        (Stage::Accepting, EventView::Done) => (at(a, Stage::Cleaning), ActionView::RemoveRecord),
        (Stage::Accepting, EventView::Unencoded(x)) => (
            at(saying(a, "encode Accepted apply operation: "@ + x), Stage::AcceptGuard),
            ActionView::RequireGuard,
        ),
        (Stage::Accepting, EventView::Failed(x, _)) => (
            at(
                saying(
                    a,
                    "durably accept Desired state: "@ + x + "; reboot to resolve the operation"@,
                ),
                Stage::AcceptGuard,
            ),
            ActionView::RequireGuard,
        ),
        (Stage::AcceptGuard, EventView::Guarded(_, debug)) => reply(
            a,
            indeterminate_reply(a.error, debug),
        ),
        (Stage::Cleaning, EventView::Done) => reply(a, accepted_reply(a)),
        (Stage::Cleaning, EventView::Failed(_, _)) => reply(a, accepted_reply(a)),
        (Stage::Naming, EventView::Token(r)) => match r {
            Ok(t) => (
                at(AttemptView { token: Some(t), ..a }, Stage::Timing),
                ActionView::ReadClock,
            ),
            Err(x) => go_back(a, x),
        },
        (Stage::Timing, EventView::Clock(r)) => match r {
            Ok((boot_ns, unix_ms)) => (
                at(AttemptView { boot_ns, unix_ms, ..a }, Stage::Deferring),
                ActionView::WriteRecord(ApplyPhase::PendingConfirmation),
            ),
            Err(x) => go_back(a, x),
        },
        (Stage::Deferring, EventView::Done) => reply(a, pending_reply(a)),
        (Stage::Deferring, EventView::Unencoded(x)) => go_back(
            a,
            "retain pending Apply confirmation: encode pending Apply confirmation: "@ + x,
        ),
        (Stage::Deferring, EventView::Failed(x, _)) => go_back(
            a,
            "retain pending Apply confirmation: "@ + x,
        ),
        _ => (a, ActionView::Reply(JsonView::Null, true)),
    }
}

/// How an attempt goes on while the old state is gone back to: everything is
/// tried, whatever failed before.
pub open spec fn next_back(a: AttemptView, e: EventView) -> (AttemptView, ActionView) {
    match (a.stage, e) {
        (Stage::Guarding, EventView::Guarded(r, _)) => (
            at(failing(a, "block forwarding during recovery: "@, r), Stage::Halting),
            ActionView::SetReady(false),
        ),
        (Stage::Halting, EventView::Ready(r)) => (
            at(
                failing(
                    a,
                    "suspend tentative LAN services: "@,
                    match r {
                        Ok(_) => None,
                        Err(x) => Some(x),
                    },
                ),
                Stage::Reverting,
            ),
            ActionView::ApplyCurrent,
        ),
        (Stage::Reverting, EventView::Applied(_, r)) => (
            at(failing(a, "restore live Accepted state: "@, r), Stage::Unrouting),
            ActionView::PruneProposed,
        ),
        (Stage::Unrouting, EventView::Outcome(r)) => (
            at(failing(a, "remove tentative routes: "@, r), Stage::Undoing),
            ActionView::Undo,
        ),
        (Stage::Undoing, EventView::Undone(v)) => (
            at(AttemptView { failures: a.failures + v, ..a }, Stage::Rewriting),
            ActionView::PersistCurrent,
        ),
        (Stage::Rewriting, EventView::Outcome(r)) => (
            at(failing(a, "restore durable Accepted state: "@, r), Stage::Returning),
            ActionView::RestorePredecessor,
        ),
        (Stage::Returning, EventView::Outcome(r)) => (
            at(failing(a, "restore retained predecessor: "@, r), Stage::Reattributing),
            ActionView::RestoreAttribution,
        ),
        (Stage::Reattributing, EventView::Outcome(r)) => while_whole(
            failing(a, "restore prior Apply actors: "@, r),
            Stage::Restarting,
            ActionView::SetReady(a.ready_before),
        ),
        (Stage::Restarting, EventView::Ready(r)) => match r {
            Ok(Some(g)) => (at(a, Stage::Rewaiting), ActionView::Wait(g)),
            Ok(None) => (at(a, Stage::Finishing), ActionView::FinishRecovery),
            Err(x) => settled(failing(a, "restore LAN service readiness: "@, Some(x))),
        },
        (Stage::Rewaiting, EventView::Outcome(r)) => while_whole(
            failing(a, "restore Host LAN services: "@, r),
            Stage::Finishing,
            ActionView::FinishRecovery,
        ),
        (Stage::Finishing, EventView::Outcome(r)) => settled(failing(a, "complete recovery: "@, r)),
        _ => (a, ActionView::Reply(JsonView::Null, true)),
    }
}

/// Whether an attempt is past the record and not yet going back.
pub open spec fn is_forward(s: Stage) -> bool {
    match s {
        Stage::Applying | Stage::Pruning | Stage::Publishing | Stage::Waiting | Stage::Persisting
        | Stage::Retaining | Stage::Attributing | Stage::Accepting | Stage::AcceptGuard | Stage::Cleaning
        | Stage::Naming | Stage::Timing | Stage::Deferring => true,
        _ => false,
    }
}

/// Whether an attempt is going back.
pub open spec fn is_back(s: Stage) -> bool {
    match s {
        Stage::Guarding | Stage::Halting | Stage::Reverting | Stage::Unrouting | Stage::Undoing
        | Stage::Rewriting | Stage::Returning | Stage::Reattributing | Stage::Restarting
        | Stage::Rewaiting | Stage::Finishing => true,
        _ => false,
    }
}

/// How an attempt goes on. An event that does not fit leaves it where it is,
/// with an empty reply.
pub open spec fn attempt_next(a: AttemptView, e: EventView) -> (AttemptView, ActionView) {
    if is_forward(a.stage) {
        next_forward(a, e)
    } else if is_back(a.stage) {
        next_back(a, e)
    } else {
        next_early(a, e)
    }
}

// ---------------------------------------------------------------------------
// Carrying them out
// ---------------------------------------------------------------------------

impl Attempt {
    fn at(self, stage: Stage) -> (r: Attempt)
        ensures
            r@ == at(self@, stage),
    {
        Attempt { stage, ..self }
    }

    fn saying(self, error: String) -> (r: Attempt)
        ensures
            r@ == saying(self@, error@),
    {
        Attempt { error, ..self }
    }

    fn failing(self, what: &str, r: Result<(), String>) -> (a: Attempt)
        ensures
            a@ == failing(self@, what@, failure(r)),
    {
        match r {
            Ok(_) => self,
            Err(e) => {
                let mut failures = self.failures;
                add_text(&mut failures, what.to_owned().concat(e.as_str()));
                Attempt { failures, ..self }
            },
        }
    }

    fn reply(self, j: Json) -> (r: (Attempt, Action))
        ensures
            (r.0@, r.1@) == reply(self@, j@),
    {
        (self.at(Stage::Done), Action::Reply(j, false))
    }

    fn go_back(self, error: String) -> (r: (Attempt, Action))
        ensures
            (r.0@, r.1@) == go_back(self@, error@),
    {
        let failures: Vec<String> = Vec::new();
        assert(texts(failures@) == Seq::<Seq<char>>::empty());
        (Attempt { stage: Stage::Guarding, error, failures, ..self }, Action::RequireGuard)
    }

    fn proceed(self, r: Result<(), String>, stage: Stage, action: Action) -> (n: (Attempt, Action))
        ensures
            (n.0@, n.1@) == proceed(self@, failure(r), stage, action@),
    {
        match r {
            Ok(_) => (self.at(stage), action),
            Err(e) => self.go_back(e),
        }
    }

    fn accepts_at_once(&self) -> (r: bool)
        ensures
            r == accepts_at_once(self@),
    {
        !self.current.apply_confirmation || self.intent == ApplyIntent::RecoveryRestore
    }

    fn accepted(&self) -> (r: Json)
        ensures
            r@ == accepted_reply(self@),
    {
        Json::object().with("ok", Json::Bool(true)).with("outcome", Json::text("accepted")).with(
            "status",
            Json::text("accepted"),
        ).with("applied", Json::Bool(true)).with("accepted", Json::Bool(true)).with(
            "revision",
            Json::Natural(self.proposed.revision),
        ).with("base_revision", Json::Natural(self.base)).with(
            "predecessor_revision",
            Json::Natural(self.current.revision),
        ).with("applying", principal_value(&self.actor))
    }

    fn pending(&self) -> (r: Json)
        ensures
            r@ == pending_reply(self@),
    {
        Json::object().with("ok", Json::Bool(true)).with(
            "outcome",
            Json::text("pending_confirmation"),
        ).with("status", Json::text("pending_confirmation")).with("applied", Json::Bool(true)).with(
            "accepted",
            Json::Bool(false),
        ).with("revision", Json::Natural(self.proposed.revision)).with(
            "base_revision",
            Json::Natural(self.base),
        ).with("applying", principal_value(&self.actor)).with(
            "expires_at_unix_ms",
            Json::Natural(add_time(self.unix_ms, CONFIRMATION_MS)),
        )
    }

    fn restored(&self) -> (r: Json)
        ensures
            r@ == restored_reply(self@),
    {
        let whole = self.failures.len() == 0;
        let status = if whole {
            "restored"
        } else {
            "recovery_required"
        };
        let restoration = if whole {
            "restored"
        } else {
            "failed"
        };
        let base = Json::object().with("ok", Json::Bool(false)).with("outcome", Json::text("failed")).with(
            "status",
            Json::text(status),
        ).with("restoration", Json::text(restoration)).with("applied", Json::Bool(false)).with(
            "accepted",
            Json::Bool(false),
        ).with("revision", Json::Natural(self.current.revision)).with(
            "error",
            Json::text(self.error.as_str()),
        );
        if whole {
            base
        } else {
            base.with("recovery_error", Json::text(joined(&self.failures, "; ").as_str()))
        }
    }

    fn settle(self) -> (r: (Attempt, Action))
        ensures
            (r.0@, r.1@) == settled(self@),
    {
        let j = self.restored();
        let broken = self.failures.len() > 0;
        (self.at(Stage::Done), Action::Reply(j, broken))
    }

    fn while_whole(self, stage: Stage, action: Action) -> (r: (Attempt, Action))
        ensures
            (r.0@, r.1@) == while_whole(self@, stage, action@),
    {
        if self.failures.len() == 0 {
            (self.at(stage), action)
        } else {
            self.settle()
        }
    }

    fn misfit(self) -> (r: (Attempt, Action))
        ensures
            (r.0@, r.1@) == (self@, ActionView::Reply(JsonView::Null, true)),
    {
        (self, Action::Reply(Json::Null, true))
    }

    fn next_early(self, e: Event) -> (r: (Attempt, Action))
        requires
            !is_forward(self.stage) && !is_back(self.stage),
        ensures
            (r.0@, r.1@) == next_early(self@, e@),
    {
        let n: u64 = self.current.revision;
        match (self.stage, e) {
            (Stage::Checking, Event::Outcome(Err(x))) => self.reply(
                refuse("rejected", Some(n), x.as_str()),
            ),
            (Stage::Checking, Event::Outcome(Ok(_))) => {
                if n == u64::MAX {
                    return self.reply(refuse("rejected", None, "revision limit reached"));
                }
                let proposed = DesiredState { revision: n + 1, ..self.proposed };
                (Attempt { stage: Stage::Capturing, proposed, ..self }, Action::Capture)
            },
            (Stage::Capturing, Event::Captured(Err(x))) => self.reply(
                failed(
                    "unchanged",
                    n,
                    "could not inspect live network before apply: ".to_owned().concat(
                        x.as_str(),
                    ).as_str(),
                ),
            ),
            (Stage::Capturing, Event::Captured(Ok(f))) => (
                Attempt { stage: Stage::Keeping, footprint: Some(f), ..self },
                Action::ReadKept,
            ),
            (Stage::Keeping, Event::Kept(Err(x), _, _)) => self.reply(
                refuse(
                    "failed",
                    Some(n),
                    "read retained predecessor: ".to_owned().concat(x.as_str()).as_str(),
                ),
            ),
            (Stage::Keeping, Event::Kept(Ok(_), Err(x), _)) => self.reply(
                refuse(
                    "failed",
                    None,
                    "read prior Apply actors: ".to_owned().concat(x.as_str()).as_str(),
                ),
            ),
            (Stage::Keeping, Event::Kept(Ok(predecessor), Ok(attribution), ready)) => (
                Attempt {
                    stage: Stage::Journaling,
                    predecessor,
                    attribution,
                    ready_before: ready,
                    ..self
                },
                Action::WriteRecord(ApplyPhase::Applying),
            ),
            (Stage::Journaling, Event::Written(Written::Unencoded(x))) => self.reply(
                failed("unchanged", n, "encode apply operation: ".to_owned().concat(x.as_str()).as_str()),
            ),
            (Stage::Journaling, Event::Written(Written::Failed(x, dirty))) => {
                if dirty {
                    return (self.saying(x).at(Stage::JournalGuard), Action::RequireGuard);
                }
                self.reply(failed("unchanged", n, say_journal(x.as_str()).as_str()))
            },
            (Stage::Journaling, Event::Written(Written::Done)) => (
                self.at(Stage::Suspending),
                Action::SetReady(false),
            ),
            (Stage::JournalGuard, Event::Guarded(_, debug)) => {
                let j = failed("required", n, say_journal(self.error.as_str()).as_str()).with(
                    "recovery_error",
                    Json::text("forwarding guard: ".to_owned().concat(debug.as_str()).as_str()),
                );
                self.reply(j)
            },
            (Stage::Suspending, Event::Ready(Ok(_))) => (
                self.at(Stage::Applying),
                Action::ApplyProposed,
            ),
            (Stage::Suspending, Event::Ready(Err(x))) => {
                let before = self.ready_before;
                (self.saying(x).at(Stage::Resuming), Action::SetReady(before))
            },
            (Stage::Resuming, Event::Ready(Ok(_))) => (self.at(Stage::Clearing), Action::RemoveRecord),
            (Stage::Resuming, Event::Ready(Err(x))) => (
                self.failing("restore LAN service readiness: ", Err(x)).at(Stage::SuspendGuard),
                Action::RequireGuard,
            ),
            (Stage::Clearing, Event::Written(Written::Done)) => {
                let j = failed("unchanged", n, say_suspend(self.error.as_str()).as_str());
                self.reply(j)
            },
            (Stage::Clearing, Event::Written(Written::Failed(x, dirty))) => {
                if dirty {
                    return (
                        self.failing("clear in-flight operation: ", Err(x)).at(Stage::SuspendGuard),
                        Action::RequireGuard,
                    );
                }
                let j = failed("unchanged", n, say_suspend(self.error.as_str()).as_str()).with(
                    "cleanup_error",
                    Json::text(x.as_str()),
                );
                self.reply(j)
            },
            (Stage::SuspendGuard, Event::Guarded(r, _)) => {
                let error = say_suspend(self.error.as_str());
                let mut all = text::copy_texts(&self.failures);
                if let Err(x) = r {
                    add_text(&mut all, "block forwarding: ".to_owned().concat(x.as_str()));
                }
                let j = failed("required", n, error.as_str()).with(
                    "recovery_error",
                    Json::text(joined(&all, "; ").as_str()),
                );
                self.reply(j)
            },
            _ => self.misfit(),
        }
    }

    fn next_forward(self, e: Event) -> (r: (Attempt, Action))
        requires
            is_forward(self.stage),
        ensures
            (r.0@, r.1@) == next_forward(self@, e@),
    {
        match (self.stage, e) {
            (Stage::Applying, Event::Applied(interfaces, r)) => {
                let proposed = DesiredState { interfaces, ..self.proposed };
                let a = Attempt { proposed, ..self };
                a.proceed(r, Stage::Pruning, Action::PruneCurrent)
            },
            (Stage::Pruning, Event::Outcome(r)) => self.proceed(
                r,
                Stage::Publishing,
                Action::SetReady(true),
            ),
            (Stage::Publishing, Event::Ready(Ok(Some(g)))) => (self.at(Stage::Waiting), Action::Wait(g)),
            (Stage::Publishing, Event::Ready(Ok(None))) => self.go_back(
                "LAN service generation was not published".to_owned(),
            ),
            (Stage::Publishing, Event::Ready(Err(x))) => self.go_back(x),
            (Stage::Waiting, Event::Outcome(r)) => {
                if self.accepts_at_once() {
                    self.proceed(r, Stage::Persisting, Action::PersistProposed)
                } else {
                    self.proceed(r, Stage::Naming, Action::MakeToken)
                }
            },
            (Stage::Persisting, Event::Outcome(r)) => self.proceed(
                r,
                Stage::Retaining,
                Action::RetainCurrent,
            ),
            (Stage::Retaining, Event::Outcome(r)) => self.proceed(
                r,
                Stage::Attributing,
                Action::WriteAttribution,
            ),
            (Stage::Attributing, Event::Outcome(r)) => self.proceed(
                r,
                Stage::Accepting,
                Action::WriteRecord(ApplyPhase::Accepted),
            ),
            (Stage::Accepting, Event::Written(Written::Done)) => (
                self.at(Stage::Cleaning),
                Action::RemoveRecord,
            ),
            (Stage::Accepting, Event::Written(Written::Unencoded(x))) => (
                self.saying("encode Accepted apply operation: ".to_owned().concat(x.as_str())).at(
                    Stage::AcceptGuard,
                ),
                Action::RequireGuard,
            ),
            (Stage::Accepting, Event::Written(Written::Failed(x, _))) => (
                self.saying(
                    "durably accept Desired state: ".to_owned().concat(x.as_str()).concat(
                        "; reboot to resolve the operation",
                    ),
                ).at(Stage::AcceptGuard),
                Action::RequireGuard,
            ),
            (Stage::AcceptGuard, Event::Guarded(_, debug)) => {
                let j = refuse("indeterminate", None, self.error.as_str()).with(
                    "restoration",
                    Json::text("required"),
                ).with(
                    "recovery_error",
                    Json::text("forwarding guard: ".to_owned().concat(debug.as_str()).as_str()),
                );
                self.reply(j)
            },
            (Stage::Cleaning, Event::Written(Written::Done)) => {
                let j = self.accepted();
                self.reply(j)
            },
            (Stage::Cleaning, Event::Written(Written::Failed(_, _))) => {
                let j = self.accepted();
                self.reply(j)
            },
            (Stage::Naming, Event::Token(Ok(t))) => (
                Attempt { stage: Stage::Timing, token: Some(t), ..self },
                Action::ReadClock,
            ),
            (Stage::Naming, Event::Token(Err(x))) => self.go_back(x),
            (Stage::Timing, Event::Clock(Ok((boot_ns, unix_ms)))) => (
                Attempt { stage: Stage::Deferring, boot_ns, unix_ms, ..self },
                Action::WriteRecord(ApplyPhase::PendingConfirmation),
            ),
            (Stage::Timing, Event::Clock(Err(x))) => self.go_back(x),
            (Stage::Deferring, Event::Written(Written::Done)) => {
                let j = self.pending();
                self.reply(j)
            },
            (Stage::Deferring, Event::Written(Written::Unencoded(x))) => self.go_back(
                "retain pending Apply confirmation: encode pending Apply confirmation: ".to_owned().concat(
                    x.as_str(),
                ),
            ),
            (Stage::Deferring, Event::Written(Written::Failed(x, _))) => self.go_back(
                "retain pending Apply confirmation: ".to_owned().concat(x.as_str()),
            ),
            _ => self.misfit(),
        }
    }

    #[verifier::rlimit(30)]
    fn next_back(self, e: Event) -> (r: (Attempt, Action))
        requires
            is_back(self.stage),
        ensures
            (r.0@, r.1@) == next_back(self@, e@),
    {
        match (self.stage, e) {
            (Stage::Guarding, Event::Guarded(r, _)) => (
                self.failing("block forwarding during recovery: ", r).at(Stage::Halting),
                Action::SetReady(false),
            ),
            (Stage::Halting, Event::Ready(r)) => {
                let r = match r {
                    Ok(_) => Ok(()),
                    Err(x) => Err(x),
                };
                (
                    self.failing("suspend tentative LAN services: ", r).at(Stage::Reverting),
                    Action::ApplyCurrent,
                )
            },
            (Stage::Reverting, Event::Applied(_, r)) => (
                self.failing("restore live Accepted state: ", r).at(Stage::Unrouting),
                Action::PruneProposed,
            ),
            (Stage::Unrouting, Event::Outcome(r)) => (
                self.failing("remove tentative routes: ", r).at(Stage::Undoing),
                Action::Undo,
            ),
            (Stage::Undoing, Event::Undone(v)) => {
                let mut failures = self.failures;
                text::add_texts(&mut failures, &v);
                (Attempt { stage: Stage::Rewriting, failures, ..self }, Action::PersistCurrent)
            },
            (Stage::Rewriting, Event::Outcome(r)) => (
                self.failing("restore durable Accepted state: ", r).at(Stage::Returning),
                Action::RestorePredecessor,
            ),
            (Stage::Returning, Event::Outcome(r)) => (
                self.failing("restore retained predecessor: ", r).at(Stage::Reattributing),
                Action::RestoreAttribution,
            ),
            (Stage::Reattributing, Event::Outcome(r)) => {
                let before = self.ready_before;
                self.failing("restore prior Apply actors: ", r).while_whole(
                    Stage::Restarting,
                    Action::SetReady(before),
                )
            },
            (Stage::Restarting, Event::Ready(Ok(Some(g)))) => (
                self.at(Stage::Rewaiting),
                Action::Wait(g),
            ),
            (Stage::Restarting, Event::Ready(Ok(None))) => (
                self.at(Stage::Finishing),
                Action::FinishRecovery,
            ),
            (Stage::Restarting, Event::Ready(Err(x))) => self.failing(
                "restore LAN service readiness: ",
                Err(x),
            ).settle(),
            (Stage::Rewaiting, Event::Outcome(r)) => self.failing("restore Host LAN services: ", r).while_whole(
                Stage::Finishing,
                Action::FinishRecovery,
            ),
            (Stage::Finishing, Event::Outcome(r)) => self.failing("complete recovery: ", r).settle(),
            _ => self.misfit(),
        }
    }

    /// How the attempt goes on.
    pub fn next(self, e: Event) -> (r: (Attempt, Action))
        ensures
            (r.0@, r.1@) == attempt_next(self@, e@),
    {
        match self.stage {
            Stage::Applying | Stage::Pruning | Stage::Publishing | Stage::Waiting | Stage::Persisting
            | Stage::Retaining | Stage::Attributing | Stage::Accepting | Stage::AcceptGuard
            | Stage::Cleaning | Stage::Naming | Stage::Timing | Stage::Deferring => self.next_forward(e),
            Stage::Guarding | Stage::Halting | Stage::Reverting | Stage::Unrouting | Stage::Undoing
            | Stage::Rewriting | Stage::Returning | Stage::Reattributing | Stage::Restarting
            | Stage::Rewaiting | Stage::Finishing => self.next_back(e),
            _ => self.next_early(e),
        }
    }
}

fn say_journal(error: &str) -> (r: String)
    ensures
        r@ == journal_failure(error@),
{
    "could not retain Accepted Desired state before apply: ".to_owned().concat(error)
}

fn say_suspend(error: &str) -> (r: String)
    ensures
        r@ == suspend_failure(error@),
{
    "could not suspend LAN service activation: ".to_owned().concat(error)
}

// ---------------------------------------------------------------------------
// The request
// ---------------------------------------------------------------------------

/// What is known of a request before anything is done about it.
pub struct ApplyRequest {
    /// Whether another apply or a recovery is under way.
    pub busy: bool,
    /// The accepted state, or why there is none.
    pub accepted: Result<DesiredState, String>,
    /// The revision that the request is based on, or none for the accepted
    /// one.
    pub base_revision: Option<u64>,
    /// The state that is asked for, or why it is none.
    pub proposed: Result<DesiredState, String>,
    pub actor: Option<Principal>,
    pub draft_version: Option<String>,
    pub intent: ApplyIntent,
}

/// Why a request is refused before anything is done about it, if so.
pub open spec fn request_refusal(q: ApplyRequest) -> Option<JsonView> {
    if q.busy {
        Some(refusal("busy"@, None, "another Desired state apply or recovery is in progress"@))
    } else {
        match q.accepted {
            Err(e) => Some(refusal("failed"@, None, e@)),
            Ok(current) => if q.base_revision is Some && q.base_revision->0 != current.revision {
                Some(
                    refusal(
                        "rejected"@,
                        Some(current.revision),
                        "Accepted Desired state changed; reload before applying"@,
                    ),
                )
            } else {
                match q.proposed {
                    Err(e) => Some(
                        refusal(
                            "rejected"@,
                            Some(current.revision),
                            "invalid complete Desired state: "@ + e@,
                        ),
                    ),
                    Ok(proposed) => match validate_error(proposed@) {
                        Some(e) => Some(refusal("rejected"@, Some(current.revision), e)),
                        None => None,
                    },
                }
            },
        }
    }
}

/// The attempt that a request begins.
pub open spec fn first_attempt(q: ApplyRequest) -> AttemptView {
    let current = q.accepted->Ok_0;
    AttemptView {
        stage: Stage::Checking,
        current: current@,
        proposed: (q.proposed->Ok_0)@,
        base: current.revision,
        actor: principal_opt(q.actor),
        draft_version: text_opt(q.draft_version),
        intent: q.intent,
        ready_before: false,
        predecessor: None,
        attribution: None,
        footprint: None,
        error: Seq::empty(),
        failures: Seq::empty(),
        token: None,
        boot_ns: 0,
        unix_ms: 0,
    }
}

/// Begins an attempt, or refuses the request. `guard` says whether nothing is
/// forwarded at the time.
pub fn apply_desired_request(q: ApplyRequest, guard: bool) -> (r: Result<(Attempt, Action), Json>)
    ensures
        match r {
            Err(j) => request_refusal(q) == Some(j@),
            Ok((a, action)) => {
                &&& request_refusal(q) is None
                &&& a@ == first_attempt(q)
                &&& action@ == ActionView::CheckRules(
                    lines_text(ruleset((q.proposed->Ok_0)@, guard)),
                )
            },
        },
{
    if q.busy {
        return Err(
            refuse("busy", None, "another Desired state apply or recovery is in progress"),
        );
    }
    let current = match q.accepted {
        Ok(s) => s,
        Err(e) => return Err(refuse("failed", None, e.as_str())),
    };
    let n: u64 = current.revision;
    if let Some(base) = q.base_revision {
        if base != n {
            return Err(
                refuse(
                    "rejected",
                    Some(n),
                    "Accepted Desired state changed; reload before applying",
                ),
            );
        }
    }
    let proposed = match q.proposed {
        Ok(s) => s,
        Err(e) => return Err(
            refuse(
                "rejected",
                Some(n),
                "invalid complete Desired state: ".to_owned().concat(e.as_str()).as_str(),
            ),
        ),
    };
    if let Err(e) = policy::validate(&proposed) {
        return Err(refuse("rejected", Some(n), e.as_str()));
    }
    let rules = nft::nft_rules_with_recovery_guard(&proposed, guard);
    let failures: Vec<String> = Vec::new();
    let error = String::new();
    proof {
        assert(texts(failures@) == Seq::<Seq<char>>::empty());
        assert(error@ == Seq::<char>::empty());
    }
    let a = Attempt {
        stage: Stage::Checking,
        current,
        proposed,
        base: n,
        actor: q.actor,
        draft_version: q.draft_version,
        intent: q.intent,
        ready_before: false,
        predecessor: None,
        attribution: None,
        footprint: None,
        error,
        failures,
        token: None,
        boot_ns: 0,
        unix_ms: 0,
    };
    Ok((a, Action::CheckRules(rules)))
}

// ---------------------------------------------------------------------------
// Laws
// ---------------------------------------------------------------------------

/// Whether an event is one that the stage waits for.
pub open spec fn fits(s: Stage, e: EventView) -> bool {
    match s {
        Stage::Capturing => e is Captured,
        Stage::Keeping => e is Kept,
        Stage::Journaling | Stage::Accepting | Stage::Deferring => e is Done || e is Unencoded || e is Failed,
        Stage::Clearing | Stage::Cleaning => e is Done || e is Failed,
        Stage::Suspending | Stage::Resuming | Stage::Publishing | Stage::Halting
        | Stage::Restarting => e is Ready,
        Stage::JournalGuard | Stage::SuspendGuard | Stage::AcceptGuard | Stage::Guarding => e is Guarded,
        Stage::Applying | Stage::Reverting => e is Applied,
        Stage::Naming => e is Token,
        Stage::Timing => e is Clock,
        Stage::Undoing => e is Undone,
        Stage::Done => false,
        _ => e is Outcome,
    }
}

/// The attempt after these events.
#[verifier::opaque]
pub open spec fn run(a: AttemptView, es: Seq<EventView>) -> AttemptView
    decreases es.len(),
{
    if es.len() == 0 {
        a
    } else {
        attempt_next(run(a, es.drop_last()), es.last()).0
    }
}

/// Whether each of the events is one that the attempt then waits for.
#[verifier::opaque]
pub open spec fn fitting(a: AttemptView, es: Seq<EventView>) -> bool
    decreases es.len(),
{
    es.len() == 0 || (fitting(a, es.drop_last()) && fits(run(a, es.drop_last()).stage, es.last()))
}

/// The event that brings an attempt from one stage to the next on the way to
/// acceptance.
pub open spec fn leads(from: Stage, e: EventView, to: Stage) -> bool {
    match to {
        Stage::Checking => false,
        Stage::Capturing => from == Stage::Checking && e == EventView::Outcome(None),
        Stage::Keeping => from == Stage::Capturing && (e matches EventView::Captured(Ok(_))),
        Stage::Journaling => from == Stage::Keeping && (e matches EventView::Kept(Ok(_), Ok(_), _)),
        Stage::Suspending => from == Stage::Journaling && e == EventView::Done,
        Stage::Applying => from == Stage::Suspending && (e matches EventView::Ready(Ok(_))),
        Stage::Pruning => from == Stage::Applying && (e matches EventView::Applied(_, None)),
        Stage::Publishing => from == Stage::Pruning && e == EventView::Outcome(None),
        Stage::Waiting => from == Stage::Publishing && (e matches EventView::Ready(Ok(Some(_)))),
        Stage::Persisting => from == Stage::Waiting && e == EventView::Outcome(None),
        Stage::Retaining => from == Stage::Persisting && e == EventView::Outcome(None),
        Stage::Attributing => from == Stage::Retaining && e == EventView::Outcome(None),
        Stage::Accepting => from == Stage::Attributing && e == EventView::Outcome(None),
        Stage::Cleaning => from == Stage::Accepting && e == EventView::Done,
        Stage::Naming => from == Stage::Waiting && e == EventView::Outcome(None),
        Stage::Timing => from == Stage::Naming && (e matches EventView::Token(Ok(_))),
        Stage::Deferring => from == Stage::Timing && (e matches EventView::Clock(Ok(_))),
        _ => true,
    }
}

/// There is one way to each stage on the way to acceptance: what was to be
/// done before was done.
pub proof fn law_stages_follow_success(a: AttemptView, e: EventView)
    requires
        fits(a.stage, e),
    ensures
        leads(a.stage, e, attempt_next(a, e).0.stage),
{
}

/// The reply that says that a state was accepted comes only once the record of
/// it is written.
pub proof fn law_accepted_reply_follows_the_record(a: AttemptView, e: EventView, j: JsonView, broken: bool)
    requires
        fits(a.stage, e),
        attempt_next(a, e).1 == ActionView::Reply(j, broken),
        j.text_member("outcome"@) == Some("accepted"@),
    ensures
        a.stage == Stage::Cleaning,
        j == accepted_reply(a),
{
    lemma_outcomes();
    lemma_keys();
}

/// The outcomes are told apart.
proof fn lemma_outcomes()
    ensures
        "rejected"@ != "accepted"@,
        "failed"@ != "accepted"@,
        "indeterminate"@ != "accepted"@,
        "pending_confirmation"@ != "accepted"@,
{
    reveal_strlit("accepted");
    reveal_strlit("rejected");
    reveal_strlit("failed");
    reveal_strlit("indeterminate");
    reveal_strlit("pending_confirmation");
    assert("accepted"@[0] == 'a' && "rejected"@[0] == 'r');
}

/// No other member has the name of the outcome.
proof fn lemma_keys()
    ensures
        "ok"@ != "outcome"@,
        "status"@ != "outcome"@,
        "applied"@ != "outcome"@,
        "accepted"@ != "outcome"@,
        "revision"@ != "outcome"@,
        "base_revision"@ != "outcome"@,
        "predecessor_revision"@ != "outcome"@,
        "applying"@ != "outcome"@,
        "expires_at_unix_ms"@ != "outcome"@,
        "error"@ != "outcome"@,
        "restoration"@ != "outcome"@,
        "recovery_error"@ != "outcome"@,
        "cleanup_error"@ != "outcome"@,
{
    reveal_strlit("outcome");
    reveal_strlit("ok");
    reveal_strlit("status");
    reveal_strlit("applied");
    reveal_strlit("accepted");
    reveal_strlit("revision");
    reveal_strlit("base_revision");
    reveal_strlit("predecessor_revision");
    reveal_strlit("applying");
    reveal_strlit("expires_at_unix_ms");
    reveal_strlit("error");
    reveal_strlit("restoration");
    reveal_strlit("recovery_error");
    reveal_strlit("cleanup_error");
    assert("outcome"@.len() == 7 && "outcome"@[0] == 'o' && "applied"@[0] == 'a');
    assert("ok"@.len() == 2 && "status"@.len() == 6 && "accepted"@.len() == 8 && "revision"@.len() == 8);
    assert("base_revision"@.len() == 13 && "predecessor_revision"@.len() == 20);
    assert("applying"@.len() == 8 && "expires_at_unix_ms"@.len() == 18 && "error"@.len() == 5);
    assert("restoration"@.len() == 11 && "recovery_error"@.len() == 14 && "cleanup_error"@.len() == 13);
}

/// Where an attempt that has touched the network fails, the first thing that
/// is done is to stop forwarding; and where it ends without going back, it was
/// accepted, waits to be confirmed, or nobody can say whether it was accepted.
pub proof fn law_failure_stops_forwarding_first(a: AttemptView, e: EventView)
    requires
        is_forward(a.stage),
        fits(a.stage, e),
        !is_forward(attempt_next(a, e).0.stage),
    ensures
        attempt_next(a, e).0.stage == Stage::Guarding && attempt_next(a, e).1 == ActionView::RequireGuard
            || attempt_next(a, e).1 == ActionView::Reply(accepted_reply(a), false) || attempt_next(a, e).1
            == ActionView::Reply(pending_reply(a), false) || (e matches EventView::Guarded(_, d) && attempt_next(
            a,
            e,
        ).1 == ActionView::Reply(indeterminate_reply(a.error, d), false)),
{
}

/// Nothing but the record is written before the record is there.
pub proof fn law_nothing_is_touched_before_the_record(a: AttemptView, e: EventView)
    requires
        a.stage == Stage::Checking || a.stage == Stage::Capturing || a.stage == Stage::Keeping,
        fits(a.stage, e),
    ensures
        match attempt_next(a, e).1 {
            ActionView::Capture => true,
            ActionView::ReadKept => true,
            ActionView::WriteRecord(phase) => phase == ApplyPhase::Applying,
            ActionView::Reply(_, broken) => !broken,
            _ => false,
        },
{
}

/// What to go back to never changes: neither the old state nor, once they were
/// read, its predecessor and whoever made it.
pub proof fn law_what_to_go_back_to_stays(a: AttemptView, e: EventView)
    ensures
        attempt_next(a, e).0.current == a.current,
        a.stage != Stage::Keeping ==> attempt_next(a, e).0.predecessor == a.predecessor
            && attempt_next(a, e).0.attribution == a.attribution && attempt_next(a, e).0.ready_before
            == a.ready_before,
{
}

/// Going back, everything is tried whatever failed before: the services are
/// suspended, the old state is applied and written, and so are its
/// predecessor and whoever made it.
pub proof fn law_going_back_tries_everything(a: AttemptView, e: EventView)
    requires
        fits(a.stage, e),
    ensures
        a.stage == Stage::Guarding ==> attempt_next(a, e).1 == ActionView::SetReady(false),
        a.stage == Stage::Halting ==> attempt_next(a, e).1 == ActionView::ApplyCurrent,
        a.stage == Stage::Reverting ==> attempt_next(a, e).1 == ActionView::PruneProposed,
        a.stage == Stage::Unrouting ==> attempt_next(a, e).1 == ActionView::Undo,
        a.stage == Stage::Undoing ==> attempt_next(a, e).1 == ActionView::PersistCurrent,
        a.stage == Stage::Rewriting ==> attempt_next(a, e).1 == ActionView::RestorePredecessor,
        a.stage == Stage::Returning ==> attempt_next(a, e).1 == ActionView::RestoreAttribution,
{
}

/// A failure while going back is never forgotten, and forwarding is started
/// again only where there was none.
pub proof fn law_forwarding_starts_only_when_all_is_restored(a: AttemptView, e: EventView)
    requires
        attempt_inv(a),
        is_back(a.stage),
        fits(a.stage, e),
    ensures
        attempt_next(a, e).0.failures.len() >= a.failures.len(),
        attempt_next(a, e).1 == ActionView::FinishRecovery ==> attempt_next(a, e).0.failures.len() == 0,
        attempt_next(a, e).1 is SetReady && attempt_next(a, e).0.stage == Stage::Restarting
            ==> attempt_next(a, e).0.failures.len() == 0,
        attempt_next(a, e).1 matches ActionView::Reply(_, broken) ==> broken == (
        attempt_next(a, e).0.failures.len() > 0),
{
}

/// What holds of every attempt: its new state is one revision on, and it is
/// being finished only where nothing failed.
pub open spec fn attempt_inv(a: AttemptView) -> bool {
    &&& a.base == a.current.revision
    &&& a.stage == Stage::Checking || a.stage == Stage::Done || a.proposed.revision == a.current.revision + 1
    &&& a.stage == Stage::Restarting || a.stage == Stage::Rewaiting || a.stage == Stage::Finishing
        ==> a.failures.len() == 0
    &&& a.stage == Stage::Persisting || a.stage == Stage::Retaining || a.stage == Stage::Attributing
        || a.stage == Stage::Accepting || a.stage == Stage::AcceptGuard || a.stage == Stage::Cleaning
        ==> accepts_at_once(a)
    &&& a.stage == Stage::Naming || a.stage == Stage::Timing || a.stage == Stage::Deferring
        ==> !accepts_at_once(a)
    &&& a.stage == Stage::Timing || a.stage == Stage::Deferring ==> a.token is Some
}

/// A request begins with it, and every event keeps it.
pub proof fn law_attempt_invariant(q: ApplyRequest, a: AttemptView, e: EventView)
    ensures
        attempt_inv(first_attempt(q)),
        attempt_inv(a) ==> attempt_inv(attempt_next(a, e).0),
{
}

/// Whatever the events, a request that was not refused keeps the invariant.
pub proof fn law_every_run_keeps_the_invariant(q: ApplyRequest, es: Seq<EventView>)
    ensures
        attempt_inv(run(first_attempt(q), es)),
    decreases es.len(),
{
    reveal(run);
    if es.len() > 0 {
        law_every_run_keeps_the_invariant(q, es.drop_last());
        law_attempt_invariant(q, run(first_attempt(q), es.drop_last()), es.last());
    } else {
        law_attempt_invariant(q, first_attempt(q), EventView::Done);
    }
}

/// There is one run to acceptance: the rules were checked, the live network and
/// what is kept were looked at, and then the record of the attempt, the
/// suspension of the services, the new state on the live network, the removal
/// of old routes, the services of the new state, the wait for them, the new
/// state on disk, its predecessor, whoever made it and the record of
/// acceptance were each done, in that order.
pub proof fn law_acceptance_follows_every_step(q: ApplyRequest, es: Seq<EventView>)
    requires
        fitting(first_attempt(q), es),
        run(first_attempt(q), es).stage == Stage::Cleaning,
    ensures
        es.len() == 13,
        es[0] == EventView::Outcome(None),
        es[1] matches EventView::Captured(Ok(_)),
        es[2] matches EventView::Kept(Ok(_), Ok(_), _),
        es[3] == EventView::Done,
        es[4] matches EventView::Ready(Ok(_)),
        es[5] matches EventView::Applied(_, None),
        es[6] == EventView::Outcome(None),
        es[7] matches EventView::Ready(Ok(Some(_))),
        es[8] == EventView::Outcome(None),
        es[9] == EventView::Outcome(None),
        es[10] == EventView::Outcome(None),
        es[11] == EventView::Outcome(None),
        es[12] == EventView::Done,
{
    let a = first_attempt(q);
    let n = es.len() as int;
    lemma_step_back(a, es);
    lemma_step_back(a, es.take(n - 1));
    lemma_step_back(a, es.take(n - 2));
    lemma_step_back(a, es.take(n - 3));
    lemma_step_back(a, es.take(n - 4));
    lemma_step_back(a, es.take(n - 5));
    lemma_step_back(a, es.take(n - 6));
    lemma_step_back(a, es.take(n - 7));
    lemma_step_back(a, es.take(n - 8));
    lemma_step_back(a, es.take(n - 9));
    lemma_step_back(a, es.take(n - 10));
    lemma_step_back(a, es.take(n - 11));
    lemma_step_back(a, es.take(n - 12));
    lemma_step_back(a, es.take(n - 13));
}

/// There is one run to a change that waits to be confirmed: the new state is
/// live with its services, but neither it nor its predecessor nor whoever made
/// it was written.
pub proof fn law_deferral_follows_every_step(q: ApplyRequest, es: Seq<EventView>)
    requires
        fitting(first_attempt(q), es),
        run(first_attempt(q), es).stage == Stage::Deferring,
    ensures
        es.len() == 11,
        es[3] == EventView::Done,
        es[4] matches EventView::Ready(Ok(_)),
        es[5] matches EventView::Applied(_, None),
        es[6] == EventView::Outcome(None),
        es[7] matches EventView::Ready(Ok(Some(_))),
        es[8] == EventView::Outcome(None),
        es[9] matches EventView::Token(Ok(_)),
        es[10] matches EventView::Clock(Ok(_)),
{
    let a = first_attempt(q);
    let n = es.len() as int;
    lemma_step_back(a, es);
    lemma_step_back(a, es.take(n - 1));
    lemma_step_back(a, es.take(n - 2));
    lemma_step_back(a, es.take(n - 3));
    lemma_step_back(a, es.take(n - 4));
    lemma_step_back(a, es.take(n - 5));
    lemma_step_back(a, es.take(n - 6));
    lemma_step_back(a, es.take(n - 7));
    lemma_step_back(a, es.take(n - 8));
    lemma_step_back(a, es.take(n - 9));
    lemma_step_back(a, es.take(n - 10));
    lemma_step_back(a, es.take(n - 11));
}

/// The last event of a run and the stage before it.
proof fn lemma_step_back(a: AttemptView, es: Seq<EventView>)
    requires
        fitting(a, es),
        a.stage == Stage::Checking,
    ensures
        run(a, es).stage != Stage::Checking ==> es.len() > 0,
        es.len() > 0 ==> {
            &&& fitting(a, es.take(es.len() - 1))
            &&& leads(run(a, es.take(es.len() - 1)).stage, es[es.len() - 1], run(a, es).stage)
        },
        forall|k: int| 0 <= k < es.len() ==> #[trigger] es.take(es.len() - 1).take(k) == es.take(k),
{
    reveal(run);
    reveal(fitting);
    if es.len() > 0 {
        assert(es.drop_last() == es.take(es.len() - 1));
        law_stages_follow_success(run(a, es.drop_last()), es.last());
    }
}

/// A request is refused only for a reason: where nothing else is under way, the
/// accepted state is known and is the one that the request is based on, and
/// the state that is asked for breaks no rule, an attempt begins with it.
pub proof fn law_valid_request_begins(q: ApplyRequest)
    requires
        !q.busy,
        q.accepted is Ok,
        q.base_revision is None || q.base_revision->0 == (q.accepted->Ok_0).revision,
        q.proposed is Ok,
        validate_error((q.proposed->Ok_0)@) is None,
    ensures
        request_refusal(q) is None,
        first_attempt(q).stage == Stage::Checking,
        first_attempt(q).current == (q.accepted->Ok_0)@,
        first_attempt(q).proposed == (q.proposed->Ok_0)@,
        first_attempt(q).base == (q.accepted->Ok_0).revision,
        first_attempt(q).actor == principal_opt(q.actor),
        first_attempt(q).draft_version == text_opt(q.draft_version),
        first_attempt(q).intent == q.intent,
{
}

/// A request is refused where another apply is under way, where the accepted
/// state cannot be told, where it is another than the request is based on, and
/// where the state that is asked for breaks a rule, with what is wrong.
pub proof fn law_other_requests_are_refused(q: ApplyRequest)
    ensures
        q.busy ==> (request_refusal(q) matches Some(r) && r.member("ok"@) == Some(JsonView::Bool(false))
            && r.member("outcome"@) == Some(JsonView::Text("busy"@))),
        !q.busy && q.accepted is Err ==> (request_refusal(q) matches Some(r) && r.member("ok"@) == Some(
            JsonView::Bool(false),
        ) && r.member("error"@) == Some(JsonView::Text((q.accepted->Err_0)@))),
        !q.busy && q.accepted is Ok && q.base_revision is Some && q.base_revision->0
            != (q.accepted->Ok_0).revision ==> (request_refusal(q) matches Some(r) && r.member("ok"@) == Some(
            JsonView::Bool(false),
        ) && r.member("outcome"@) == Some(JsonView::Text("rejected"@)) && r.member("revision"@) == Some(
            JsonView::Natural((q.accepted->Ok_0).revision),
        )),
        !q.busy && q.accepted is Ok && (q.base_revision is None || q.base_revision->0
            == (q.accepted->Ok_0).revision) && q.proposed is Ok && validate_error((q.proposed->Ok_0)@) is Some ==> (
        request_refusal(q) matches Some(r) && r.member("ok"@) == Some(JsonView::Bool(false)) && r.member(
            "error"@,
        ) == Some(JsonView::Text(validate_error((q.proposed->Ok_0)@)->0))),
{
    lemma_reply_keys();
}

/// The keys of replies are different.
pub proof fn lemma_reply_keys()
    ensures
        "ok"@.len() == 2,
        "outcome"@.len() == 7 && "outcome"@[0] == 'o',
        "status"@.len() == 6,
        "applied"@.len() == 7 && "applied"@[0] == 'a',
        "accepted"@.len() == 8 && "accepted"@[0] == 'a' && "accepted"@[1] == 'c',
        "revision"@.len() == 8 && "revision"@[0] == 'r',
        "applying"@.len() == 8 && "applying"@[0] == 'a' && "applying"@[1] == 'p',
        "base_revision"@.len() == 13,
        "predecessor_revision"@.len() == 20,
        "expires_at_unix_ms"@.len() == 18,
        "restoration"@.len() == 11,
        "error"@.len() == 5,
        "recovery_error"@.len() == 14,
        "cleanup_error"@.len() == 13 && "cleanup_error"@[0] == 'c',
        "base_revision"@[0] == 'b',
        "confirming"@.len() == 10,
        "bootstrapped"@.len() == 12,
        "next_action"@.len() == 11 && "next_action"@[0] == 'n' && "restoration"@[0] == 'r',
{
    reveal_strlit("ok");
    reveal_strlit("outcome");
    reveal_strlit("status");
    reveal_strlit("applied");
    reveal_strlit("accepted");
    reveal_strlit("revision");
    reveal_strlit("applying");
    reveal_strlit("base_revision");
    reveal_strlit("predecessor_revision");
    reveal_strlit("expires_at_unix_ms");
    reveal_strlit("restoration");
    reveal_strlit("error");
    reveal_strlit("recovery_error");
    reveal_strlit("cleanup_error");
    reveal_strlit("confirming");
    reveal_strlit("bootstrapped");
    reveal_strlit("next_action");
}

/// Before anything is touched, each success leads on to the next thing: the
/// rules are checked, the new state gets the next revision and nothing else is
/// changed in it, the live network and what is kept are looked at and
/// remembered, the record is written, and the services are suspended.
pub proof fn law_success_leads_to_the_record(
    a: AttemptView,
    f: FootprintView,
    p: Option<Seq<u8>>,
    t: Option<Seq<u8>>,
    ready: bool,
    g: Option<Seq<char>>,
)
    ensures
        a.stage == Stage::Checking && a.current.revision < u64::MAX ==> {
            let (b, action) = attempt_next(a, EventView::Outcome(None));
            &&& action == ActionView::Capture
            &&& b == AttemptView {
                stage: Stage::Capturing,
                proposed: DesiredView { revision: (a.current.revision + 1) as u64, ..a.proposed },
                ..a
            }
        },
        a.stage == Stage::Capturing ==> attempt_next(a, EventView::Captured(Ok(f))) == (
            AttemptView { stage: Stage::Keeping, footprint: Some(f), ..a },
            ActionView::ReadKept,
        ),
        a.stage == Stage::Keeping ==> attempt_next(a, EventView::Kept(Ok(p), Ok(t), ready)) == (
            AttemptView { stage: Stage::Journaling, predecessor: p, attribution: t, ready_before: ready, ..a },
            ActionView::WriteRecord(ApplyPhase::Applying),
        ),
        a.stage == Stage::Journaling ==> attempt_next(a, EventView::Done) == (
            AttemptView { stage: Stage::Suspending, ..a },
            ActionView::SetReady(false),
        ),
        a.stage == Stage::Suspending ==> attempt_next(a, EventView::Ready(Ok(g))) == (
            AttemptView { stage: Stage::Applying, ..a },
            ActionView::ApplyProposed,
        ),
{
}

/// From there each success leads on: the new state is applied, old routes are
/// taken away, the services are started and waited for; and where the new state
/// need not be confirmed, it is written, its predecessor is kept, whoever made
/// it is noted, and the record makes it the accepted one.
pub proof fn law_success_leads_to_acceptance(a: AttemptView, v: Seq<IfaceView>, g: Seq<char>)
    ensures
        a.stage == Stage::Applying ==> attempt_next(a, EventView::Applied(v, None)) == (
            AttemptView {
                stage: Stage::Pruning,
                proposed: DesiredView { interfaces: v, ..a.proposed },
                ..a
            },
            ActionView::PruneCurrent,
        ),
        a.stage == Stage::Pruning ==> attempt_next(a, EventView::Outcome(None)) == (
            AttemptView { stage: Stage::Publishing, ..a },
            ActionView::SetReady(true),
        ),
        a.stage == Stage::Publishing ==> attempt_next(a, EventView::Ready(Ok(Some(g)))) == (
            AttemptView { stage: Stage::Waiting, ..a },
            ActionView::Wait(g),
        ),
        a.stage == Stage::Waiting && (!a.current.apply_confirmation || a.intent == ApplyIntent::RecoveryRestore)
            ==> attempt_next(a, EventView::Outcome(None)) == (
            AttemptView { stage: Stage::Persisting, ..a },
            ActionView::PersistProposed,
        ),
        a.stage == Stage::Persisting ==> attempt_next(a, EventView::Outcome(None)) == (
            AttemptView { stage: Stage::Retaining, ..a },
            ActionView::RetainCurrent,
        ),
        a.stage == Stage::Retaining ==> attempt_next(a, EventView::Outcome(None)) == (
            AttemptView { stage: Stage::Attributing, ..a },
            ActionView::WriteAttribution,
        ),
        a.stage == Stage::Attributing ==> attempt_next(a, EventView::Outcome(None)) == (
            AttemptView { stage: Stage::Accepting, ..a },
            ActionView::WriteRecord(ApplyPhase::Accepted),
        ),
        a.stage == Stage::Accepting ==> attempt_next(a, EventView::Done) == (
            AttemptView { stage: Stage::Cleaning, ..a },
            ActionView::RemoveRecord,
        ),
{
}

/// Where the accepted state asks for it, a change waits to be confirmed: it is
/// given a name and a time, and the record says so; a restoration never waits.
pub proof fn law_success_leads_to_confirmation(a: AttemptView, t: Seq<char>, boot: u64, unix: u64)
    ensures
        a.stage == Stage::Waiting && a.current.apply_confirmation && a.intent == ApplyIntent::Ordinary
            ==> attempt_next(a, EventView::Outcome(None)) == (
            AttemptView { stage: Stage::Naming, ..a },
            ActionView::MakeToken,
        ),
        a.stage == Stage::Naming ==> attempt_next(a, EventView::Token(Ok(t))) == (
            AttemptView { stage: Stage::Timing, token: Some(t), ..a },
            ActionView::ReadClock,
        ),
        a.stage == Stage::Timing ==> attempt_next(a, EventView::Clock(Ok((boot, unix)))) == (
            AttemptView { stage: Stage::Deferring, boot_ns: boot, unix_ms: unix, ..a },
            ActionView::WriteRecord(ApplyPhase::PendingConfirmation),
        ),
{
}

/// What the reply to an accepted change says: that it is applied and accepted,
/// its revision, the one before, and who made it; a record that stays behind
/// changes nothing about that.
pub proof fn law_accepted_reply_tells_the_change(a: AttemptView, x: Seq<char>, dirty: bool)
    requires
        a.stage == Stage::Cleaning,
    ensures
        attempt_next(a, EventView::Failed(x, dirty)) == attempt_next(a, EventView::Done),
        attempt_next(a, EventView::Done).1 matches ActionView::Reply(r, broken) && {
            &&& !broken
            &&& r.member("ok"@) == Some(JsonView::Bool(true))
            &&& r.member("outcome"@) == Some(JsonView::Text("accepted"@))
            &&& r.member("status"@) == Some(JsonView::Text("accepted"@))
            &&& r.member("applied"@) == Some(JsonView::Bool(true))
            &&& r.member("accepted"@) == Some(JsonView::Bool(true))
            &&& r.member("revision"@) == Some(JsonView::Natural(a.proposed.revision))
            &&& r.member("base_revision"@) == Some(JsonView::Natural(a.base))
            &&& r.member("predecessor_revision"@) == Some(JsonView::Natural(a.current.revision))
        },
{
    lemma_reply_keys();
}

/// What the reply to a change that waits says: that it is applied but not
/// accepted, its revision, and until when it can be confirmed, which is two
/// minutes on.
pub proof fn law_pending_reply_tells_the_change(a: AttemptView)
    requires
        a.stage == Stage::Deferring,
        a.unix_ms <= u64::MAX - 120_000,
    ensures
        attempt_next(a, EventView::Done).1 matches ActionView::Reply(r, broken) && {
            &&& !broken
            &&& r.member("ok"@) == Some(JsonView::Bool(true))
            &&& r.member("outcome"@) == Some(JsonView::Text("pending_confirmation"@))
            &&& r.member("status"@) == Some(JsonView::Text("pending_confirmation"@))
            &&& r.member("applied"@) == Some(JsonView::Bool(true))
            &&& r.member("accepted"@) == Some(JsonView::Bool(false))
            &&& r.member("revision"@) == Some(JsonView::Natural(a.proposed.revision))
            &&& r.member("expires_at_unix_ms"@) == Some(JsonView::Natural((a.unix_ms + 120_000) as u64))
        },
{
    lemma_reply_keys();
}

/// Once the network is touched, every failure is gone back from, with its
/// reason.
pub proof fn law_every_failure_is_gone_back_from(a: AttemptView, v: Seq<IfaceView>, x: Seq<char>, dirty: bool)
    ensures
        a.stage == Stage::Applying ==> {
            let (b, action) = attempt_next(a, EventView::Applied(v, Some(x)));
            b.stage == Stage::Guarding && b.error == x && b.failures.len() == 0 && action == ActionView::RequireGuard
        },
        a.stage == Stage::Pruning || a.stage == Stage::Waiting || a.stage == Stage::Persisting || a.stage
            == Stage::Retaining || a.stage == Stage::Attributing ==> {
            let (b, action) = attempt_next(a, EventView::Outcome(Some(x)));
            b.stage == Stage::Guarding && b.error == x && b.failures.len() == 0 && action == ActionView::RequireGuard
        },
        a.stage == Stage::Publishing ==> {
            let (b, action) = attempt_next(a, EventView::Ready(Err(x)));
            b.stage == Stage::Guarding && b.error == x && b.failures.len() == 0 && action == ActionView::RequireGuard
        },
        a.stage == Stage::Publishing ==> {
            let (b, action) = attempt_next(a, EventView::Ready(Ok(None)));
            b.stage == Stage::Guarding && b.failures.len() == 0 && action == ActionView::RequireGuard
        },
        a.stage == Stage::Naming ==> {
            let (b, action) = attempt_next(a, EventView::Token(Err(x)));
            b.stage == Stage::Guarding && b.error == x && b.failures.len() == 0 && action == ActionView::RequireGuard
        },
        a.stage == Stage::Timing ==> {
            let (b, action) = attempt_next(a, EventView::Clock(Err(x)));
            b.stage == Stage::Guarding && b.error == x && b.failures.len() == 0 && action == ActionView::RequireGuard
        },
        a.stage == Stage::Deferring ==> {
            let (b, action) = attempt_next(a, EventView::Failed(x, dirty));
            b.stage == Stage::Guarding && b.failures.len() == 0 && action == ActionView::RequireGuard
        },
        a.stage == Stage::Accepting ==> {
            let (b, action) = attempt_next(a, EventView::Failed(x, dirty));
            b.stage == Stage::AcceptGuard && action == ActionView::RequireGuard
        },
{
}

/// Going back, each step leads to the next, whatever came of it, and what
/// failed is added to what failed before.
pub proof fn law_going_back_goes_all_the_way(
    a: AttemptView,
    x: Option<Seq<char>>,
    d: Seq<char>,
    g: Option<Seq<char>>,
    v: Seq<IfaceView>,
    undone: Seq<Seq<char>>,
)
    ensures
        ({
            let n: int = if x is Some {
                1
            } else {
                0
            };
            let grown = |b: AttemptView, by: int|
                b.failures.len() == a.failures.len() + by && b.failures.take(a.failures.len() as int) == a.failures;
            let outcome = attempt_next(a, EventView::Outcome(x));
            &&& a.stage == Stage::Guarding ==> {
                let (b, action) = attempt_next(a, EventView::Guarded(x, d));
                b.stage == Stage::Halting && grown(b, n)
            }
            &&& a.stage == Stage::Halting ==> {
                let (b, action) = attempt_next(a, EventView::Ready(Ok(g)));
                b.stage == Stage::Reverting && grown(b, 0)
            }
            &&& a.stage == Stage::Halting ==> {
                let (b, action) = attempt_next(a, EventView::Ready(Err(d)));
                b.stage == Stage::Reverting && grown(b, 1)
            }
            &&& a.stage == Stage::Reverting ==> {
                let (b, action) = attempt_next(a, EventView::Applied(v, x));
                b.stage == Stage::Unrouting && grown(b, n)
            }
            &&& a.stage == Stage::Unrouting ==> outcome.0.stage == Stage::Undoing && grown(outcome.0, n)
            &&& a.stage == Stage::Undoing ==> {
                let (b, action) = attempt_next(a, EventView::Undone(undone));
                b.stage == Stage::Rewriting && b.failures == a.failures + undone
            }
            &&& a.stage == Stage::Rewriting ==> outcome.0.stage == Stage::Returning && grown(outcome.0, n)
            &&& a.stage == Stage::Returning ==> outcome.0.stage == Stage::Reattributing && grown(outcome.0, n)
        }),
{
    let outcome = attempt_next(a, EventView::Outcome(x));
    assert(a.failures.take(a.failures.len() as int) =~= a.failures);
    assert(attempt_next(a, EventView::Guarded(x, d)).0.failures.take(a.failures.len() as int) =~= a.failures
        || a.stage != Stage::Guarding);
    assert(attempt_next(a, EventView::Ready(Err(d))).0.failures.take(a.failures.len() as int) =~= a.failures
        || a.stage != Stage::Halting);
    assert(attempt_next(a, EventView::Applied(v, x)).0.failures.take(a.failures.len() as int) =~= a.failures
        || a.stage != Stage::Reverting);
    assert(outcome.0.failures.take(a.failures.len() as int) =~= a.failures || !(a.stage == Stage::Unrouting
        || a.stage == Stage::Rewriting || a.stage == Stage::Returning));
}

/// Where nothing failed on the way back, the services are put back as they
/// were, waited for where there are any, and forwarding is started; the reply
/// then says that everything is restored, and why the change failed. Where
/// anything failed, it says that a recovery is required.
pub proof fn law_restoration_ends_well_where_nothing_failed(a: AttemptView, g: Seq<char>, x: Seq<char>)
    ensures
        a.stage == Stage::Reattributing && a.failures.len() == 0 ==> attempt_next(a, EventView::Outcome(None)) == (
            AttemptView { stage: Stage::Restarting, ..a },
            ActionView::SetReady(a.ready_before),
        ),
        a.stage == Stage::Restarting ==> attempt_next(a, EventView::Ready(Ok(Some(g)))) == (
            AttemptView { stage: Stage::Rewaiting, ..a },
            ActionView::Wait(g),
        ),
        a.stage == Stage::Restarting ==> attempt_next(a, EventView::Ready(Ok(None))) == (
            AttemptView { stage: Stage::Finishing, ..a },
            ActionView::FinishRecovery,
        ),
        a.stage == Stage::Rewaiting && a.failures.len() == 0 ==> attempt_next(a, EventView::Outcome(None)) == (
            AttemptView { stage: Stage::Finishing, ..a },
            ActionView::FinishRecovery,
        ),
        a.stage == Stage::Finishing && a.failures.len() == 0 ==> (attempt_next(a, EventView::Outcome(None)).1
            matches ActionView::Reply(r, broken) && !broken && r.member("ok"@) == Some(JsonView::Bool(false))
            && r.member("status"@) == Some(JsonView::Text("restored"@)) && r.member("restoration"@) == Some(
            JsonView::Text("restored"@),
        ) && r.member("revision"@) == Some(JsonView::Natural(a.current.revision)) && r.member("error"@) == Some(
            JsonView::Text(a.error),
        )),
        a.stage == Stage::Finishing || a.stage == Stage::Rewaiting || a.stage == Stage::Reattributing ==> (
        attempt_next(a, EventView::Outcome(Some(x))).1 matches ActionView::Reply(r, broken) && broken && r.member(
            "ok"@,
        ) == Some(JsonView::Bool(false)) && r.member("status"@) == Some(JsonView::Text("recovery_required"@))
            && r.member("error"@) == Some(JsonView::Text(a.error))),
        a.stage == Stage::Restarting ==> (attempt_next(a, EventView::Ready(Err(x))).1 matches ActionView::Reply(
            r,
            broken,
        ) && broken && r.member("status"@) == Some(JsonView::Text("recovery_required"@))),
{
    lemma_reply_keys();
}

/// Whatever fails before the network is touched is told, with the accepted
/// revision where it is known, and leaves no record that could be recovered
/// from unless forwarding is stopped first.
pub proof fn law_early_failures_are_told(a: AttemptView, x: Seq<char>, p: Option<Seq<u8>>, ready: bool, d: Seq<char>)
    ensures
        a.stage == Stage::Checking ==> (attempt_next(a, EventView::Outcome(Some(x))).1 matches ActionView::Reply(
            r,
            broken,
        ) && !broken && r.member("ok"@) == Some(JsonView::Bool(false)) && r.member("error"@) == Some(
            JsonView::Text(x),
        ) && r.member("revision"@) == Some(JsonView::Natural(a.current.revision))),
        a.stage == Stage::Checking && a.current.revision == u64::MAX ==> (attempt_next(
            a,
            EventView::Outcome(None),
        ).1 matches ActionView::Reply(r, broken) && !broken && r.member("ok"@) == Some(JsonView::Bool(false))),
        a.stage == Stage::Capturing ==> (attempt_next(a, EventView::Captured(Err(x))).1
            matches ActionView::Reply(r, broken) && !broken && r.member("ok"@) == Some(JsonView::Bool(false))
            && r.member("restoration"@) == Some(JsonView::Text("unchanged"@))),
        a.stage == Stage::Keeping ==> (attempt_next(a, EventView::Kept(Err(x), Ok(p), ready)).1
            matches ActionView::Reply(r, broken) && !broken && r.member("ok"@) == Some(JsonView::Bool(false))),
        a.stage == Stage::Keeping ==> (attempt_next(a, EventView::Kept(Ok(p), Err(x), ready)).1
            matches ActionView::Reply(r, broken) && !broken && r.member("ok"@) == Some(JsonView::Bool(false))),
        a.stage == Stage::Journaling ==> (attempt_next(a, EventView::Failed(x, false)).1
            matches ActionView::Reply(r, broken) && !broken && r.member("ok"@) == Some(JsonView::Bool(false))
            && r.member("restoration"@) == Some(JsonView::Text("unchanged"@))),
        a.stage == Stage::Journaling ==> attempt_next(a, EventView::Failed(x, true)).1 == ActionView::RequireGuard
            && attempt_next(a, EventView::Failed(x, true)).0.stage == Stage::JournalGuard,
        a.stage == Stage::Suspending ==> attempt_next(a, EventView::Ready(Err(x))).1 == ActionView::SetReady(
            a.ready_before,
        ) && attempt_next(a, EventView::Ready(Err(x))).0.stage == Stage::Resuming,
        a.stage == Stage::Resuming ==> attempt_next(a, EventView::Ready(Ok(Some(d)))).1 == ActionView::RemoveRecord
            && attempt_next(a, EventView::Ready(Ok(None))).1 == ActionView::RemoveRecord,
        a.stage == Stage::Resuming ==> attempt_next(a, EventView::Ready(Err(x))).1 == ActionView::RequireGuard,
        a.stage == Stage::Clearing ==> (attempt_next(a, EventView::Done).1 matches ActionView::Reply(r, broken)
            && !broken && r.member("restoration"@) == Some(JsonView::Text("unchanged"@))),
        a.stage == Stage::Clearing ==> attempt_next(a, EventView::Failed(x, true)).1 == ActionView::RequireGuard,
{
    lemma_reply_keys();
}

/// The record of an attempt holds what to go back to: the accepted state, its
/// predecessor, and whoever made both; while the change waits, also the change
/// itself, its name, and until when it can be confirmed.
pub proof fn law_record_holds_what_to_go_back_to(a: AttemptView, phase: ApplyPhase)
    ensures
        record_of(a, phase).phase == phase,
        record_of(a, phase).accepted == a.current,
        record_of(a, phase).previous_accepted == a.predecessor,
        record_of(a, phase).previous_attribution == a.attribution,
        record_of(a, phase).applying == a.actor,
        record_of(a, phase).draft_version == a.draft_version,
        phase == ApplyPhase::PendingConfirmation ==> record_of(a, phase).proposed == Some(a.proposed),
        phase == ApplyPhase::PendingConfirmation ==> record_of(a, phase).confirmation_id == a.token,
        phase == ApplyPhase::PendingConfirmation && a.boot_ns <= u64::MAX - 120_000_000_000 ==> record_of(
            a,
            phase,
        ).deadline_boot_ns == Some((a.boot_ns + 120_000_000_000) as u64),
        phase == ApplyPhase::PendingConfirmation && a.unix_ms <= u64::MAX - 120_000 ==> record_of(
            a,
            phase,
        ).expires_at_unix_ms == Some((a.unix_ms + 120_000) as u64),
        attribution_of(a).revision == a.proposed.revision,
        attribution_of(a).applying == a.actor,
        attribution_of(a).confirming is None,
        attribution_of(a).draft_version == a.draft_version,
{
}

/// What is done on the way back: forwarding was blocked, then the services are
/// suspended, the old state applied, new routes removed, everything else that was
/// new undone, the old state written, and its predecessor and makers put back,
/// one after the other; what fails is noted with what it was.
pub proof fn law_going_back_does_each_step(
    a: AttemptView,
    x: Seq<char>,
    d: Seq<char>,
    g: Option<Seq<char>>,
    v: Seq<IfaceView>,
    undone: Seq<Seq<char>>,
)
    ensures
        a.stage == Stage::Guarding ==> {
            &&& attempt_next(a, EventView::Guarded(None, d)) == (
                AttemptView { stage: Stage::Halting, ..a },
                ActionView::SetReady(false),
            )
            &&& attempt_next(a, EventView::Guarded(Some(x), d)) == (
                AttemptView {
                    stage: Stage::Halting,
                    failures: a.failures.push("block forwarding during recovery: "@ + x),
                    ..a
                },
                ActionView::SetReady(false),
            )
        },
        a.stage == Stage::Halting ==> {
            &&& attempt_next(a, EventView::Ready(Ok(g))) == (
                AttemptView { stage: Stage::Reverting, ..a },
                ActionView::ApplyCurrent,
            )
            &&& attempt_next(a, EventView::Ready(Err(x))) == (
                AttemptView {
                    stage: Stage::Reverting,
                    failures: a.failures.push("suspend tentative LAN services: "@ + x),
                    ..a
                },
                ActionView::ApplyCurrent,
            )
        },
        a.stage == Stage::Reverting ==> {
            &&& attempt_next(a, EventView::Applied(v, None)) == (
                AttemptView { stage: Stage::Unrouting, ..a },
                ActionView::PruneProposed,
            )
            &&& attempt_next(a, EventView::Applied(v, Some(x))) == (
                AttemptView {
                    stage: Stage::Unrouting,
                    failures: a.failures.push("restore live Accepted state: "@ + x),
                    ..a
                },
                ActionView::PruneProposed,
            )
        },
        a.stage == Stage::Unrouting ==> {
            &&& attempt_next(a, EventView::Outcome(None)) == (
                AttemptView { stage: Stage::Undoing, ..a },
                ActionView::Undo,
            )
            &&& attempt_next(a, EventView::Outcome(Some(x))) == (
                AttemptView {
                    stage: Stage::Undoing,
                    failures: a.failures.push("remove tentative routes: "@ + x),
                    ..a
                },
                ActionView::Undo,
            )
        },
        a.stage == Stage::Undoing ==> attempt_next(a, EventView::Undone(undone)) == (
            AttemptView { stage: Stage::Rewriting, failures: a.failures + undone, ..a },
            ActionView::PersistCurrent,
        ),
        a.stage == Stage::Rewriting ==> {
            &&& attempt_next(a, EventView::Outcome(None)) == (
                AttemptView { stage: Stage::Returning, ..a },
                ActionView::RestorePredecessor,
            )
            &&& attempt_next(a, EventView::Outcome(Some(x))) == (
                AttemptView {
                    stage: Stage::Returning,
                    failures: a.failures.push("restore durable Accepted state: "@ + x),
                    ..a
                },
                ActionView::RestorePredecessor,
            )
        },
        a.stage == Stage::Returning ==> {
            &&& attempt_next(a, EventView::Outcome(None)) == (
                AttemptView { stage: Stage::Reattributing, ..a },
                ActionView::RestoreAttribution,
            )
            &&& attempt_next(a, EventView::Outcome(Some(x))) == (
                AttemptView {
                    stage: Stage::Reattributing,
                    failures: a.failures.push("restore retained predecessor: "@ + x),
                    ..a
                },
                ActionView::RestoreAttribution,
            )
        },
{
}

/// What is gone back to never changes once it is recorded: the accepted state,
/// its predecessor and makers, what the network was like, and whether the
/// services were ready; nor does who asked for the change.
pub proof fn law_attempt_keeps_what_it_goes_back_to(a: AttemptView, e: EventView)
    requires
        a.stage != Stage::Capturing,
        a.stage != Stage::Keeping,
    ensures
        ({
            let b = attempt_next(a, e).0;
            &&& b.current == a.current && b.predecessor == a.predecessor && b.attribution == a.attribution
            &&& b.footprint == a.footprint && b.ready_before == a.ready_before
            &&& b.actor == a.actor && b.draft_version == a.draft_version && b.intent == a.intent && b.base == a.base
        }),
{
}

/// Where nobody can say what a record holds, forwarding is blocked and the reply
/// says that a recovery is required; and an attempt of which nobody can say
/// whether it was accepted is told as such.
pub proof fn law_doubtful_attempts_are_told(a: AttemptView, r: Option<Seq<char>>, d: Seq<char>)
    ensures
        a.stage == Stage::JournalGuard ==> (attempt_next(a, EventView::Guarded(r, d)).1 matches ActionView::Reply(v, b)
            && v.member("ok"@) == Some(JsonView::Bool(false)) && v.member("outcome"@) == Some(
            JsonView::Text("failed"@),
        ) && v.member("restoration"@) == Some(JsonView::Text("required"@)) && v.member("recovery_error"@) == Some(
            JsonView::Text("forwarding guard: "@ + d),
        )),
        a.stage == Stage::SuspendGuard ==> (attempt_next(a, EventView::Guarded(r, d)).1 matches ActionView::Reply(v, b)
            && v.member("ok"@) == Some(JsonView::Bool(false)) && v.member("restoration"@) == Some(
            JsonView::Text("required"@),
        ) && v.member("recovery_error"@) is Some),
        a.stage == Stage::AcceptGuard ==> (attempt_next(a, EventView::Guarded(r, d)).1 matches ActionView::Reply(v, b)
            && v.member("ok"@) == Some(JsonView::Bool(false)) && v.member("outcome"@) == Some(
            JsonView::Text("indeterminate"@),
        ) && v.member("restoration"@) == Some(JsonView::Text("required"@)) && v.member("error"@) == Some(
            JsonView::Text(a.error),
        )),
{
    lemma_reply_keys();
}

/// A refusal tells what became of the request, the accepted revision where that
/// is known, and why.
pub proof fn law_refusals_tell_why(outcome: Seq<char>, revision: Option<u64>, error: Seq<char>)
    ensures
        refusal(outcome, revision, error).member("ok"@) == Some(JsonView::Bool(false)),
        refusal(outcome, revision, error).member("outcome"@) == Some(JsonView::Text(outcome)),
        refusal(outcome, revision, error).member("error"@) == Some(JsonView::Text(error)),
        refusal(outcome, revision, error).member("revision"@) == (match revision {
            Some(n) => Some(JsonView::Natural(n)),
            None => None,
        }),
{
    lemma_reply_keys();
}

/// A person is told by source, subject and name; nobody is told as null.
pub proof fn law_people_are_told(p: PrincipalView)
    ensures
        principal_json(Some(p)).member("source"@) == Some(JsonView::Text(p.source)),
        principal_json(Some(p)).member("subject"@) == Some(JsonView::Text(p.subject)),
        principal_json(Some(p)).member("username"@) == Some(JsonView::Text(p.username)),
        principal_json(None) is Null,
{
    reveal_strlit("source");
    reveal_strlit("subject");
    reveal_strlit("username");
    assert("source"@.len() == 6 && "subject"@.len() == 7 && "username"@.len() == 8);
}

/// Time does not run over: it stops at the last moment that can be told.
pub proof fn law_later_is_later(t: u64, by: u64)
    ensures
        t + by <= u64::MAX ==> later(t, by) == t + by,
        t + by > u64::MAX ==> later(t, by) == u64::MAX,
{
}

} // verus!
