//! The record of an apply that is under way, and what it means for whoever
//! finds it: an apply to recover from, a change that waits to be confirmed, or
//! one that was accepted.

use crate::desired::{DesiredState, DesiredView};
use crate::identity::{Principal, PrincipalView};
use crate::text::text_opt;
use vstd::prelude::*;

verus! {

/// How far an apply has come.
#[derive(Clone, Copy, Debug, PartialEq, Eq, Structural)]
pub enum ApplyPhase {
    Applying,
    PendingConfirmation,
    Accepted,
}

impl Default for ApplyPhase {
    fn default() -> (r: Self)
        ensures
            r == ApplyPhase::Applying,
    {
        ApplyPhase::Applying
    }
}

/// What an apply is for.
#[derive(Clone, Copy, Debug, PartialEq, Eq, Structural)]
pub enum ApplyIntent {
    Ordinary,
    RecoveryRestore,
}

/// The record of an apply: what to go back to, and what is being tried.
#[derive(Debug)]
pub struct ApplyOperation {
    pub phase: ApplyPhase,
    pub accepted: DesiredState,
    pub previous_accepted: Option<Vec<u8>>,
    pub previous_attribution: Option<Vec<u8>>,
    pub proposed: Option<DesiredState>,
    pub confirmation_id: Option<String>,
    pub applying: Option<Principal>,
    pub draft_version: Option<String>,
    pub deadline_boot_ns: Option<u64>,
    pub expires_at_unix_ms: Option<u64>,
}

#[verifier::ext_equal]
pub struct OperationView {
    pub phase: ApplyPhase,
    pub accepted: DesiredView,
    pub previous_accepted: Option<Seq<u8>>,
    pub previous_attribution: Option<Seq<u8>>,
    pub proposed: Option<DesiredView>,
    pub confirmation_id: Option<Seq<char>>,
    pub applying: Option<PrincipalView>,
    pub draft_version: Option<Seq<char>>,
    pub deadline_boot_ns: Option<u64>,
    pub expires_at_unix_ms: Option<u64>,
}

pub open spec fn bytes_opt(b: Option<Vec<u8>>) -> Option<Seq<u8>> {
    match b {
        Some(x) => Some(x@),
        None => None,
    }
}

pub open spec fn state_opt(s: Option<DesiredState>) -> Option<DesiredView> {
    match s {
        Some(x) => Some(x@),
        None => None,
    }
}

pub open spec fn principal_opt(p: Option<Principal>) -> Option<PrincipalView> {
    match p {
        Some(x) => Some(x@),
        None => None,
    }
}

impl View for ApplyOperation {
    type V = OperationView;

    open spec fn view(&self) -> OperationView {
        OperationView {
            phase: self.phase,
            accepted: self.accepted@,
            previous_accepted: bytes_opt(self.previous_accepted),
            previous_attribution: bytes_opt(self.previous_attribution),
            proposed: state_opt(self.proposed),
            confirmation_id: text_opt(self.confirmation_id),
            applying: principal_opt(self.applying),
            draft_version: text_opt(self.draft_version),
            deadline_boot_ns: self.deadline_boot_ns,
            expires_at_unix_ms: self.expires_at_unix_ms,
        }
    }
}

/// Who changed the state to a revision, and who confirmed it.
#[derive(Debug)]
pub struct ApplyAttribution {
    pub revision: u64,
    pub applying: Option<Principal>,
    pub confirming: Option<Principal>,
    pub draft_version: Option<String>,
}

#[verifier::ext_equal]
pub struct AttributionView {
    pub revision: u64,
    pub applying: Option<PrincipalView>,
    pub confirming: Option<PrincipalView>,
    pub draft_version: Option<Seq<char>>,
}

impl View for ApplyAttribution {
    type V = AttributionView;

    open spec fn view(&self) -> AttributionView {
        AttributionView {
            revision: self.revision,
            applying: principal_opt(self.applying),
            confirming: principal_opt(self.confirming),
            draft_version: text_opt(self.draft_version),
        }
    }
}

/// The same bytes again, where there are any.
pub fn copy_bytes(b: &Option<Vec<u8>>) -> (r: Option<Vec<u8>>)
    ensures
        bytes_opt(r) == bytes_opt(*b),
{
    match b {
        Some(x) => {
            let mut out: Vec<u8> = Vec::new();
            let mut i: usize = 0;
            while i < x.len()
                invariant
                    i <= x@.len(),
                    out@ == x@.take(i as int),
                decreases x@.len() - i,
            {
                out.push(x[i]);
                assert(x@.take(i + 1) == x@.take(i as int).push(x@[i as int]));
                i = i + 1;
            }
            assert(x@.take(i as int) == x@);
            Some(out)
        },
        None => None,
    }
}

/// The same principal again, where there is one.
pub fn copy_principal(p: &Option<Principal>) -> (r: Option<Principal>)
    ensures
        principal_opt(r) == principal_opt(*p),
{
    match p {
        Some(x) => Some(x.clone()),
        None => None,
    }
}

// ---------------------------------------------------------------------------
// What was found
// ---------------------------------------------------------------------------

/// What was found where the record of an apply is kept.
pub enum Journal {
    /// Nothing.
    Absent,
    /// Something that cannot be read.
    Unreadable(String),
    /// Something that is no record.
    Undecodable(String),
    /// A record.
    Found(ApplyOperation),
}

/// What a record means, whatever else it holds.
pub enum JournalView {
    Absent,
    Unreadable(Seq<char>),
    Undecodable(Seq<char>),
    Found(OperationView),
}

impl View for Journal {
    type V = JournalView;

    open spec fn view(&self) -> JournalView {
        match self {
            Journal::Absent => JournalView::Absent,
            Journal::Unreadable(e) => JournalView::Unreadable(e@),
            Journal::Undecodable(e) => JournalView::Undecodable(e@),
            Journal::Found(op) => JournalView::Found(op@),
        }
    }
}

/// Whether what was found has to be recovered from: an apply that was cut
/// short, or something that tells nothing.
pub open spec fn requires_recovery(j: JournalView) -> bool {
    match j {
        JournalView::Absent => false,
        JournalView::Found(op) => op.phase == ApplyPhase::Applying,
        _ => true,
    }
}

/// Whether what was found has to be recovered from.
pub fn operation_requires_recovery(j: &Journal) -> (r: bool)
    ensures
        r == requires_recovery(j@),
{
    match j {
        Journal::Absent => false,
        Journal::Found(op) => op.phase == ApplyPhase::Applying,
        _ => true,
    }
}

/// Whether a change waits to be confirmed, as far as that can be told.
pub open spec fn awaits_confirmation(j: JournalView) -> bool {
    j matches JournalView::Found(op) && op.phase == ApplyPhase::PendingConfirmation
}

/// Why it cannot be told whether a change waits to be confirmed, if so.
pub open spec fn pending_error(j: JournalView) -> Option<Seq<char>> {
    match j {
        JournalView::Unreadable(e) => Some("read Apply confirmation: "@ + e),
        JournalView::Undecodable(e) => Some("parse Apply confirmation: "@ + e),
        _ => None,
    }
}

/// The change that waits to be confirmed.
pub fn pending_operation(j: Journal) -> (r: Result<Option<ApplyOperation>, String>)
    ensures
        match r {
            Ok(Some(op)) => j == Journal::Found(op) && awaits_confirmation(j@),
            Ok(None) => !awaits_confirmation(j@) && pending_error(j@) is None,
            Err(e) => pending_error(j@) == Some(e@),
        },
{
    match j {
        Journal::Absent => Ok(None),
        Journal::Unreadable(e) => Err("read Apply confirmation: ".to_owned().concat(e.as_str())),
        Journal::Undecodable(e) => Err("parse Apply confirmation: ".to_owned().concat(e.as_str())),
        Journal::Found(op) => if op.phase == ApplyPhase::PendingConfirmation {
            Ok(Some(op))
        } else {
            Ok(None)
        },
    }
}

/// Whether the appliance has to recover before anything is applied: it was
/// told so, or a record says so, or an older record is there.
pub open spec fn needs_recovery(flag: bool, j: JournalView, legacy: bool) -> bool {
    flag || requires_recovery(j) || legacy
}

/// Whether the appliance has to recover before anything is applied.
pub fn recovery_pending(flag: bool, j: &Journal, legacy: bool) -> (r: bool)
    ensures
        r == needs_recovery(flag, j@, legacy),
{
    flag || operation_requires_recovery(j) || legacy
}

/// Whether no other apply may begin.
pub open spec fn is_busy(flag: bool, j: JournalView, legacy: bool) -> bool {
    needs_recovery(flag, j, legacy) || awaits_confirmation(j) || pending_error(j) is Some
}

/// Whether no other apply may begin.
pub fn apply_busy(flag: bool, j: &Journal, legacy: bool) -> (r: bool)
    ensures
        r == is_busy(flag, j@, legacy),
{
    let waits = match j {
        Journal::Absent => false,
        Journal::Found(op) => op.phase == ApplyPhase::PendingConfirmation,
        _ => true,
    };
    recovery_pending(flag, j, legacy) || waits
}

/// An apply may begin only where there is no record, or one of an apply that
/// was accepted.
pub proof fn law_one_apply_at_a_time(flag: bool, j: JournalView, legacy: bool)
    requires
        !is_busy(flag, j, legacy),
    ensures
        !flag && !legacy,
        j is Absent || (j matches JournalView::Found(op) && op.phase == ApplyPhase::Accepted),
{
}

/// The attribution of a revision, where the one that was found is of it.
pub fn accepted_attribution(found: Option<ApplyAttribution>, revision: u64) -> (r: Option<ApplyAttribution>)
    ensures
        r == match found {
            Some(a) => if a.revision == revision {
                Some(a)
            } else {
                None
            },
            None => None,
        },
{
    match found {
        Some(a) => if a.revision == revision {
            Some(a)
        } else {
            None
        },
        None => None,
    }
}

// ---------------------------------------------------------------------------
// The accepted state
// ---------------------------------------------------------------------------

/// What was found where the accepted state is kept.
pub enum StateFile {
    Unreadable(String),
    Undecodable(String),
    Found(DesiredState),
}

/// A state that was kept without a revision is the first.
pub open spec fn with_revision(s: DesiredView) -> DesiredView {
    if s.revision == 0 {
        DesiredView { revision: 1, ..s }
    } else {
        s
    }
}

/// The accepted state, or why there is none.
pub open spec fn accepted_of(f: StateFile) -> Result<DesiredView, Seq<char>> {
    match f {
        StateFile::Unreadable(e) => Err("read Accepted Desired state: "@ + e@),
        StateFile::Undecodable(e) => Err("parse Accepted Desired state: "@ + e@),
        StateFile::Found(s) => Ok(with_revision(s@)),
    }
}

/// The accepted state, or why there is none.
pub fn accepted_desired(f: StateFile) -> (r: Result<DesiredState, String>)
    ensures
        match r {
            Ok(s) => accepted_of(f) == Ok::<DesiredView, Seq<char>>(s@),
            Err(e) => accepted_of(f) == Err::<DesiredView, Seq<char>>(e@),
        },
        r is Ok ==> (r->Ok_0).revision > 0,
{
    match f {
        StateFile::Unreadable(e) => Err("read Accepted Desired state: ".to_owned().concat(e.as_str())),
        StateFile::Undecodable(e) => Err("parse Accepted Desired state: ".to_owned().concat(e.as_str())),
        StateFile::Found(s) => {
            let mut s = s;
            if s.revision == 0 {
                s.revision = 1;
            }
            Ok(s)
        },
    }
}

// ---------------------------------------------------------------------------
// Deadlines
// ---------------------------------------------------------------------------

/// The time since the appliance was started, in nanoseconds, as far as that
/// can be counted.
pub open spec fn boot_nanoseconds(seconds: u64, nanoseconds: u64) -> nat {
    let n = seconds * 1_000_000_000 + nanoseconds;
    if n > u64::MAX {
        u64::MAX as nat
    } else {
        n as nat
    }
}

/// The time since the appliance was started.
pub fn boot_time_ns(seconds: u64, nanoseconds: u64) -> (r: u64)
    ensures
        r == boot_nanoseconds(seconds, nanoseconds),
{
    let n: u128 = (seconds as u128) * 1_000_000_000 + (nanoseconds as u128);
    if n > u64::MAX as u128 {
        u64::MAX
    } else {
        n as u64
    }
}

/// How long a change waits to be confirmed.
pub const CONFIRMATION_NS: u64 = 120_000_000_000;

pub const CONFIRMATION_MS: u64 = 120_000;

/// Whether the time to confirm a change is over; where that cannot be told, it
/// is.
pub open spec fn is_expired(deadline: Option<u64>, now: Option<u64>) -> bool {
    match (deadline, now) {
        (Some(d), Some(n)) => n >= d,
        _ => true,
    }
}

/// Whether the time to confirm a change is over, or why that cannot be told.
pub fn pending_expired(op: &ApplyOperation, now: Result<u64, String>) -> (r: Result<bool, String>)
    ensures
        match r {
            Ok(b) => op.deadline_boot_ns matches Some(d) && now matches Ok(n) && b == (n >= d),
            Err(e) => if op.deadline_boot_ns is None {
                e@ == "pending Apply deadline is missing"@
            } else {
                now matches Err(x) && e == x
            },
        },
{
    match op.deadline_boot_ns {
        None => Err("pending Apply deadline is missing".to_owned()),
        Some(d) => match now {
            Ok(n) => Ok(n >= d),
            Err(e) => Err(e),
        },
    }
}

/// What is to be done about a change that may wait to be confirmed.
#[derive(Clone, Copy, Debug, PartialEq, Eq, Structural)]
pub enum Expiry {
    /// Nothing.
    Leave,
    /// Forward nothing: it cannot be told whether a change waits.
    Guard,
    /// Go back to the accepted state: the time is over.
    Recover,
}

/// What is to be done about a change that may wait to be confirmed.
pub open spec fn expiry_of(j: JournalView, now: Option<u64>) -> Expiry {
    if pending_error(j) is Some {
        Expiry::Guard
    } else if awaits_confirmation(j) && is_expired((j->Found_0).deadline_boot_ns, now) {
        Expiry::Recover
    } else {
        Expiry::Leave
    }
}

/// What is to be done about a change that may wait to be confirmed.
pub fn expire_pending_confirmation(j: &Journal, now: Result<u64, String>) -> (r: Expiry)
    ensures
        r == expiry_of(
            j@,
            match now {
                Ok(n) => Some(n),
                Err(_) => None,
            },
        ),
{
    match j {
        Journal::Absent => Expiry::Leave,
        Journal::Found(op) => {
            if op.phase != ApplyPhase::PendingConfirmation {
                return Expiry::Leave;
            }
            match pending_expired(op, now) {
                Ok(expired) => if expired {
                    Expiry::Recover
                } else {
                    Expiry::Leave
                },
                Err(_) => Expiry::Recover,
            }
        },
        _ => Expiry::Guard,
    }
}

// ---------------------------------------------------------------------------
// What to go back to
// ---------------------------------------------------------------------------

pub const APPLY_OPERATION: &'static str = "/var/lib/fwos/apply-operation.json";

pub const APPLY_PREVIOUS: &'static str = "/var/lib/fwos/apply-previous.toml";

/// What a recovery goes back to, and the record that is gone once it has.
pub struct RecoveryTarget {
    pub operation: ApplyOperation,
    /// Whether the record is the older one, which knows no predecessor.
    pub legacy: bool,
}

/// The record that the older kind stands for.
pub open spec fn legacy_operation(s: DesiredView) -> OperationView {
    OperationView {
        phase: ApplyPhase::Applying,
        accepted: s,
        previous_accepted: None,
        previous_attribution: None,
        proposed: None,
        confirmation_id: None,
        applying: None,
        draft_version: None,
        deadline_boot_ns: None,
        expires_at_unix_ms: None,
    }
}

/// What a recovery goes back to, or why that cannot be told.
pub open spec fn target_of(j: JournalView, legacy: StateFile) -> Result<(OperationView, bool), Seq<char>> {
    match j {
        JournalView::Unreadable(e) => Err("read in-flight apply operation: "@ + e),
        JournalView::Undecodable(e) => Err("parse in-flight apply operation: "@ + e),
        JournalView::Found(op) => if op.phase == ApplyPhase::Accepted {
            Err("apply operation is already Accepted; reboot to finish an indeterminate commit"@)
        } else {
            Ok((op, false))
        },
        JournalView::Absent => match legacy {
            StateFile::Unreadable(e) => Err(
                "read legacy in-flight Accepted recovery target: "@ + e@,
            ),
            StateFile::Undecodable(e) => Err(
                "parse legacy in-flight Accepted recovery target: "@ + e@,
            ),
            StateFile::Found(s) => Ok((legacy_operation(s@), true)),
        },
    }
}

/// What a recovery goes back to.
pub fn read_recovery_target(j: Journal, legacy: StateFile) -> (r: Result<RecoveryTarget, String>)
    ensures
        match r {
            Ok(t) => target_of(j@, legacy) == Ok::<(OperationView, bool), Seq<char>>(
                (t.operation@, t.legacy),
            ),
            Err(e) => target_of(j@, legacy) == Err::<(OperationView, bool), Seq<char>>(e@),
        },
{
    match j {
        Journal::Unreadable(e) => Err("read in-flight apply operation: ".to_owned().concat(e.as_str())),
        Journal::Undecodable(e) => Err("parse in-flight apply operation: ".to_owned().concat(e.as_str())),
        Journal::Found(op) => if op.phase == ApplyPhase::Accepted {
            Err("apply operation is already Accepted; reboot to finish an indeterminate commit".to_owned())
        } else {
            Ok(RecoveryTarget { operation: op, legacy: false })
        },
        Journal::Absent => match legacy {
            StateFile::Unreadable(e) => Err(
                "read legacy in-flight Accepted recovery target: ".to_owned().concat(e.as_str()),
            ),
            StateFile::Undecodable(e) => Err(
                "parse legacy in-flight Accepted recovery target: ".to_owned().concat(e.as_str()),
            ),
            StateFile::Found(s) => Ok(
                RecoveryTarget {
                    operation: ApplyOperation {
                        phase: ApplyPhase::Applying,
                        accepted: s,
                        previous_accepted: None,
                        previous_attribution: None,
                        proposed: None,
                        confirmation_id: None,
                        applying: None,
                        draft_version: None,
                        deadline_boot_ns: None,
                        expires_at_unix_ms: None,
                    },
                    legacy: true,
                },
            ),
        },
    }
}

/// A record of an accepted apply is never gone back from.
pub proof fn law_accepted_is_not_undone(j: JournalView, legacy: StateFile)
    requires
        j matches JournalView::Found(op) && op.phase == ApplyPhase::Accepted,
    ensures
        target_of(j, legacy) is Err,
        !requires_recovery(j),
        !awaits_confirmation(j),
{
}

/// Another apply may begin just where there is no record or one of an accepted
/// apply, nothing has to be recovered, and no older record is there.
pub proof fn law_accepted_applies_do_not_block(flag: bool, j: JournalView, legacy: bool)
    ensures
        !is_busy(flag, j, legacy) <==> !flag && !legacy && match j {
            JournalView::Absent => true,
            JournalView::Found(op) => op.phase == ApplyPhase::Accepted,
            _ => false,
        },
        needs_recovery(flag, j, legacy) <==> flag || legacy || match j {
            JournalView::Absent => false,
            JournalView::Found(op) => op.phase == ApplyPhase::Applying,
            _ => true,
        },
{
}

/// A change that waits is left alone until its time is over, and gone back from
/// then or where that cannot be told; anything else is left alone, and nothing
/// is forwarded where the record tells nothing.
pub proof fn law_pending_change_has_its_time(op: OperationView, now: Option<u64>, e: Seq<char>)
    ensures
        op.phase == ApplyPhase::PendingConfirmation && op.deadline_boot_ns is Some && now is Some && now->0
            < op.deadline_boot_ns->0 ==> expiry_of(JournalView::Found(op), now) == Expiry::Leave,
        op.phase == ApplyPhase::PendingConfirmation && (op.deadline_boot_ns is None || now is None || now->0
            >= op.deadline_boot_ns->0) ==> expiry_of(JournalView::Found(op), now) == Expiry::Recover,
        op.phase != ApplyPhase::PendingConfirmation ==> expiry_of(JournalView::Found(op), now) == Expiry::Leave,
        expiry_of(JournalView::Absent, now) == Expiry::Leave,
        expiry_of(JournalView::Unreadable(e), now) == Expiry::Guard,
        expiry_of(JournalView::Undecodable(e), now) == Expiry::Guard,
{
}

/// The accepted state is what is kept, but for a revision that it lacks.
pub proof fn law_accepted_state_is_what_is_kept(s: DesiredState)
    ensures
        s.revision > 0 ==> accepted_of(StateFile::Found(s)) == Ok::<DesiredView, Seq<char>>(s@),
        s.revision == 0 ==> accepted_of(StateFile::Found(s)) == Ok::<DesiredView, Seq<char>>(
            DesiredView { revision: 1, ..s@ },
        ),
{
}

/// A recovery goes back to what the record of an apply that was not accepted
/// holds, as it holds it; and without a record to the older kind.
pub proof fn law_recovery_goes_back_to_the_record(op: OperationView, legacy: StateFile, s: DesiredState)
    ensures
        op.phase != ApplyPhase::Accepted ==> target_of(JournalView::Found(op), legacy) == Ok::<
            (OperationView, bool),
            Seq<char>,
        >((op, false)),
        target_of(JournalView::Absent, StateFile::Found(s)) matches Ok(t) && t.1 && t.0.accepted == s@
            && t.0.phase == ApplyPhase::Applying && t.0.proposed is None && t.0.previous_accepted is None,
{
}

/// Times are counted in nanoseconds as long as they can be.
pub proof fn law_time_is_counted(seconds: u64, nanoseconds: u64)
    ensures
        seconds * 1_000_000_000 + nanoseconds <= u64::MAX ==> boot_nanoseconds(seconds, nanoseconds) == seconds
            * 1_000_000_000 + nanoseconds,
        seconds * 1_000_000_000 + nanoseconds > u64::MAX ==> boot_nanoseconds(seconds, nanoseconds) == u64::MAX,
{
}

} // verus!
