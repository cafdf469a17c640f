//! The requests that the network daemon takes from its socket.

use crate::apply::{refusal, refuse};
use crate::json;
use crate::json::{json_document, json_text, integers_only, Json, JsonView};
use crate::opt;
use crate::opt::{opt_of, FirstBootOpt, OptView};
use crate::reports::{error_reply, not_done};
use crate::text::{same, text_opt};
use vstd::prelude::*;

verus! {

/// What a client sent.
pub enum Received {
    /// Nothing: there is no reply either.
    Nothing,
    /// Something that is answered at once.
    Reply(Json),
    /// A command.
    Command(Json),
    /// A complete state, to be applied on top of the accepted one.
    Bare(Json),
}

pub enum ReceivedView {
    Nothing,
    Reply(JsonView),
    Command(JsonView),
    Bare(JsonView),
}

impl View for Received {
    type V = ReceivedView;

    open spec fn view(&self) -> ReceivedView {
        match self {
            Received::Nothing => ReceivedView::Nothing,
            Received::Reply(v) => ReceivedView::Reply(v@),
            Received::Command(v) => ReceivedView::Command(v@),
            Received::Bare(v) => ReceivedView::Bare(v@),
        }
    }
}

/// What a document is to the daemon: a command where it says what to do, else
/// a state, once there is an owner.
pub open spec fn request_kind(document: Result<JsonView, Seq<char>>, bootstrapped: bool) -> ReceivedView {
    match document {
        Err(e) => ReceivedView::Reply(not_done(e)),
        Ok(v) => if v.text_member("op"@) is Some {
            ReceivedView::Command(v)
        } else if bootstrapped {
            ReceivedView::Bare(v)
        } else {
            ReceivedView::Reply(not_done("complete Bootstrap before applying Desired state"@))
        },
    }
}

/// What a document is to the daemon.
pub fn classify(document: Result<Json, String>, bootstrapped: bool) -> (r: Received)
    ensures
        r@ == request_kind(
            match document {
                Ok(v) => Ok(v@),
                Err(e) => Err(e@),
            },
            bootstrapped,
        ),
{
    match document {
        Err(e) => Received::Reply(error_reply(e.as_str())),
        Ok(v) => if v.text_member("op").is_some() {
            Received::Command(v)
        } else if bootstrapped {
            Received::Bare(v)
        } else {
            Received::Reply(error_reply("complete Bootstrap before applying Desired state"))
        },
    }
}

/// What a client sent.
pub fn received(bytes: &[u8], bootstrapped: bool) -> (r: Received)
    ensures
        r@ == if bytes@.len() == 0 {
            ReceivedView::Nothing
        } else {
            request_kind(json_document(bytes@), bootstrapped)
        },
{
    if bytes.len() == 0 {
        return Received::Nothing;
    }
    classify(json::parse(bytes), bootstrapped)
}

/// The line that a reply is sent as. Nothing is said of the text of a reply
/// with a number that is no integer.
pub fn reply_line(v: &Json) -> (r: String)
    ensures
        integers_only(*v) ==> r@ == json_text(v@) + "\n"@,
{
    json::encode(v).concat("\n")
}

// ---------------------------------------------------------------------------
// Commands
// ---------------------------------------------------------------------------

/// What is done about a command.
pub enum Work {
    /// It is answered at once.
    Reply(Json),
    /// Tell the NICs.
    List,
    /// Make that first-boot choice and keep it.
    Choose(FirstBootOpt),
    /// Give the appliance an owner.
    Bootstrap,
    /// Tell the accepted state.
    Desired,
    /// Tell of the change that waits.
    Confirmation,
    /// Tell whether a draft is the accepted state.
    Draft,
    /// Confirm the change that waits.
    Confirm,
    /// Restore the state before.
    Restore,
    /// Apply a state on top of the accepted one of that revision.
    Apply(Json, u64, Option<String>),
}

pub enum WorkView {
    Reply(JsonView),
    List,
    Choose(OptView),
    Bootstrap,
    Desired,
    Confirmation,
    Draft,
    Confirm,
    Restore,
    Apply(JsonView, u64, Option<Seq<char>>),
}

impl View for Work {
    type V = WorkView;

    open spec fn view(&self) -> WorkView {
        match self {
            Work::Reply(v) => WorkView::Reply(v@),
            Work::List => WorkView::List,
            Work::Choose(o) => WorkView::Choose(o@),
            Work::Bootstrap => WorkView::Bootstrap,
            Work::Desired => WorkView::Desired,
            Work::Confirmation => WorkView::Confirmation,
            Work::Draft => WorkView::Draft,
            Work::Confirm => WorkView::Confirm,
            Work::Restore => WorkView::Restore,
            Work::Apply(v, base, draft) => WorkView::Apply(v@, *base, text_opt(*draft)),
        }
    }
}

/// What is done about a first-boot choice.
pub open spec fn choice_work(v: JsonView, bootstrapped: bool) -> WorkView {
    match opt_of(v) {
        Err(e) => WorkView::Reply(not_done(e)),
        Ok(o) => if bootstrapped {
            WorkView::Reply(not_done("already bootstrapped"@))
        } else {
            WorkView::Choose(o)
        },
    }
}

/// What is done about a request to apply a state.
pub open spec fn apply_work(v: JsonView, bootstrapped: bool) -> WorkView {
    if !bootstrapped {
        WorkView::Reply(
            refusal("rejected"@, None, "complete Bootstrap before applying Desired state"@),
        )
    } else {
        match v.natural_member("base_revision"@) {
            None => WorkView::Reply(refusal("rejected"@, None, "base_revision is required"@)),
            Some(base) => WorkView::Apply(
                match v.member("desired"@) {
                    Some(d) => d,
                    None => JsonView::Null,
                },
                base,
                v.text_member("draft_version"@),
            ),
        }
    }
}

/// What is done about a command.
pub open spec fn work_of(v: JsonView, bootstrapped: bool, recovering: bool) -> WorkView {
    let op = match v.text_member("op"@) {
        Some(s) => s,
        None => ""@,
    };
    if op == "list"@ {
        WorkView::List
    } else if op == "opt"@ {
        choice_work(v, bootstrapped)
    } else if op == "bootstrap_apply"@ {
        WorkView::Bootstrap
    } else if op == "get_desired"@ {
        if recovering {
            WorkView::Reply(
                refusal(
                    "recovery_required"@,
                    None,
                    "the previous Desired state apply needs recovery before Accepted state is available"@,
                ),
            )
        } else {
            WorkView::Desired
        }
    } else if op == "get_apply_confirmation"@ {
        WorkView::Confirmation
    } else if op == "was_draft_accepted"@ {
        WorkView::Draft
    } else if op == "confirm_apply"@ {
        WorkView::Confirm
    } else if op == "restore_previous"@ {
        if bootstrapped {
            WorkView::Restore
        } else {
            WorkView::Reply(
                refusal("rejected"@, None, "complete Bootstrap before restoring Desired state"@),
            )
        }
    } else if op == "apply_desired"@ {
        apply_work(v, bootstrapped)
    } else {
        WorkView::Reply(not_done("unknown op "@ + op))
    }
}

fn choice(v: &Json, bootstrapped: bool) -> (r: Work)
    ensures
        r@ == choice_work(v@, bootstrapped),
{
    match opt::parse_opt(v) {
        Err(e) => Work::Reply(error_reply(e.as_str())),
        Ok(o) => match opt::opt_allowed(bootstrapped) {
            Ok(_) => Work::Choose(o),
            Err(e) => Work::Reply(error_reply(e.as_str())),
        },
    }
}

fn apply_desired(v: &Json, bootstrapped: bool) -> (r: Work)
    ensures
        r@ == apply_work(v@, bootstrapped),
{
    if !bootstrapped {
        return Work::Reply(
            refuse("rejected", None, "complete Bootstrap before applying Desired state"),
        );
    }
    let base: u64 = match v.natural_member("base_revision") {
        Some(n) => n,
        None => return Work::Reply(refuse("rejected", None, "base_revision is required")),
    };
    let draft = match v.text_member("draft_version") {
        Some(s) => Some(s.to_owned()),
        None => None,
    };
    let desired = match v.get("desired") {
        Some(d) => d.clone(),
        None => Json::Null,
    };
    Work::Apply(desired, base, draft)
}

/// What is done about a command: `recovering` says whether the appliance has
/// to recover before anything is applied.
pub fn handle_cmd(v: &Json, bootstrapped: bool, recovering: bool) -> (r: Work)
    ensures
        r@ == work_of(v@, bootstrapped, recovering),
{
    let op = match v.text_member("op") {
        Some(s) => s,
        None => "",
    };
    if same(op, "list") {
        Work::List
    } else if same(op, "opt") {
        choice(v, bootstrapped)
    } else if same(op, "bootstrap_apply") {
        Work::Bootstrap
    } else if same(op, "get_desired") {
        if recovering {
            Work::Reply(
                refuse(
                    "recovery_required",
                    None,
                    "the previous Desired state apply needs recovery before Accepted state is available",
                ),
            )
        } else {
            Work::Desired
        }
    } else if same(op, "get_apply_confirmation") {
        Work::Confirmation
    } else if same(op, "was_draft_accepted") {
        Work::Draft
    } else if same(op, "confirm_apply") {
        Work::Confirm
    } else if same(op, "restore_previous") {
        if bootstrapped {
            Work::Restore
        } else {
            Work::Reply(
                refuse("rejected", None, "complete Bootstrap before restoring Desired state"),
            )
        }
    } else if same(op, "apply_desired") {
        apply_desired(v, bootstrapped)
    } else {
        Work::Reply(error_reply("unknown op ".to_owned().concat(op).as_str()))
    }
}

// ---------------------------------------------------------------------------
// Laws
// ---------------------------------------------------------------------------

/// Before there is an owner no state is applied or restored, whether by a
/// command or without one; once there is one, no first-boot choice is made.
pub proof fn law_ownership_decides(document: Result<JsonView, Seq<char>>, v: JsonView, recovering: bool)
    ensures
        !(work_of(v, false, recovering) is Apply),
        !(work_of(v, false, recovering) is Restore),
        !(request_kind(document, false) is Bare),
        !(work_of(v, true, recovering) is Choose),
{
}

/// A document that says what to do is never taken for a state.
pub proof fn law_command_is_no_state(v: JsonView, bootstrapped: bool)
    requires
        v.text_member("op"@) is Some,
    ensures
        request_kind(Ok(v), bootstrapped) == ReceivedView::Command(v),
{
}

/// Every command is done by what it names, whatever else it holds; what it names
/// decides alone but where ownership or a recovery stands in the way.
pub proof fn law_commands_are_done(v: JsonView, op: Seq<char>, bootstrapped: bool, recovering: bool)
    requires
        v.member("op"@) == Some(JsonView::Text(op)),
    ensures
        ({
            let w = work_of(v, bootstrapped, recovering);
            &&& op == "list"@ ==> w is List
            &&& op == "opt"@ && opt_of(v) is Ok && !bootstrapped ==> w == WorkView::Choose(opt_of(v)->Ok_0)
            &&& op == "opt"@ && opt_of(v) is Err ==> w == WorkView::Reply(not_done(opt_of(v)->Err_0))
            &&& op == "bootstrap_apply"@ ==> w is Bootstrap
            &&& op == "get_desired"@ ==> (w is Desired <==> !recovering)
            &&& op == "get_apply_confirmation"@ ==> w is Confirmation
            &&& op == "was_draft_accepted"@ ==> w is Draft
            &&& op == "confirm_apply"@ ==> w is Confirm
            &&& op == "restore_previous"@ ==> (w is Restore <==> bootstrapped)
        }),
{
    lemma_operations();
}

/// A state is applied on top of the revision that the request names, once there
/// is an owner: the state is the one that the request holds, and so is the draft.
pub proof fn law_requested_state_is_applied(v: JsonView, base: u64, desired: JsonView, recovering: bool)
    requires
        v.member("op"@) == Some(JsonView::Text("apply_desired"@)),
        v.member("base_revision"@) == Some(JsonView::Natural(base)),
        v.member("desired"@) == Some(desired),
    ensures
        work_of(v, true, recovering) == WorkView::Apply(desired, base, v.text_member("draft_version"@)),
{
    lemma_operations();
}

/// What is no command is told so.
pub proof fn law_unknown_commands_are_told(v: JsonView, op: Seq<char>, bootstrapped: bool, recovering: bool)
    requires
        v.member("op"@) == Some(JsonView::Text(op)),
        op != "list"@ && op != "opt"@ && op != "bootstrap_apply"@ && op != "get_desired"@ && op
            != "get_apply_confirmation"@ && op != "was_draft_accepted"@ && op != "confirm_apply"@ && op
            != "restore_previous"@ && op != "apply_desired"@,
    ensures
        work_of(v, bootstrapped, recovering) == WorkView::Reply(not_done("unknown op "@ + op)),
{
}

/// What a client sends without a command is a state once there is an owner, and
/// what cannot be read is told.
pub proof fn law_other_documents_are_states(v: JsonView, e: Seq<char>, bootstrapped: bool)
    ensures
        v.text_member("op"@) is None ==> request_kind(Ok(v), true) == ReceivedView::Bare(v),
        request_kind(Err(e), bootstrapped) == ReceivedView::Reply(not_done(e)),
{
}

/// The names of the commands are different.
proof fn lemma_operations()
    ensures
        "list"@.len() == 4,
        "opt"@.len() == 3,
        "bootstrap_apply"@.len() == 15,
        "get_desired"@.len() == 11,
        "get_apply_confirmation"@.len() == 22,
        "was_draft_accepted"@.len() == 18,
        "confirm_apply"@.len() == 13 && "confirm_apply"@[0] == 'c',
        "restore_previous"@.len() == 16,
        "apply_desired"@.len() == 13 && "apply_desired"@[0] == 'a',
{
    reveal_strlit("list");
    reveal_strlit("opt");
    reveal_strlit("bootstrap_apply");
    reveal_strlit("get_desired");
    reveal_strlit("get_apply_confirmation");
    reveal_strlit("was_draft_accepted");
    reveal_strlit("confirm_apply");
    reveal_strlit("restore_previous");
    reveal_strlit("apply_desired");
}

} // verus!
