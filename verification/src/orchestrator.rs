//! Deciding whether a tool call may run.
//!
//! Authorization goes through phases.  A call whose exact input was denied
//! earlier in the session is refused at once.  Otherwise the tool's runtime
//! says whether the call needs no approval, is forbidden, or needs approval.
//! Approval is resolved in turn by the session's approval cache, the
//! execution policy, the guardian (when one is configured), and finally the
//! session's approval strategy, which may ask the user.  Every refusal of a
//! call is recorded so that the same call is refused again without asking.
//!
//! The phases that wait on something outside (the policy engine, the
//! guardian, the user) are steps here: each step takes what came back and
//! says what to do next.
use vstd::prelude::*;
use crate::approval_cache::{lookup, session_entries, key_views, ApprovalCache, ApprovalDecision};
use crate::json_args::{has_member, json_has_member, json_string_member, string_member, string_views};
use crate::permissions::DenialTracker;
use crate::text::{decimal, push_str, push_u64, string_from};

verus! {

/// Result of policy pre-check before entering the user-approval flow.
#[derive(Debug, Clone, PartialEq, Eq)]
pub enum PolicyRequirement {
    Skip,
    NeedsApproval { reason: String },
    Forbidden { reason: String },
}

/// An action that a tool call would take, as shown to whoever approves it.
#[derive(Debug, Clone)]
pub enum PendingAction {
    ShellCommand { command: String, cwd: String },
    FileWrite { path: String },
    ApplyPatch { paths: Vec<String> },
    NetworkAccess { host: String, port: u16 },
}

/// Mathematical form of a `PendingAction`.
pub enum ActionModel {
    ShellCommand { command: Seq<char>, cwd: Seq<char> },
    FileWrite { path: Seq<char> },
    ApplyPatch { paths: Seq<Seq<char>> },
    NetworkAccess { host: Seq<char>, port: u16 },
}

impl View for PendingAction {
    type V = ActionModel;

    open spec fn view(&self) -> ActionModel {
        match self {
            PendingAction::ShellCommand { command, cwd } => ActionModel::ShellCommand {
                command: command@,
                cwd: cwd@,
            },
            PendingAction::FileWrite { path } => ActionModel::FileWrite { path: path@ },
            PendingAction::ApplyPatch { paths } => ActionModel::ApplyPatch { paths: string_views(paths@) },
            PendingAction::NetworkAccess { host, port } => ActionModel::NetworkAccess {
                host: host@,
                port: *port,
            },
        }
    }
}

/// What a member lookup falls back to when the member is not a string.
pub open spec fn member_or(o: Option<Seq<char>>, fallback: Seq<char>) -> Seq<char> {
    match o {
        Some(s) => s,
        None => fallback,
    }
}

/// The path an edit call names: its `path` member when it has one, else its
/// `file_path` member.
pub open spec fn edit_path(arguments: Seq<char>) -> Option<Seq<char>> {
    if json_has_member(arguments, "path"@) {
        json_string_member(arguments, "path"@)
    } else {
        json_string_member(arguments, "file_path"@)
    }
}

/// The action that a call of `tool_name` with `arguments` would take, run in
/// `cwd`.
pub open spec fn pending_action(tool_name: Seq<char>, arguments: Seq<char>, cwd: Seq<char>) -> ActionModel {
    if tool_name == "shell_exec"@ || tool_name == "sandboxed_shell_exec"@ {
        ActionModel::ShellCommand {
            command: member_or(json_string_member(arguments, "command"@), arguments),
            cwd,
        }
    } else if tool_name == "write_file"@ || tool_name == "create_file"@ {
        ActionModel::FileWrite { path: member_or(json_string_member(arguments, "path"@), "unknown"@) }
    } else if tool_name == "edit_file"@ || tool_name == "apply_diff"@ {
        ActionModel::ApplyPatch { paths: seq![member_or(edit_path(arguments), "unknown"@)] }
    } else {
        ActionModel::ShellCommand { command: tool_name + "("@ + arguments + ")"@, cwd }
    }
}

/// The directory a call runs in: the work directory, else `.`.
pub open spec fn cwd_of(work_dir: Option<&str>) -> Seq<char> {
    match work_dir {
        Some(d) => d@,
        None => "."@,
    }
}

fn or_else_str(o: Option<String>, fallback: &str) -> (r: String)
    ensures
        r@ == member_or(crate::json_args::opt_view(o), fallback@),
{
    match o {
        Some(s) => s,
        None => string_from(fallback),
    }
}

/// Maps a tool call to the action shown for approval.
pub fn map_tool_to_pending_action(tool_name: &str, arguments: &str, work_dir: Option<&str>) -> (r: PendingAction)
    ensures
        r@ == pending_action(tool_name@, arguments@, cwd_of(work_dir)),
{
    let cwd = match work_dir {
        Some(d) => string_from(d),
        None => string_from("."),
    };
    if crate::text::str_eq(tool_name, "shell_exec") || crate::text::str_eq(tool_name, "sandboxed_shell_exec") {
        let command = or_else_str(string_member(arguments, "command"), arguments);
        PendingAction::ShellCommand { command, cwd }
    } else if crate::text::str_eq(tool_name, "write_file") || crate::text::str_eq(tool_name, "create_file") {
        let path = or_else_str(string_member(arguments, "path"), "unknown");
        PendingAction::FileWrite { path }
    } else if crate::text::str_eq(tool_name, "edit_file") || crate::text::str_eq(tool_name, "apply_diff") {
        let found = if has_member(arguments, "path") {
            string_member(arguments, "path")
        } else {
            string_member(arguments, "file_path")
        };
        let path = or_else_str(found, "unknown");
        let mut paths: Vec<String> = Vec::new();
        paths.push(path);
        let r = PendingAction::ApplyPatch { paths };
        proof {
            assert(string_views(paths@) =~= seq![member_or(edit_path(arguments@), "unknown"@)]);
        }
        r
    } else {
        let mut command = string_from(tool_name);
        push_str(&mut command, "(");
        push_str(&mut command, arguments);
        push_str(&mut command, ")");
        PendingAction::ShellCommand { command, cwd }
    }
}

/// The words that `shell_words::split` makes of `s`, or nothing when it
/// reports an error (an unmatched quote).
pub uninterp spec fn shell_split(s: Seq<char>) -> Option<Seq<Seq<char>>>;

/// Splits `s` into words with `shell_words::split`.  The contract names the
/// result and claims only that it depends on `s` alone.
#[verifier::external_body]
fn split_shell_words(s: &str) -> (r: Option<Vec<String>>)
    ensures
        match r {
            Some(words) => shell_split(s@) == Some(string_views(words@)),
            None => shell_split(s@) == None::<Seq<Seq<char>>>,
        },
{
    shell_words::split(s).ok()
}

/// The command tokens by which the execution policy judges an action.
pub open spec fn command_tokens(a: ActionModel) -> Seq<Seq<char>> {
    match a {
        ActionModel::ShellCommand { command, .. } => match shell_split(command) {
            Some(words) => words,
            None => seq![command],
        },
        ActionModel::FileWrite { path } => seq!["write_file"@, path],
        ActionModel::ApplyPatch { paths } => seq!["apply_patch"@] + paths,
        ActionModel::NetworkAccess { host, port } => seq!["network"@, host, decimal(port as nat)],
    }
}

/// The command tokens of `action`, for policy evaluation.
pub fn action_to_command_tokens(action: &PendingAction) -> (r: Vec<String>)
    ensures
        string_views(r@) == command_tokens(action@),
{
    match action {
        PendingAction::ShellCommand { command, .. } => {
            match split_shell_words(command.as_str()) {
                Some(words) => words,
                None => {
                    let mut v: Vec<String> = Vec::new();
                    v.push(command.clone());
                    proof {
                        assert(string_views(v@) =~= seq![command@]);
                    }
                    v
                },
            }
        },
        PendingAction::FileWrite { path } => {
            let mut v: Vec<String> = Vec::new();
            v.push(string_from("write_file"));
            v.push(path.clone());
            proof {
                assert(string_views(v@) =~= seq!["write_file"@, path@]);
            }
            v
        },
        PendingAction::ApplyPatch { paths } => {
            let mut v: Vec<String> = Vec::new();
            v.push(string_from("apply_patch"));
            let mut i: usize = 0;
            while i < paths.len()
                invariant
                    i <= paths.len(),
                    string_views(v@) =~= seq!["apply_patch"@] + string_views(paths@).take(i as int),
                decreases paths.len() - i,
            {
                let ghost before = v@;
                v.push(paths[i].clone());
                i = i + 1;
                proof {
                    assert(string_views(v@) =~= string_views(before).push(paths@[i - 1]@));
                    assert(string_views(v@) =~= seq!["apply_patch"@] + string_views(paths@).take(i as int));
                }
            }
            proof {
                assert(string_views(paths@).take(paths.len() as int) =~= string_views(paths@));
            }
            v
        },
        PendingAction::NetworkAccess { host, port } => {
            let mut v: Vec<String> = Vec::new();
            v.push(string_from("network"));
            v.push(host.clone());
            let mut p = String::new();
            push_u64(&mut p, *port as u64);
            v.push(p);
            proof {
                assert(string_views(v@) =~= seq!["network"@, host@, decimal(*port as nat)]);
            }
            v
        },
    }
}

/// What the execution policy says of a command.
#[derive(Debug, Clone)]
pub enum PolicyVerdict {
    Allow,
    Forbidden { justification: String },
    Prompt { reason: String },
}

/// The requirement that a policy verdict amounts to.
pub fn policy_requirement(verdict: &PolicyVerdict) -> (r: PolicyRequirement)
    ensures
        match (verdict, r) {
            (PolicyVerdict::Allow, PolicyRequirement::Skip) => true,
            (PolicyVerdict::Forbidden { justification }, PolicyRequirement::Forbidden { reason }) => reason@
                == justification@,
            (PolicyVerdict::Prompt { reason: a }, PolicyRequirement::NeedsApproval { reason: b }) => b@ == a@,
            _ => false,
        },
{
    match verdict {
        PolicyVerdict::Allow => PolicyRequirement::Skip,
        PolicyVerdict::Forbidden { justification } => PolicyRequirement::Forbidden {
            reason: justification.clone(),
        },
        PolicyVerdict::Prompt { reason } => PolicyRequirement::NeedsApproval { reason: reason.clone() },
    }
}

/// What a tool's runtime requires before a call runs.
#[derive(Debug, Clone)]
pub enum ExecApprovalRequirement {
    Skip,
    NeedsApproval { reason: String },
    Forbidden { reason: String },
}

/// How the session answers approval requests.
#[derive(Debug, Clone, Copy, PartialEq, Eq, Structural)]
pub enum ApprovalStrategy {
    AutoApprove,
    DenyAll,
    PolicyBased,
    Interactive,
}

/// Who allowed a call.
#[derive(Debug, Clone, Copy, PartialEq, Eq, Structural)]
pub enum DecisionSource {
    NotRequired,
    Cached,
    PolicyAllowed,
    GuardianAllowed,
    AutoApproved,
    UserApproved,
}

/// Why a call may not run.
#[derive(Debug, Clone)]
pub enum ToolRuntimeError {
    Rejected { reason: String },
    Internal { message: String },
}

/// Mathematical form of an approval answer.
pub enum Answer {
    Allowed(DecisionSource),
    Rejected(Seq<char>),
    Internal(Seq<char>),
}

/// The answer that a result stands for.
pub open spec fn answer_of(r: Result<DecisionSource, ToolRuntimeError>) -> Answer {
    match r {
        Ok(s) => Answer::Allowed(s),
        Err(ToolRuntimeError::Rejected { reason }) => Answer::Rejected(reason@),
        Err(ToolRuntimeError::Internal { message }) => Answer::Internal(message@),
    }
}

/// The guardian's verdict on an action.
#[derive(Debug, Clone, Copy, PartialEq, Eq, Structural)]
pub enum GuardianOutcome {
    Allow,
    Deny,
}

/// What the approval pipeline does next.
#[derive(Debug)]
pub enum ApprovalStep {
    /// Ask the execution policy about the action's command tokens.
    EvaluatePolicy,
    /// Ask the guardian, if one is configured and its circuit is closed.
    ConsultGuardian,
    /// Ask the user through the session's interaction handle.
    AskUser,
    /// The pipeline has its answer.
    Decided(Result<DecisionSource, ToolRuntimeError>),
}

/// Mathematical form of an `ApprovalStep`.
pub enum StepModel {
    EvaluatePolicy,
    ConsultGuardian,
    AskUser,
    Decided(Answer),
}

/// The model of a step.
pub open spec fn step_of(s: ApprovalStep) -> StepModel {
    match s {
        ApprovalStep::EvaluatePolicy => StepModel::EvaluatePolicy,
        ApprovalStep::ConsultGuardian => StepModel::ConsultGuardian,
        ApprovalStep::AskUser => StepModel::AskUser,
        ApprovalStep::Decided(r) => StepModel::Decided(answer_of(r)),
    }
}

/// Refusal of a call whose exact input was denied before.
pub const PREVIOUSLY_DENIED: &'static str = "previously denied in this session";
/// Refusal under the `DenyAll` strategy.
pub const DENY_ALL_REFUSAL: &'static str = "approval required but strategy is DenyAll";
/// Refusal under the `PolicyBased` strategy, which cannot ask anyone.
pub const NO_SESSION_REFUSAL: &'static str = "tool requires approval but no interactive session available";
/// Failure of the `Interactive` strategy without a way to ask the user.
pub const NO_HANDLE_FAILURE: &'static str = "Interactive strategy requires an InteractionHandle";

/// What authorization answers before approval is resolved.
pub enum Authorization {
    /// The call may run without approval.
    Allowed,
    /// The call may not run.
    Refused(Seq<char>),
    /// Approval must be resolved, for this reason.
    NeedsApproval(Seq<char>),
}

/// The first phase of authorizing a call of `tool` with input `input`.
pub open spec fn authorization(denied: Seq<(Seq<char>, Seq<char>)>, tool: Seq<char>, input: Seq<char>, req: ExecApprovalRequirement) -> Authorization {
    if denied.contains((tool, input)) {
        Authorization::Refused(PREVIOUSLY_DENIED@)
    } else {
        match req {
            ExecApprovalRequirement::Skip => Authorization::Allowed,
            ExecApprovalRequirement::Forbidden { reason } => Authorization::Refused(reason@),
            ExecApprovalRequirement::NeedsApproval { reason } => Authorization::NeedsApproval(reason@),
        }
    }
}

/// The first phase of authorizing a call of `tool_name` with input `input`:
/// a call denied before is refused; otherwise the runtime's requirement
/// decides, and a forbidden call is recorded as denied.  `Ok(None)` means
/// that approval must be resolved, for the returned reason.
pub fn begin_authorization(
    tracker: &mut DenialTracker,
    tool_name: &str,
    input: &str,
    requirement: &ExecApprovalRequirement,
) -> (r: Result<Option<String>, ToolRuntimeError>)
    ensures
        match (authorization(old(tracker)@, tool_name@, input@, *requirement), r) {
            (Authorization::Allowed, Ok(None)) => final(tracker)@ == old(tracker)@,
            (Authorization::NeedsApproval(reason), Ok(Some(s))) => s@ == reason && final(tracker)@ == old(
                tracker,
            )@,
            (Authorization::Refused(reason), Err(e)) => {
                &&& answer_of(Err(e)) == Answer::Rejected(reason)
                &&& final(tracker)@ == if old(tracker)@.contains((tool_name@, input@)) {
                    old(tracker)@
                } else {
                    old(tracker)@.push((tool_name@, input@))
                }
            },
            _ => false,
        },
{
    if tracker.is_denied(tool_name, input) {
        return Err(ToolRuntimeError::Rejected { reason: string_from(PREVIOUSLY_DENIED) });
    }
    match requirement {
        ExecApprovalRequirement::Skip => Ok(None),
        ExecApprovalRequirement::Forbidden { reason } => {
            tracker.record_denial(tool_name, input);
            Err(ToolRuntimeError::Rejected { reason: reason.clone() })
        },
        ExecApprovalRequirement::NeedsApproval { reason } => Ok(Some(reason.clone())),
    }
}

/// The step after looking `keys` up in the session's approval cache: a
/// covered request is allowed as cached; otherwise the policy is asked.
pub fn after_cache_check(cache: &ApprovalCache, keys: &[String]) -> (r: ApprovalStep)
    ensures
        step_of(r) == if lookup(cache@, key_views(keys@)) is Some {
            StepModel::Decided(Answer::Allowed(DecisionSource::Cached))
        } else {
            StepModel::EvaluatePolicy
        },
{
    if cache.check(keys).is_some() {
        ApprovalStep::Decided(Ok(DecisionSource::Cached))
    } else {
        ApprovalStep::EvaluatePolicy
    }
}

/// The step after the execution policy's verdict.
pub open spec fn policy_step(verdict: PolicyVerdict) -> StepModel {
    match verdict {
        PolicyVerdict::Allow => StepModel::Decided(Answer::Allowed(DecisionSource::PolicyAllowed)),
        PolicyVerdict::Forbidden { justification } => StepModel::Decided(Answer::Rejected(justification@)),
        PolicyVerdict::Prompt { .. } => StepModel::ConsultGuardian,
    }
}

/// Goes on from the policy engine's answer.  An allowed command may run; a
/// forbidden one is refused with the justification given; one that needs
/// confirmation goes on to the guardian.
pub fn after_policy(verdict: &PolicyVerdict) -> (r: ApprovalStep)
    ensures
        step_of(r) == policy_step(*verdict),
{
    match verdict {
        PolicyVerdict::Allow => ApprovalStep::Decided(Ok(DecisionSource::PolicyAllowed)),
        PolicyVerdict::Forbidden { justification } => ApprovalStep::Decided(
            Err(ToolRuntimeError::Rejected { reason: justification.clone() }),
        ),
        PolicyVerdict::Prompt { .. } => ApprovalStep::ConsultGuardian,
    }
}

/// The step after the guardian, given its verdict (none when no guardian is
/// configured, its circuit is tripped, or its review failed).  A guardian
/// that allows decides; otherwise the session's strategy does.
pub open spec fn guardian_step(outcome: Option<GuardianOutcome>, strategy: ApprovalStrategy, can_ask_user: bool) -> StepModel {
    if outcome == Some(GuardianOutcome::Allow) {
        StepModel::Decided(Answer::Allowed(DecisionSource::GuardianAllowed))
    } else {
        match strategy {
            ApprovalStrategy::AutoApprove => StepModel::Decided(Answer::Allowed(DecisionSource::AutoApproved)),
            ApprovalStrategy::DenyAll => StepModel::Decided(Answer::Rejected(DENY_ALL_REFUSAL@)),
            ApprovalStrategy::PolicyBased => StepModel::Decided(Answer::Rejected(NO_SESSION_REFUSAL@)),
            ApprovalStrategy::Interactive => if can_ask_user {
                StepModel::AskUser
            } else {
                StepModel::Decided(Answer::Internal(NO_HANDLE_FAILURE@))
            },
        }
    }
}

/// Whether the step after the guardian approves the keys for the session.
pub open spec fn guardian_stores(outcome: Option<GuardianOutcome>, strategy: ApprovalStrategy) -> bool {
    outcome == Some(GuardianOutcome::Allow) || strategy == ApprovalStrategy::AutoApprove
}

/// The step after the guardian.  An approval by the guardian or by the
/// `AutoApprove` strategy is remembered for the session.
pub fn after_guardian(
    cache: &mut ApprovalCache,
    keys: &[String],
    outcome: Option<GuardianOutcome>,
    strategy: ApprovalStrategy,
    can_ask_user: bool,
) -> (r: ApprovalStep)
    requires
        old(cache).wf(),
    ensures
        final(cache).wf(),
        step_of(r) == guardian_step(outcome, strategy, can_ask_user),
        final(cache)@ == if guardian_stores(outcome, strategy) {
            old(cache)@.union(session_entries(key_views(keys@)))
        } else {
            old(cache)@
        },
{
    if outcome == Some(GuardianOutcome::Allow) {
        cache.store(keys, ApprovalDecision::ApprovedForSession);
        return ApprovalStep::Decided(Ok(DecisionSource::GuardianAllowed));
    }
    match strategy {
        ApprovalStrategy::AutoApprove => {
            cache.store(keys, ApprovalDecision::ApprovedForSession);
            ApprovalStep::Decided(Ok(DecisionSource::AutoApproved))
        },
        ApprovalStrategy::DenyAll => ApprovalStep::Decided(
            Err(ToolRuntimeError::Rejected { reason: string_from(DENY_ALL_REFUSAL) }),
        ),
        ApprovalStrategy::PolicyBased => ApprovalStep::Decided(
            Err(ToolRuntimeError::Rejected { reason: string_from(NO_SESSION_REFUSAL) }),
        ),
        ApprovalStrategy::Interactive => {
            if can_ask_user {
                ApprovalStep::AskUser
            } else {
                ApprovalStep::Decided(Err(ToolRuntimeError::Internal { message: string_from(NO_HANDLE_FAILURE) }))
            }
        },
    }
}

/// The answer to a user's decision.
pub open spec fn user_answer(decision: ApprovalDecision) -> Answer {
    match decision {
        ApprovalDecision::Approved => Answer::Allowed(DecisionSource::UserApproved),
        ApprovalDecision::ApprovedForSession => Answer::Allowed(DecisionSource::UserApproved),
        ApprovalDecision::Denied => Answer::Rejected("user denied"@),
        ApprovalDecision::Abort => Answer::Rejected("user aborted"@),
        ApprovalDecision::TimedOut => Answer::Rejected("approval timed out"@),
    }
}

/// The answer after the user decided (a request that got no answer counts
/// as `TimedOut`).  An approval for the session is remembered.
pub fn after_user(cache: &mut ApprovalCache, keys: &[String], decision: ApprovalDecision) -> (r: Result<
    DecisionSource,
    ToolRuntimeError,
>)
    requires
        old(cache).wf(),
    ensures
        final(cache).wf(),
        answer_of(r) == user_answer(decision),
        final(cache)@ == if decision == ApprovalDecision::ApprovedForSession {
            old(cache)@.union(session_entries(key_views(keys@)))
        } else {
            old(cache)@
        },
{
    if decision == ApprovalDecision::ApprovedForSession {
        cache.store(keys, ApprovalDecision::ApprovedForSession);
    }
    match decision {
        ApprovalDecision::Approved | ApprovalDecision::ApprovedForSession => Ok(DecisionSource::UserApproved),
        ApprovalDecision::Denied => Err(ToolRuntimeError::Rejected { reason: string_from("user denied") }),
        ApprovalDecision::Abort => Err(ToolRuntimeError::Rejected { reason: string_from("user aborted") }),
        ApprovalDecision::TimedOut => Err(ToolRuntimeError::Rejected { reason: string_from("approval timed out") }),
    }
}

/// Ends authorization: a refusal of the call is recorded, so that the same
/// call is refused again without asking; the answer is handed back as is.
pub fn finish_authorization(
    tracker: &mut DenialTracker,
    tool_name: &str,
    input: &str,
    result: Result<DecisionSource, ToolRuntimeError>,
) -> (r: Result<DecisionSource, ToolRuntimeError>)
    ensures
        answer_of(r) == answer_of(result),
        final(tracker)@ == if result is Err {
            old(tracker)@.push((tool_name@, input@))
        } else {
            old(tracker)@
        },
{
    if result.is_err() {
        tracker.record_denial(tool_name, input);
    }
    result
}

/// A call that was refused, and recorded, is refused at once the next time,
/// whatever its runtime requires.
pub proof fn lemma_refusal_is_remembered(
    denied: Seq<(Seq<char>, Seq<char>)>,
    tool: Seq<char>,
    input: Seq<char>,
    req: ExecApprovalRequirement,
)
    ensures
        authorization(denied.push((tool, input)), tool, input, req) == Authorization::Refused(PREVIOUSLY_DENIED@),
{
    assert(denied.push((tool, input))[denied.len() as int] == (tool, input));
}

} // verus!
