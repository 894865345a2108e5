//! The summary of what a session may do.

use crate::text;
use vstd::prelude::*;

verus! {

/// A profile of permissions that is built in.
#[derive(Debug, Clone, Copy, PartialEq, Eq)]
pub enum BuiltInProfile {
    ReadOnly,
    Workspace,
    DangerFullAccess,
}

/// The profile of permissions that is in force by name.
#[derive(Debug, Clone, PartialEq, Eq)]
pub struct ActivePermissionProfile {
    pub id: String,
    /// Which built-in profile the name stands for, if it does for one.
    pub built_in: Option<BuiltInProfile>,
}

/// When approval is asked for; the policies that are not told apart are one.
#[derive(Debug, Clone, Copy, PartialEq, Eq)]
pub enum AskForApproval {
    OnRequest,
    Never,
    Other,
}

/// Who approves.
#[derive(Debug, Clone, Copy, PartialEq, Eq)]
pub enum ApprovalsReviewer {
    AutoReview,
    User,
}

/// A directory that may be written to.
#[derive(Debug, Clone, PartialEq, Eq)]
pub struct WorkspaceRoot {
    pub path: String,
    /// It is the working directory.
    pub is_cwd: bool,
}

/// What the configuration says of permissions.
#[derive(Debug, Clone, PartialEq, Eq)]
pub struct PermissionsConfig {
    pub active_permission_profile: Option<ActivePermissionProfile>,
    /// The permission profile in force restricts nothing.
    pub permission_profile_disabled: bool,
    /// The permission profile in force, summed up.
    pub permission_summary: String,
    pub approval_policy: AskForApproval,
    /// The name of the approval policy.
    pub approval_name: String,
    pub approvals_reviewer: ApprovalsReviewer,
    pub workspace_roots: Vec<WorkspaceRoot>,
}

// ---------------------------------------------------------------------------
// Parts of the label
// ---------------------------------------------------------------------------

/// The short form of a summary of permissions.
pub open spec fn short_summary(summary: Seq<char>) -> Seq<char> {
    let network = "(network access enabled)"@;
    if text::begins_with(summary, "read-only"@) {
        if text::has_part(summary.skip("read-only"@.len() as int), network) {
            "read-only with network access"@
        } else {
            "read-only"@
        }
    } else if text::begins_with(summary, "workspace-write"@) {
        if text::has_part(summary.skip("workspace-write"@.len() as int), network) {
            "workspace with network access"@
        } else {
            "workspace"@
        }
    } else if summary == "custom permissions (network access enabled)"@ {
        "custom permissions with network access"@
    } else {
        summary
    }
}

/// The short form of a summary of permissions.
pub fn status_permission_summary(summary: &str) -> (label: String)
    ensures
        label@ == short_summary(summary@),
{
    if let Some(details) = text::strip_prefix(summary, "read-only") {
        if text::contains(details.as_str(), "(network access enabled)") {
            return "read-only with network access".to_string();
        }
        return "read-only".to_string();
    }
    if let Some(details) = text::strip_prefix(summary, "workspace-write") {
        if text::contains(details.as_str(), "(network access enabled)") {
            return "workspace with network access".to_string();
        }
        return "workspace".to_string();
    }
    if text::same_text(summary, "custom permissions (network access enabled)") {
        return "custom permissions with network access".to_string();
    }
    summary.to_string()
}

/// The roots other than the working directory.
pub open spec fn extra_roots(roots: Seq<WorkspaceRoot>) -> Seq<Seq<char>>
    decreases roots.len(),
{
    if roots.len() == 0 {
        Seq::empty()
    } else if roots.last().is_cwd {
        extra_roots(roots.drop_last())
    } else {
        extra_roots(roots.drop_last()).push(roots.last().path@)
    }
}

/// The roots other than the working directory, in square brackets; nothing where
/// there are none.
pub open spec fn roots_suffix(roots: Seq<WorkspaceRoot>) -> Option<Seq<char>> {
    if extra_roots(roots).len() == 0 {
        None
    } else {
        Some(" ["@ + text::joined(extra_roots(roots), ", "@) + "]"@)
    }
}

/// The roots other than the working directory, in square brackets.
pub fn workspace_root_suffix(workspace_roots: &Vec<WorkspaceRoot>) -> (suffix: Option<String>)
    ensures
        text::maybe_text(suffix) == roots_suffix(workspace_roots@),
{
    let mut extra: Vec<String> = Vec::new();
    assert(text::texts(extra@) =~= extra_roots(workspace_roots@.take(0)));
    let mut i: usize = 0;
    while i < workspace_roots.len()
        invariant
            i <= workspace_roots@.len(),
            text::texts(extra@) == extra_roots(workspace_roots@.take(i as int)),
        decreases workspace_roots@.len() - i,
    {
        let ghost before = extra@;
        assert(workspace_roots@.take(i + 1).drop_last() =~= workspace_roots@.take(i as int));
        if !workspace_roots[i].is_cwd {
            extra.push(workspace_roots[i].path.clone());
            assert(text::texts(extra@) =~= text::texts(before).push(
                workspace_roots@[i as int].path@,
            ));
        }
        i = i + 1;
    }
    assert(workspace_roots@.take(i as int) =~= workspace_roots@);
    if extra.len() == 0 {
        None
    } else {
        let mut suffix = " [".to_string();
        suffix.append(text::join(&extra, ", ").as_str());
        suffix.append("]");
        Some(suffix)
    }
}

/// A summary of permissions with the further roots, where they matter.
pub open spec fn with_roots(sandbox: Seq<char>, suffix: Option<Seq<char>>) -> Seq<char> {
    match suffix {
        Some(roots) if text::begins_with(sandbox, "workspace"@) => sandbox + roots,
        _ => sandbox,
    }
}

/// The text of a borrowed string that may be missing.
pub open spec fn maybe_str(string: Option<&str>) -> Option<Seq<char>> {
    match string {
        Some(s) => Some(s@),
        None => None,
    }
}

/// A summary of permissions with the further roots, where they matter.
pub fn decorate_workspace_sandbox_label(
    sandbox: &str,
    workspace_root_suffix: Option<&str>,
) -> (label: String)
    ensures
        label@ == with_roots(sandbox@, maybe_str(workspace_root_suffix)),
{
    let mut label = sandbox.to_string();
    if let Some(suffix) = workspace_root_suffix {
        if text::has_prefix(sandbox, "workspace") {
            label.append(suffix);
        }
    }
    label
}

/// How approval is given.
pub open spec fn approval_text(
    policy: AskForApproval,
    reviewer: ApprovalsReviewer,
    name: Seq<char>,
) -> Seq<char> {
    if policy == AskForApproval::OnRequest {
        match reviewer {
            ApprovalsReviewer::AutoReview => "Approve for me"@,
            ApprovalsReviewer::User => "Ask for approval"@,
        }
    } else {
        name
    }
}

/// How approval is given.
pub fn status_approval_label(
    approval_policy: AskForApproval,
    approvals_reviewer: ApprovalsReviewer,
    approval: &str,
) -> (label: String)
    ensures
        label@ == approval_text(approval_policy, approvals_reviewer, approval@),
{
    if matches!(approval_policy, AskForApproval::OnRequest) {
        return match approvals_reviewer {
            ApprovalsReviewer::AutoReview => "Approve for me".to_string(),
            ApprovalsReviewer::User => "Ask for approval".to_string(),
        };
    }
    approval.to_string()
}

// ---------------------------------------------------------------------------
// The label
// ---------------------------------------------------------------------------

/// A label, and how approval is given.
pub open spec fn approved(label: Seq<char>, approval: Seq<char>) -> Seq<char> {
    label + " ("@ + approval + ")"@
}

/// A label, a summary of permissions, and how approval is given.
pub open spec fn detailed(label: Seq<char>, sandbox: Seq<char>, approval: Seq<char>) -> Seq<char> {
    label + " ("@ + sandbox + ", "@ + approval + ")"@
}

/// A text that may be missing; the empty text in its place.
pub open spec fn or_empty(suffix: Option<Seq<char>>) -> Seq<char> {
    match suffix {
        Some(s) => s,
        None => ""@,
    }
}

/// What a session may do, where no profile's name tells it.
pub open spec fn unnamed_label(
    disabled: bool,
    policy: AskForApproval,
    sandbox: Seq<char>,
    approval: Seq<char>,
    suffix: Option<Seq<char>>,
) -> Seq<char> {
    if sandbox == "read-only"@ {
        approved("Read Only"@, approval)
    } else if policy == AskForApproval::OnRequest && sandbox == "workspace"@ {
        approved("Workspace"@ + or_empty(suffix), approval)
    } else if policy == AskForApproval::Never && disabled {
        "Full Access"@
    } else {
        detailed("Custom"@, with_roots(sandbox, suffix), approval)
    }
}

/// What a session may do.
pub open spec fn permissions_text(
    active: Option<ActivePermissionProfile>,
    disabled: bool,
    policy: AskForApproval,
    sandbox: Seq<char>,
    approval: Seq<char>,
    suffix: Option<Seq<char>>,
) -> Seq<char> {
    let built_in = if active is Some {
        active->0.built_in
    } else {
        None
    };
    if built_in == Some(BuiltInProfile::ReadOnly) {
        approved(
            if sandbox == "read-only with network access"@ {
                "Read Only with network access"@
            } else {
                "Read Only"@
            },
            approval,
        )
    } else if built_in == Some(BuiltInProfile::Workspace) && sandbox == "workspace"@ {
        approved("Workspace"@ + or_empty(suffix), approval)
    } else if built_in == Some(BuiltInProfile::Workspace) && sandbox
        == "workspace with network access"@ {
        approved("Workspace with network access"@ + or_empty(suffix), approval)
    } else if built_in == Some(BuiltInProfile::DangerFullAccess) && disabled {
        if policy == AskForApproval::Never {
            "Full Access"@
        } else {
            approved("No Sandbox"@, approval)
        }
    } else if active is Some && built_in != Some(BuiltInProfile::Workspace) {
        detailed("Profile "@ + active->0.id@, with_roots(sandbox, suffix), approval)
    } else {
        unnamed_label(disabled, policy, sandbox, approval, suffix)
    }
}

/// Writes a label, further roots, and how approval is given.
fn write_approved(label: &str, suffix: Option<&str>, approval: &str) -> (out: String)
    ensures
        out@ == approved(label@ + or_empty(maybe_str(suffix)), approval@),
{
    let mut out = label.to_string();
    if let Some(roots) = suffix {
        out.append(roots);
    } else {
        out.append("");
    }
    out.append(" (");
    out.append(approval);
    out.append(")");
    out
}

/// Writes a label, a summary of permissions, and how approval is given.
fn write_detailed(label: &str, sandbox: &str, approval: &str) -> (out: String)
    ensures
        out@ == detailed(label@, sandbox@, approval@),
{
    let mut out = label.to_string();
    out.append(" (");
    out.append(sandbox);
    out.append(", ");
    out.append(approval);
    out.append(")");
    out
}

/// What a session may do.
pub fn status_permissions_label(
    active_permission_profile: Option<&ActivePermissionProfile>,
    permission_profile_disabled: bool,
    approval_policy: AskForApproval,
    sandbox: &str,
    approval: &str,
    workspace_root_suffix: Option<&str>,
) -> (label: String)
    ensures
        label@ == permissions_text(
            (match active_permission_profile {
                Some(profile) => Some(*profile),
                None => None,
            }),
            permission_profile_disabled,
            approval_policy,
            sandbox@,
            approval@,
            maybe_str(workspace_root_suffix),
        ),
{
    proof {
        reveal_strlit("");
        assert("Read Only"@ + ""@ =~= "Read Only"@);
        assert("Read Only with network access"@ + ""@ =~= "Read Only with network access"@);
        assert("No Sandbox"@ + ""@ =~= "No Sandbox"@);
    }
    if let Some(active) = active_permission_profile {
        match active.built_in {
            Some(BuiltInProfile::ReadOnly) => {
                let label = if text::same_text(sandbox, "read-only with network access") {
                    "Read Only with network access"
                } else {
                    "Read Only"
                };
                return write_approved(label, None, approval);
            },
            Some(BuiltInProfile::Workspace) => {
                if text::same_text(sandbox, "workspace") {
                    return write_approved("Workspace", workspace_root_suffix, approval);
                }
                if text::same_text(sandbox, "workspace with network access") {
                    return write_approved(
                        "Workspace with network access",
                        workspace_root_suffix,
                        approval,
                    );
                }
            },
            _ => {
                if matches!(active.built_in, Some(BuiltInProfile::DangerFullAccess))
                    && permission_profile_disabled {
                    return if matches!(approval_policy, AskForApproval::Never) {
                        "Full Access".to_string()
                    } else {
                        write_approved("No Sandbox", None, approval)
                    };
                }
                let sandbox = decorate_workspace_sandbox_label(sandbox, workspace_root_suffix);
                let mut label = "Profile ".to_string();
                label.append(active.id.as_str());
                return write_detailed(label.as_str(), sandbox.as_str(), approval);
            },
        }
    }
    if text::same_text(sandbox, "read-only") {
        return write_approved("Read Only", None, approval);
    }
    if matches!(approval_policy, AskForApproval::OnRequest) && text::same_text(
        sandbox,
        "workspace",
    ) {
        return write_approved("Workspace", workspace_root_suffix, approval);
    }
    if matches!(approval_policy, AskForApproval::Never) && permission_profile_disabled {
        return "Full Access".to_string();
    }
    let sandbox = decorate_workspace_sandbox_label(sandbox, workspace_root_suffix);
    write_detailed("Custom", sandbox.as_str(), approval)
}

/// What a session may do, by its configuration.
pub open spec fn permissions_of(config: PermissionsConfig) -> Seq<char> {
    permissions_text(
        config.active_permission_profile,
        config.permission_profile_disabled,
        config.approval_policy,
        short_summary(config.permission_summary@),
        approval_text(
            config.approval_policy,
            config.approvals_reviewer,
            config.approval_name@,
        ),
        roots_suffix(config.workspace_roots@),
    )
}

/// What a session may do, by its configuration.
pub fn permissions_label(config: &PermissionsConfig) -> (label: String)
    ensures
        label@ == permissions_of(*config),
{
    let approval = status_approval_label(
        config.approval_policy,
        config.approvals_reviewer,
        config.approval_name.as_str(),
    );
    let sandbox = status_permission_summary(config.permission_summary.as_str());
    let suffix = workspace_root_suffix(&config.workspace_roots);
    status_permissions_label(
        config.active_permission_profile.as_ref(),
        config.permission_profile_disabled,
        config.approval_policy,
        sandbox.as_str(),
        approval.as_str(),
        match &suffix {
            Some(roots) => Some(roots.as_str()),
            None => None,
        },
    )
}

// ---------------------------------------------------------------------------
// Laws
// ---------------------------------------------------------------------------

/// Full access is shown only where nothing is restricted and nothing has to be
/// approved.
pub proof fn law_full_access_is_unrestricted(config: PermissionsConfig)
    requires
        permissions_of(config) == "Full Access"@,
    ensures
        config.permission_profile_disabled,
        config.approval_policy == AskForApproval::Never,
{
    reveal_strlit("Full Access");
    reveal_strlit(")");
    let label = permissions_of(config);
    assert(label.last() == 's');
    assert(")"@.last() == ')');
}

/// Summaries that begin with one of two words are cut to a word, and to whether the network
/// may be used; another summary stays as it is, but for one that says so in brackets.
pub proof fn law_summaries_are_shortened(details: Seq<char>)
    ensures
        short_summary("read-only"@ + details) == if text::has_part(
            details,
            "(network access enabled)"@,
        ) {
            "read-only with network access"@
        } else {
            "read-only"@
        },
        short_summary("workspace-write"@ + details) == if text::has_part(
            details,
            "(network access enabled)"@,
        ) {
            "workspace with network access"@
        } else {
            "workspace"@
        },
        short_summary("custom permissions (network access enabled)"@)
            == "custom permissions with network access"@,
        !text::begins_with(details, "read-only"@) && !text::begins_with(
            details,
            "workspace-write"@,
        ) && details != "custom permissions (network access enabled)"@ ==> short_summary(details)
            == details,
{
    reveal_strlit("read-only");
    reveal_strlit("workspace-write");
    reveal_strlit("custom permissions (network access enabled)");
    let (read, write) = ("read-only"@, "workspace-write"@);
    assert((read + details).take(read.len() as int) =~= read);
    assert((read + details).skip(read.len() as int) =~= details);
    assert((write + details).take(write.len() as int) =~= write);
    assert((write + details).skip(write.len() as int) =~= details);
    assert((write + details).take(read.len() as int)[0] == 'w');
    let custom = "custom permissions (network access enabled)"@;
    assert(custom.take(read.len() as int)[0] == 'c');
    assert(custom.take(write.len() as int)[0] == 'c');
}

/// Every root but the working directory is listed, in the order given.
pub proof fn law_further_roots_are_listed(roots: Seq<WorkspaceRoot>, root: WorkspaceRoot)
    ensures
        roots_suffix(Seq::empty()) is None,
        root.is_cwd ==> roots_suffix(roots.push(root)) == roots_suffix(roots),
        !root.is_cwd && roots_suffix(roots) is None ==> roots_suffix(roots.push(root)) == Some(
            " ["@ + (root.path@ + "]"@),
        ),
        !root.is_cwd ==> (roots_suffix(roots) matches Some(listed) ==> roots_suffix(
            roots.push(root),
        ) == Some(listed.drop_last() + (", "@ + (root.path@ + "]"@)))),
{
    reveal_strlit("]");
    let all = roots.push(root);
    assert(all.drop_last() =~= roots);
    assert(all.last() == root);
    let before = extra_roots(roots);
    if !root.is_cwd {
        text::law_joined(before, root.path@, ", "@);
        if before.len() == 0 {
            assert(before.push(root.path@) =~= seq![root.path@]);
            assert(" ["@ + root.path@ + "]"@ =~= " ["@ + (root.path@ + "]"@));
        } else {
            let listed = " ["@ + text::joined(before, ", "@) + "]"@;
            let longer = " ["@ + text::joined(extra_roots(all), ", "@) + "]"@;
            assert(longer =~= listed.drop_last() + (", "@ + (root.path@ + "]"@)));
        }
    }
}

/// Further roots matter where the summary begins with "workspace", and nowhere else.
pub proof fn law_further_roots_follow_a_workspace(
    rest: Seq<char>,
    sandbox: Seq<char>,
    roots: Seq<char>,
)
    ensures
        with_roots("workspace"@ + rest, Some(roots)) == "workspace"@ + rest + roots,
        with_roots(sandbox, None) == sandbox,
        !text::begins_with(sandbox, "workspace"@) ==> with_roots(sandbox, Some(roots)) == sandbox,
{
    let word = "workspace"@;
    assert((word + rest).take(word.len() as int) =~= word);
}

/// Approval on request is told by who approves, any other policy by its name.
pub proof fn law_approval_is_told(
    policy: AskForApproval,
    reviewer: ApprovalsReviewer,
    name: Seq<char>,
)
    ensures
        policy != AskForApproval::OnRequest ==> approval_text(policy, reviewer, name) == name,
        approval_text(AskForApproval::OnRequest, ApprovalsReviewer::AutoReview, name)
            == "Approve for me"@,
        approval_text(AskForApproval::OnRequest, ApprovalsReviewer::User, name)
            == "Ask for approval"@,
{
}

/// Unless full access is shown, the label ends with how approval is given, in brackets.
pub proof fn law_approval_ends_the_label(
    active: Option<ActivePermissionProfile>,
    disabled: bool,
    policy: AskForApproval,
    sandbox: Seq<char>,
    approval: Seq<char>,
    suffix: Option<Seq<char>>,
)
    ensures
        ({
            let label = permissions_text(active, disabled, policy, sandbox, approval, suffix);
            label == "Full Access"@ || (label.len() > approval.len() && label.skip(
                label.len() - approval.len() - 1,
            ) == approval.push(')'))
        }),
{
    reveal_strlit(")");
    let label = permissions_text(active, disabled, policy, sandbox, approval, suffix);
    if label != "Full Access"@ {
        assert(label.skip(label.len() - approval.len() - 1) =~= approval.push(')'));
    }
}

/// A label, and how approval is given behind it.
pub open spec fn told(label: Seq<char>, approval: Seq<char>) -> Seq<char> {
    label + (" ("@ + (approval + ")"@))
}

/// A label, with a summary and how approval is given behind it.
pub open spec fn told_at_length(
    label: Seq<char>,
    sandbox: Seq<char>,
    approval: Seq<char>,
) -> Seq<char> {
    label + (" ("@ + (sandbox + (", "@ + (approval + ")"@))))
}

proof fn lemma_told(label: Seq<char>, sandbox: Seq<char>, approval: Seq<char>)
    ensures
        approved(label, approval) == told(label, approval),
        detailed(label, sandbox, approval) == told_at_length(label, sandbox, approval),
{
    assert(approved(label, approval) =~= told(label, approval));
    assert(detailed(label, sandbox, approval) =~= told_at_length(label, sandbox, approval));
}

/// A profile in force by name is told by its name, unless it is a built-in one that fits what
/// is in force: read only at any time, a workspace where the summary is one, and full access
/// where nothing is restricted.  A built-in workspace that does not fit is told as if no
/// profile were in force.
pub proof fn law_named_profiles(
    active: ActivePermissionProfile,
    disabled: bool,
    policy: AskForApproval,
    sandbox: Seq<char>,
    approval: Seq<char>,
    suffix: Option<Seq<char>>,
)
    ensures
        ({
            let label = permissions_text(Some(active), disabled, policy, sandbox, approval, suffix);
            let roots = if suffix is Some {
                suffix->0
            } else {
                Seq::empty()
            };
            match active.built_in {
                Some(BuiltInProfile::ReadOnly) => if sandbox == "read-only with network access"@ {
                    label == told("Read Only with network access"@, approval)
                } else {
                    label == told("Read Only"@, approval)
                },
                Some(BuiltInProfile::Workspace) => if sandbox == "workspace"@ {
                    label == told("Workspace"@ + roots, approval)
                } else if sandbox == "workspace with network access"@ {
                    label == told("Workspace with network access"@ + roots, approval)
                } else {
                    label == permissions_text(None, disabled, policy, sandbox, approval, suffix)
                },
                Some(BuiltInProfile::DangerFullAccess) if disabled => if policy
                    == AskForApproval::Never {
                    label == "Full Access"@
                } else {
                    label == told("No Sandbox"@, approval)
                },
                _ => label == told_at_length(
                    "Profile "@ + active.id@,
                    with_roots(sandbox, suffix),
                    approval,
                ),
            }
        }),
{
    reveal_strlit("");
    assert(""@ =~= Seq::<char>::empty());
    let roots = or_empty(suffix);
    let shown = with_roots(sandbox, suffix);
    lemma_told("Read Only with network access"@, shown, approval);
    lemma_told("Read Only"@, shown, approval);
    lemma_told("Workspace"@ + roots, shown, approval);
    lemma_told("Workspace with network access"@ + roots, shown, approval);
    lemma_told("No Sandbox"@, shown, approval);
    lemma_told("Profile "@ + active.id@, shown, approval);
}

/// Without a profile's name, a summary of reading alone is told first; then a workspace in
/// which approval is asked for; then that nothing is restricted and nothing is asked; and
/// anything else at length.
pub proof fn law_unnamed_profiles(
    disabled: bool,
    policy: AskForApproval,
    sandbox: Seq<char>,
    approval: Seq<char>,
    suffix: Option<Seq<char>>,
)
    ensures
        ({
            let label = permissions_text(None, disabled, policy, sandbox, approval, suffix);
            let roots = if suffix is Some {
                suffix->0
            } else {
                Seq::empty()
            };
            let workspace = policy == AskForApproval::OnRequest && sandbox == "workspace"@;
            let free = policy == AskForApproval::Never && disabled;
            &&& sandbox == "read-only"@ ==> label == told("Read Only"@, approval)
            &&& workspace ==> label == told("Workspace"@ + roots, approval)
            &&& sandbox != "read-only"@ && free ==> label == "Full Access"@
            &&& sandbox != "read-only"@ && !workspace && !free ==> label == told_at_length(
                "Custom"@,
                with_roots(sandbox, suffix),
                approval,
            )
        }),
{
    reveal_strlit("");
    reveal_strlit("workspace");
    reveal_strlit("read-only");
    assert("workspace"@[0] != "read-only"@[0]);
    assert(""@ =~= Seq::<char>::empty());
    let shown = with_roots(sandbox, suffix);
    lemma_told("Read Only"@, shown, approval);
    lemma_told("Workspace"@ + or_empty(suffix), shown, approval);
    lemma_told("Custom"@, shown, approval);
}

/// The label of a configuration is made of its profile, the short form of its summary, how
/// approval is given, and the further roots.
pub proof fn law_label_follows_the_configuration(config: PermissionsConfig)
    ensures
        permissions_of(config) == permissions_text(
            config.active_permission_profile,
            config.permission_profile_disabled,
            config.approval_policy,
            short_summary(config.permission_summary@),
            approval_text(
                config.approval_policy,
                config.approvals_reviewer,
                config.approval_name@,
            ),
            roots_suffix(config.workspace_roots@),
        ),
{
}

} // verus!
