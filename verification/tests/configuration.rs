use cxst::account::{
    auth_output_from_account_state, auth_output_from_answer, auth_status_label, plan_type_label,
    AccountState, AuthOutput, AuthStatus, PlanType, ProviderAccount,
};
use cxst::agents::{
    agents_md_candidate_filenames, agents_md_search_dirs, agents_md_sources, Candidate,
};
use cxst::codex::{
    agents_md_status_label, codex_output_from_config, model_details, model_status_label,
    CodexConfig, CodexOutput,
};
use cxst::limits::{
    unavailable, RateLimitOutput, RateLimitStatus, RateLimitWindowOutput, RateLimitsOutput,
};
use cxst::percent::Percent;
use cxst::permissions::{
    decorate_workspace_sandbox_label, permissions_label, status_approval_label,
    status_permission_summary, status_permissions_label, workspace_root_suffix,
    ActivePermissionProfile, ApprovalsReviewer, AskForApproval, BuiltInProfile, PermissionsConfig,
    WorkspaceRoot,
};
use cxst::status::{push_limit_window, status_lines, StatusOutput};
use serde_json::Value;

fn auth_value(output: &AuthOutput) -> Value {
    let text = |text: &Option<String>| match text {
        Some(text) => Value::String(text.clone()),
        None => Value::Null,
    };
    let mut object = serde_json::Map::new();
    object.insert(
        "status".to_string(),
        Value::String(
            match output.status {
                AuthStatus::Chatgpt => "chatgpt",
                AuthStatus::ApiKey => "api_key",
                AuthStatus::AmazonBedrock => "amazon_bedrock",
                AuthStatus::Unauthenticated => "unauthenticated",
                AuthStatus::NotRequired => "not_required",
                AuthStatus::Unavailable => "unavailable",
            }
            .to_string(),
        ),
    );
    object.insert(
        "requiresOpenaiAuth".to_string(),
        Value::Bool(output.requires_openai_auth),
    );
    object.insert("email".to_string(), text(&output.email));
    object.insert("planType".to_string(), text(&output.plan_type));
    Value::Object(object)
}

#[test]
fn auth_output_maps_api_key_without_plan_or_secret() {
    let output = auth_output_from_account_state(Some(&ProviderAccount::ApiKey), true);

    assert!(matches!(output.status, AuthStatus::ApiKey));
    assert!(output.requires_openai_auth);
    assert_eq!(output.email, None);
    assert_eq!(output.plan_type, None);
}

#[test]
fn auth_output_maps_unauthenticated() {
    let output = auth_output_from_account_state(None, true);

    assert!(matches!(output.status, AuthStatus::Unauthenticated));
    assert!(output.requires_openai_auth);
    assert_eq!(output.email, None);
    assert_eq!(output.plan_type, None);
}

#[test]
fn auth_output_maps_chatgpt_with_email_like_status() {
    let account = ProviderAccount::Chatgpt {
        email: "user@example.invalid".to_string(),
        plan_type: PlanType::Pro,
    };
    let output = auth_output_from_account_state(Some(&account), true);
    let json = serde_json::to_string(&auth_value(&output)).unwrap();

    assert!(matches!(output.status, AuthStatus::Chatgpt));
    assert_eq!(output.email.as_deref(), Some("user@example.invalid"));
    assert_eq!(output.plan_type.as_deref(), Some("pro"));
    assert!(json.contains("user@example.invalid"));
}

#[test]
fn accounts_map_to_their_status() {
    let bedrock = auth_output_from_account_state(Some(&ProviderAccount::AmazonBedrock), false);
    assert_eq!(bedrock.status, AuthStatus::AmazonBedrock);
    assert!(!bedrock.requires_openai_auth);
    let free = auth_output_from_account_state(None, false);
    assert_eq!(free.status, AuthStatus::NotRequired);
    let failed = auth_output_from_answer(None);
    assert_eq!(failed.status, AuthStatus::Unavailable);
    assert!(failed.requires_openai_auth);
    let answered = auth_output_from_answer(Some(AccountState {
        account: Some(ProviderAccount::ApiKey),
        requires_openai_auth: false,
    }));
    assert_eq!(answered.status, AuthStatus::ApiKey);
    assert!(!answered.requires_openai_auth);
}

#[test]
fn accounts_are_shown_by_address_or_status() {
    let label = |status: AuthStatus, email: Option<&str>, plan: Option<&str>| {
        auth_status_label(&AuthOutput {
            status,
            requires_openai_auth: true,
            email: email.map(str::to_string),
            plan_type: plan.map(str::to_string),
        })
    };
    assert_eq!(
        label(AuthStatus::Chatgpt, Some("user@example.com"), Some("pro")),
        "user@example.com (pro)"
    );
    assert_eq!(label(AuthStatus::Chatgpt, Some("a@b.c"), None), "a@b.c");
    assert_eq!(label(AuthStatus::Chatgpt, None, Some("go")), "ChatGPT (go)");
    assert_eq!(label(AuthStatus::Chatgpt, None, None), "ChatGPT");
    assert_eq!(label(AuthStatus::ApiKey, None, None), "API key");
    assert_eq!(label(AuthStatus::AmazonBedrock, None, None), "Amazon Bedrock");
    assert_eq!(
        label(AuthStatus::Unauthenticated, None, None),
        "unauthenticated"
    );
    assert_eq!(label(AuthStatus::NotRequired, None, None), "not required");
    assert_eq!(label(AuthStatus::Unavailable, None, None), "unavailable");
}

#[test]
fn plans_have_names() {
    let names: Vec<String> = [
        PlanType::Free,
        PlanType::Go,
        PlanType::Plus,
        PlanType::Pro,
        PlanType::ProLite,
        PlanType::Team,
        PlanType::SelfServeBusinessUsageBased,
        PlanType::Business,
        PlanType::EnterpriseCbpUsageBased,
        PlanType::Enterprise,
        PlanType::Edu,
        PlanType::Unknown,
    ]
    .iter()
    .map(plan_type_label)
    .collect();
    assert_eq!(
        names,
        vec![
            "free",
            "go",
            "plus",
            "pro",
            "pro_lite",
            "team",
            "self_serve_business_usage_based",
            "business",
            "enterprise_cbp_usage_based",
            "enterprise",
            "edu",
            "unknown"
        ]
    );
}

#[test]
fn summaries_of_permissions_are_shortened() {
    let short = status_permission_summary;
    assert_eq!(short("read-only"), "read-only");
    assert_eq!(
        short("read-only (network access enabled)"),
        "read-only with network access"
    );
    assert_eq!(short("workspace-write [workdir, /tmp]"), "workspace");
    assert_eq!(
        short("workspace-write [workdir] (network access enabled)"),
        "workspace with network access"
    );
    assert_eq!(
        short("custom permissions (network access enabled)"),
        "custom permissions with network access"
    );
    assert_eq!(short("custom permissions"), "custom permissions");
    assert_eq!(short("danger-full-access"), "danger-full-access");
    assert_eq!(short("read-onl"), "read-onl");
}

fn root(path: &str, is_cwd: bool) -> WorkspaceRoot {
    WorkspaceRoot {
        path: path.to_string(),
        is_cwd,
    }
}

#[test]
fn further_roots_are_listed() {
    assert_eq!(workspace_root_suffix(&vec![]), None);
    assert_eq!(workspace_root_suffix(&vec![root("/w", true)]), None);
    assert_eq!(
        workspace_root_suffix(&vec![root("/a", false), root("/w", true), root("/b", false)]),
        Some(" [/a, /b]".to_string())
    );
    assert_eq!(
        decorate_workspace_sandbox_label("workspace", Some(" [/a]")),
        "workspace [/a]"
    );
    assert_eq!(
        decorate_workspace_sandbox_label("read-only", Some(" [/a]")),
        "read-only"
    );
    assert_eq!(decorate_workspace_sandbox_label("workspace", None), "workspace");
}

#[test]
fn approval_is_named_by_policy_and_reviewer() {
    assert_eq!(
        status_approval_label(
            AskForApproval::OnRequest,
            ApprovalsReviewer::AutoReview,
            "on-request"
        ),
        "Approve for me"
    );
    assert_eq!(
        status_approval_label(
            AskForApproval::OnRequest,
            ApprovalsReviewer::User,
            "on-request"
        ),
        "Ask for approval"
    );
    assert_eq!(
        status_approval_label(AskForApproval::Never, ApprovalsReviewer::User, "never"),
        "never"
    );
}

#[test]
fn permissions_are_named_by_profile_sandbox_and_approval() {
    let profile = |id: &str, built_in: Option<BuiltInProfile>| ActivePermissionProfile {
        id: id.to_string(),
        built_in,
    };
    let read_only = profile(":read-only", Some(BuiltInProfile::ReadOnly));
    let workspace = profile(":workspace", Some(BuiltInProfile::Workspace));
    let danger = profile(":danger", Some(BuiltInProfile::DangerFullAccess));
    let mine = profile("mine", None);
    let request = AskForApproval::OnRequest;
    let never = AskForApproval::Never;
    let other = AskForApproval::Other;
    let label = status_permissions_label;

    assert_eq!(
        label(Some(&read_only), false, never, "anything", "never", None),
        "Read Only (never)"
    );
    assert_eq!(
        label(
            Some(&read_only),
            false,
            never,
            "read-only with network access",
            "never",
            None
        ),
        "Read Only with network access (never)"
    );
    assert_eq!(
        label(
            Some(&workspace),
            false,
            never,
            "workspace",
            "never",
            Some(" [/a]")
        ),
        "Workspace [/a] (never)"
    );
    assert_eq!(
        label(
            Some(&workspace),
            false,
            never,
            "workspace with network access",
            "never",
            None
        ),
        "Workspace with network access (never)"
    );
    assert_eq!(
        label(Some(&workspace), false, other, "read-only", "x", None),
        "Read Only (x)"
    );
    assert_eq!(
        label(Some(&workspace), true, never, "danger-full-access", "x", None),
        "Full Access"
    );
    assert_eq!(
        label(Some(&danger), true, never, "danger-full-access", "x", None),
        "Full Access"
    );
    assert_eq!(
        label(Some(&danger), true, request, "danger-full-access", "x", None),
        "No Sandbox (x)"
    );
    assert_eq!(
        label(Some(&danger), false, never, "workspace", "x", Some(" [/a]")),
        "Profile :danger (workspace [/a], x)"
    );
    assert_eq!(
        label(Some(&mine), true, never, "read-only", "x", Some(" [/a]")),
        "Profile mine (read-only, x)"
    );
    assert_eq!(
        label(None, false, never, "read-only", "x", None),
        "Read Only (x)"
    );
    assert_eq!(
        label(None, false, request, "workspace", "x", Some(" [/a]")),
        "Workspace [/a] (x)"
    );
    assert_eq!(
        label(None, false, other, "workspace", "x", Some(" [/a]")),
        "Custom (workspace [/a], x)"
    );
    assert_eq!(
        label(None, true, never, "workspace", "x", None),
        "Full Access"
    );
    assert_eq!(
        label(None, true, request, "danger-full-access", "Approve for me", None),
        "Custom (danger-full-access, Approve for me)"
    );
}

fn permissions() -> PermissionsConfig {
    PermissionsConfig {
        active_permission_profile: None,
        permission_profile_disabled: true,
        permission_summary: "danger-full-access".to_string(),
        approval_policy: AskForApproval::OnRequest,
        approval_name: "on-request".to_string(),
        approvals_reviewer: ApprovalsReviewer::AutoReview,
        workspace_roots: vec![root("/Users/example/src/project", true)],
    }
}

#[test]
fn permissions_follow_from_the_configuration() {
    assert_eq!(
        permissions_label(&permissions()),
        "Custom (danger-full-access, Approve for me)"
    );
    let mut config = permissions();
    config.permission_summary = "workspace-write [workdir]".to_string();
    config.approvals_reviewer = ApprovalsReviewer::User;
    config.workspace_roots.push(root("/b", false));
    assert_eq!(
        permissions_label(&config),
        "Workspace [/b] (Ask for approval)"
    );
}

#[test]
fn directories_are_searched_from_the_repository_down() {
    assert_eq!(agents_md_search_dirs(&vec![]), vec![0]);
    assert_eq!(agents_md_search_dirs(&vec![false, false]), vec![0]);
    assert_eq!(agents_md_search_dirs(&vec![true, true]), vec![0]);
    assert_eq!(
        agents_md_search_dirs(&vec![false, false, true, false, true]),
        vec![2, 1, 0]
    );
}

#[test]
fn file_names_come_once_and_the_fixed_ones_first() {
    let names = |fallbacks: &[&str]| {
        agents_md_candidate_filenames(&fallbacks.iter().map(|name| name.to_string()).collect())
    };
    assert_eq!(names(&[]), vec!["AGENTS.override.md", "AGENTS.md"]);
    assert_eq!(
        names(&["", "NOTES.md", "AGENTS.md", "x", "NOTES.md"]),
        vec!["AGENTS.override.md", "AGENTS.md", "NOTES.md", "x"]
    );
}

fn candidate(path: &str, is_file: bool) -> Candidate {
    Candidate {
        path: path.to_string(),
        is_file,
    }
}

#[test]
fn the_first_file_of_each_directory_counts() {
    let dirs = vec![
        vec![candidate("/r/A", false), candidate("/r/B", true), candidate("/r/C", true)],
        vec![candidate("/r/s/A", false)],
        vec![],
        vec![candidate("/r/B", true)],
        vec![candidate("/a/A", true)],
    ];
    assert_eq!(
        agents_md_sources(&Some("/home/AGENTS.md".to_string()), &dirs),
        vec!["/a/A", "/home/AGENTS.md", "/r/B"]
    );
    assert_eq!(agents_md_sources(&None, &dirs), vec!["/a/A", "/r/B"]);
}

fn config() -> CodexConfig {
    CodexConfig {
        codex_home: "/Users/example/.codex".to_string(),
        cwd: "/Users/example/src/project".to_string(),
        permissions: permissions(),
        user_agents_md: Some("/Users/example/.codex/AGENTS.md".to_string()),
        agents_md_candidates: vec![],
        model: Some("gpt-5.5".to_string()),
        model_reasoning_effort: Some("high".to_string()),
        model_reasoning_summary: Some("detailed".to_string()),
        model_provider_id: "openai".to_string(),
    }
}

#[test]
fn configuration_is_shown() {
    let output = codex_output_from_config(&config());
    assert_eq!(
        output,
        CodexOutput {
            codex_home: "/Users/example/.codex".to_string(),
            directory: "/Users/example/src/project".to_string(),
            permissions: "Custom (danger-full-access, Approve for me)".to_string(),
            agents_md: vec!["/Users/example/.codex/AGENTS.md".to_string()],
            collaboration_mode: "Default".to_string(),
            model: "gpt-5.5".to_string(),
            model_details: vec![
                "reasoning high".to_string(),
                "summaries detailed".to_string()
            ],
            model_provider: "openai".to_string(),
        }
    );
    assert_eq!(
        model_status_label(&output),
        "gpt-5.5 (reasoning high, summaries detailed)"
    );
    assert_eq!(
        agents_md_status_label(&output),
        "/Users/example/.codex/AGENTS.md"
    );

    let mut plain = config();
    plain.model = None;
    plain.model_reasoning_effort = None;
    plain.model_reasoning_summary = None;
    plain.user_agents_md = None;
    assert_eq!(model_details(&plain), Vec::<String>::new());
    let output = codex_output_from_config(&plain);
    assert_eq!(model_status_label(&output), "(default)");
    assert_eq!(agents_md_status_label(&output), "-");
}

fn shown_window(remaining: f64, reset: Option<&str>) -> RateLimitWindowOutput {
    let remaining_percent = Percent::in_range(remaining.to_bits()).unwrap();
    RateLimitWindowOutput {
        remaining_percent,
        used_percent: remaining_percent.remaining(),
        reset_at: None,
        reset_display: reset.map(str::to_string),
        window_minutes: None,
    }
}

fn status(rate_limits: RateLimitsOutput) -> StatusOutput {
    StatusOutput {
        auth: AuthOutput {
            status: AuthStatus::Chatgpt,
            requires_openai_auth: true,
            email: Some("user@example.com".to_string()),
            plan_type: Some("pro".to_string()),
        },
        rate_limits,
        codex: codex_output_from_config(&config()),
    }
}

fn limit(scope: &str, five_hour: Option<f64>, weekly: Option<f64>) -> RateLimitOutput {
    RateLimitOutput {
        scope: scope.to_string(),
        plan_type: None,
        five_hour: five_hour.map(|remaining| shown_window(remaining, Some("19:31"))),
        weekly: weekly.map(|remaining| shown_window(remaining, None)),
        monthly: None,
    }
}

#[test]
fn status_is_printed_line_by_line() {
    let lines = status_lines(&status(RateLimitsOutput {
        status: RateLimitStatus::Available,
        reason: None,
        limits: vec![
            limit("codex", Some(83.0), Some(33.0)),
            limit("additional_1", None, Some(100.0)),
            limit("additional_2", None, None),
        ],
    }));
    assert_eq!(
        lines,
        vec![
            "Codex status",
            "  Model              gpt-5.5 (reasoning high, summaries detailed)",
            "  Directory          /Users/example/src/project",
            "  Codex home         /Users/example/.codex",
            "  Permissions        Custom (danger-full-access, Approve for me)",
            "  Agents.md          /Users/example/.codex/AGENTS.md",
            "  Account            user@example.com (pro)",
            "  Collaboration mode Default",
            "",
            "Rate limits",
            "  5h limit           [█████████████████░░░]  83% left (resets 19:31)",
            "  Weekly limit       [███████░░░░░░░░░░░░░]  33% left (resets -)",
            "  additional_1 limit:",
            "  Weekly limit       [████████████████████] 100% left (resets -)",
            "  additional_2 limit:",
        ]
    );
}

#[test]
fn status_tells_why_limits_are_missing() {
    let last = |rate_limits: RateLimitsOutput| status_lines(&status(rate_limits)).pop().unwrap();
    assert_eq!(last(unavailable("why")), "  unavailable     why");
    assert_eq!(
        last(RateLimitsOutput {
            status: RateLimitStatus::Unavailable,
            reason: None,
            limits: vec![],
        }),
        "  unavailable     unavailable"
    );
    for limits in [vec![], vec![limit("codex", None, None)]] {
        assert_eq!(
            last(RateLimitsOutput {
                status: RateLimitStatus::Available,
                reason: None,
                limits,
            }),
            "  unavailable     no displayable limits"
        );
    }
    let mut lines: Vec<String> = vec![];
    push_limit_window(&mut lines, "Monthly limit", None);
    assert!(lines.is_empty());
    push_limit_window(&mut lines, "Monthly limit", Some(&shown_window(0.0, None)));
    assert_eq!(
        lines,
        vec!["  Monthly limit      [░░░░░░░░░░░░░░░░░░░░]   0% left (resets -)"]
    );
}
