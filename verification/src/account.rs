//! Accounts: what is shown of the account that is signed in.

use crate::text;
use vstd::prelude::*;

verus! {

/// The plan of an account.
#[derive(Debug, Clone, Copy, PartialEq, Eq)]
pub enum PlanType {
    Free,
    Go,
    Plus,
    Pro,
    ProLite,
    Team,
    SelfServeBusinessUsageBased,
    Business,
    EnterpriseCbpUsageBased,
    Enterprise,
    Edu,
    Unknown,
}

/// An account of a model provider.
#[derive(Debug, Clone, PartialEq, Eq)]
pub enum ProviderAccount {
    ApiKey,
    Chatgpt { email: String, plan_type: PlanType },
    AmazonBedrock,
}

/// What a provider knows of the account: the account, if there is one, and
/// whether the provider needs one.
#[derive(Debug, Clone, PartialEq, Eq)]
pub struct AccountState {
    pub account: Option<ProviderAccount>,
    pub requires_openai_auth: bool,
}

/// How the user is signed in.
#[derive(Debug, Clone, Copy, PartialEq, Eq)]
pub enum AuthStatus {
    Chatgpt,
    ApiKey,
    AmazonBedrock,
    Unauthenticated,
    NotRequired,
    Unavailable,
}

/// What is shown of the account.
#[derive(Debug, Clone, PartialEq, Eq)]
pub struct AuthOutput {
    pub status: AuthStatus,
    pub requires_openai_auth: bool,
    pub email: Option<String>,
    pub plan_type: Option<String>,
}

/// The account state as a value: its strings as texts.
pub struct AuthView {
    pub status: AuthStatus,
    pub requires_openai_auth: bool,
    pub email: Option<Seq<char>>,
    pub plan_type: Option<Seq<char>>,
}

impl View for AuthOutput {
    type V = AuthView;

    open spec fn view(&self) -> AuthView {
        AuthView {
            status: self.status,
            requires_openai_auth: self.requires_openai_auth,
            email: text::maybe_text(self.email),
            plan_type: text::maybe_text(self.plan_type),
        }
    }
}

/// The name of a plan.
pub open spec fn plan_label(plan_type: PlanType) -> Seq<char> {
    match plan_type {
        PlanType::Free => "free"@,
        PlanType::Go => "go"@,
        PlanType::Plus => "plus"@,
        PlanType::Pro => "pro"@,
        PlanType::ProLite => "pro_lite"@,
        PlanType::Team => "team"@,
        PlanType::SelfServeBusinessUsageBased => "self_serve_business_usage_based"@,
        PlanType::Business => "business"@,
        PlanType::EnterpriseCbpUsageBased => "enterprise_cbp_usage_based"@,
        PlanType::Enterprise => "enterprise"@,
        PlanType::Edu => "edu"@,
        PlanType::Unknown => "unknown"@,
    }
}

/// The name of a plan.
pub fn plan_type_label(plan_type: &PlanType) -> (label: String)
    ensures
        label@ == plan_label(*plan_type),
{
    let label: &'static str = match plan_type {
        PlanType::Free => "free",
        PlanType::Go => "go",
        PlanType::Plus => "plus",
        PlanType::Pro => "pro",
        PlanType::ProLite => "pro_lite",
        PlanType::Team => "team",
        PlanType::SelfServeBusinessUsageBased => "self_serve_business_usage_based",
        PlanType::Business => "business",
        PlanType::EnterpriseCbpUsageBased => "enterprise_cbp_usage_based",
        PlanType::Enterprise => "enterprise",
        PlanType::Edu => "edu",
        PlanType::Unknown => "unknown",
    };
    label.to_string()
}

/// What is shown of an account: an e-mail address and a plan of a ChatGPT account
/// alone, and without an account whether one is needed.
pub open spec fn auth_of(account: Option<ProviderAccount>, requires_openai_auth: bool) -> AuthView {
    let (status, email, plan_type) = match account {
        Some(ProviderAccount::ApiKey) => (AuthStatus::ApiKey, None, None),
        Some(ProviderAccount::Chatgpt { email, plan_type }) => (
            AuthStatus::Chatgpt,
            Some(email@),
            Some(plan_label(plan_type)),
        ),
        Some(ProviderAccount::AmazonBedrock) => (AuthStatus::AmazonBedrock, None, None),
        None => (
            if requires_openai_auth {
                AuthStatus::Unauthenticated
            } else {
                AuthStatus::NotRequired
            },
            None,
            None,
        ),
    };
    AuthView { status, requires_openai_auth, email, plan_type }
}

/// What is shown of an account.
pub fn auth_output_from_account_state(
    account: Option<&ProviderAccount>,
    requires_openai_auth: bool,
) -> (output: AuthOutput)
    ensures
        output@ == auth_of(
            match account {
                Some(a) => Some(*a),
                None => None,
            },
            requires_openai_auth,
        ),
{
    match account {
        Some(ProviderAccount::ApiKey) => AuthOutput {
            status: AuthStatus::ApiKey,
            requires_openai_auth,
            email: None,
            plan_type: None,
        },
        Some(ProviderAccount::Chatgpt { email, plan_type }) => AuthOutput {
            status: AuthStatus::Chatgpt,
            requires_openai_auth,
            email: Some(email.clone()),
            plan_type: Some(plan_type_label(plan_type)),
        },
        Some(ProviderAccount::AmazonBedrock) => AuthOutput {
            status: AuthStatus::AmazonBedrock,
            requires_openai_auth,
            email: None,
            plan_type: None,
        },
        None => AuthOutput {
            status: if requires_openai_auth {
                AuthStatus::Unauthenticated
            } else {
                AuthStatus::NotRequired
            },
            requires_openai_auth,
            email: None,
            plan_type: None,
        },
    }
}

/// What is shown when the provider was asked for the account: nothing but that it
/// is unavailable, where the provider did not answer.
pub open spec fn auth_of_answer(answer: Option<AccountState>) -> AuthView {
    match answer {
        Some(state) => auth_of(state.account, state.requires_openai_auth),
        None => AuthView {
            status: AuthStatus::Unavailable,
            requires_openai_auth: true,
            email: None,
            plan_type: None,
        },
    }
}

/// What is shown when the provider was asked for the account; `None` stands for
/// an error.
pub fn auth_output_from_answer(answer: Option<AccountState>) -> (output: AuthOutput)
    ensures
        output@ == auth_of_answer(answer),
{
    match answer {
        Some(state) => auth_output_from_account_state(
            state.account.as_ref(),
            state.requires_openai_auth,
        ),
        None => AuthOutput {
            status: AuthStatus::Unavailable,
            requires_openai_auth: true,
            email: None,
            plan_type: None,
        },
    }
}

/// The name of a way to be signed in.
pub open spec fn auth_status_name(status: AuthStatus) -> Seq<char> {
    match status {
        AuthStatus::Chatgpt => "ChatGPT"@,
        AuthStatus::ApiKey => "API key"@,
        AuthStatus::AmazonBedrock => "Amazon Bedrock"@,
        AuthStatus::Unauthenticated => "unauthenticated"@,
        AuthStatus::NotRequired => "not required"@,
        AuthStatus::Unavailable => "unavailable"@,
    }
}

/// The account in one line: the e-mail address, else how the user is signed in,
/// and the plan in brackets where it is known.
pub open spec fn auth_label(auth: AuthView) -> Seq<char> {
    let name = match auth.email {
        Some(email) => email,
        None => auth_status_name(auth.status),
    };
    match auth.plan_type {
        Some(plan) => name + " ("@ + plan + ")"@,
        None => name,
    }
}

/// The account in one line.
pub fn auth_status_label(auth: &AuthOutput) -> (label: String)
    ensures
        label@ == auth_label(auth@),
{
    let mut label = match &auth.email {
        Some(email) => email.clone(),
        None => match auth.status {
            AuthStatus::Chatgpt => "ChatGPT".to_string(),
            AuthStatus::ApiKey => "API key".to_string(),
            AuthStatus::AmazonBedrock => "Amazon Bedrock".to_string(),
            AuthStatus::Unauthenticated => "unauthenticated".to_string(),
            AuthStatus::NotRequired => "not required".to_string(),
            AuthStatus::Unavailable => "unavailable".to_string(),
        },
    };
    match &auth.plan_type {
        Some(plan) => {
            label.append(" (");
            label.append(plan.as_str());
            label.append(")");
        },
        None => {},
    }
    label
}

/// An e-mail address or a plan is shown of a ChatGPT account alone, and then both
/// are; of an API key nothing is shown but that it is one.
pub proof fn law_only_chatgpt_accounts_are_named(
    account: Option<ProviderAccount>,
    requires_openai_auth: bool,
)
    ensures
        auth_of(account, requires_openai_auth).email is Some <==> account matches Some(
            ProviderAccount::Chatgpt { .. },
        ),
        auth_of(account, requires_openai_auth).plan_type is Some <==> account matches Some(
            ProviderAccount::Chatgpt { .. },
        ),
        account == Some(ProviderAccount::ApiKey) ==> auth_label(
            auth_of(account, requires_openai_auth),
        ) == "API key"@,
{
}

/// Every account is shown with what it is: a ChatGPT account with its e-mail address and plan
/// as they are; without an account it is told whether one is needed, and without an answer
/// that this is not known.
pub proof fn law_accounts_are_shown_as_they_are(
    account: ProviderAccount,
    requires_openai_auth: bool,
)
    ensures
        ({
            let shown = auth_of_answer(
                Some(AccountState { account: Some(account), requires_openai_auth }),
            );
            &&& shown == auth_of(Some(account), requires_openai_auth)
            &&& shown.requires_openai_auth == requires_openai_auth
            &&& account matches ProviderAccount::Chatgpt { email, plan_type } ==> shown.status
                == AuthStatus::Chatgpt && shown.email == Some(email@) && shown.plan_type == Some(
                plan_label(plan_type),
            )
            &&& account is ApiKey ==> shown.status == AuthStatus::ApiKey
            &&& account is AmazonBedrock ==> shown.status == AuthStatus::AmazonBedrock
        }),
        ({
            let shown = auth_of_answer(Some(AccountState { account: None, requires_openai_auth }));
            &&& shown == auth_of(None, requires_openai_auth)
            &&& shown.requires_openai_auth == requires_openai_auth
            &&& shown.email is None && shown.plan_type is None
            &&& requires_openai_auth ==> shown.status == AuthStatus::Unauthenticated
            &&& !requires_openai_auth ==> shown.status == AuthStatus::NotRequired
        }),
        auth_of_answer(None).status == AuthStatus::Unavailable,
        auth_of_answer(None).requires_openai_auth,
        auth_of_answer(None).email is None && auth_of_answer(None).plan_type is None,
{
}

/// An account is told by its e-mail address, else by how the user is signed in, and with the
/// plan in brackets where that is known.
pub proof fn law_accounts_are_told_in_one_line(auth: AuthView)
    ensures
        auth.email matches Some(email) ==> {
            &&& auth.plan_type is None ==> auth_label(auth) == email
            &&& auth.plan_type matches Some(plan) ==> auth_label(auth) == email + (" ("@ + (plan
                + ")"@))
        },
        auth.email is None ==> {
            &&& auth.plan_type is None ==> auth_label(auth) == auth_status_name(auth.status)
            &&& auth.plan_type matches Some(plan) ==> auth_label(auth) == auth_status_name(
                auth.status,
            ) + (" ("@ + (plan + ")"@))
        },
{
    let name = match auth.email {
        Some(email) => email,
        None => auth_status_name(auth.status),
    };
    if auth.plan_type is Some {
        let plan = auth.plan_type->0;
        assert(name + " ("@ + plan + ")"@ =~= name + (" ("@ + (plan + ")"@)));
    }
}

/// What is shown of an account is taken with each of its parts.
pub proof fn law_shown_account_is_taken_in_full(output: AuthOutput)
    ensures
        output@.status == output.status,
        output@.requires_openai_auth == output.requires_openai_auth,
        output@.email is Some <==> output.email is Some,
        output.email is Some ==> output@.email->0 == output.email->0@,
        output@.plan_type is Some <==> output.plan_type is Some,
        output.plan_type is Some ==> output@.plan_type->0 == output.plan_type->0@,
{
}

} // verus!
