//! The active configuration, as shown.

use crate::agents;
use crate::agents::Candidate;
use crate::permissions;
use crate::permissions::PermissionsConfig;
use crate::text;
use vstd::prelude::*;

verus! {

/// What is read of the configuration.
#[derive(Debug, Clone, PartialEq, Eq)]
pub struct CodexConfig {
    pub codex_home: String,
    pub cwd: String,
    pub permissions: PermissionsConfig,
    /// The user's own instruction file, where there is one.
    pub user_agents_md: Option<String>,
    /// The candidates for an instruction file, for each directory that is searched.
    pub agents_md_candidates: Vec<Vec<Candidate>>,
    pub model: Option<String>,
    pub model_reasoning_effort: Option<String>,
    pub model_reasoning_summary: Option<String>,
    pub model_provider_id: String,
}

/// The active configuration, as shown.
#[derive(Debug, Clone, PartialEq, Eq)]
pub struct CodexOutput {
    pub codex_home: String,
    pub directory: String,
    pub permissions: String,
    pub agents_md: Vec<String>,
    pub collaboration_mode: String,
    pub model: String,
    pub model_details: Vec<String>,
    pub model_provider: String,
}

/// The active configuration, as shown, as a value.
pub struct ShownConfig {
    pub codex_home: Seq<char>,
    pub directory: Seq<char>,
    pub permissions: Seq<char>,
    pub agents_md: Seq<Seq<char>>,
    pub collaboration_mode: Seq<char>,
    pub model: Seq<char>,
    pub model_details: Seq<Seq<char>>,
    pub model_provider: Seq<char>,
}

impl View for CodexOutput {
    type V = ShownConfig;

    open spec fn view(&self) -> ShownConfig {
        ShownConfig {
            codex_home: self.codex_home@,
            directory: self.directory@,
            permissions: self.permissions@,
            agents_md: text::texts(self.agents_md@),
            collaboration_mode: self.collaboration_mode@,
            model: self.model@,
            model_details: text::texts(self.model_details@),
            model_provider: self.model_provider@,
        }
    }
}

/// A word and a value, where there is one.
pub open spec fn detail(word: Seq<char>, value: Option<String>) -> Seq<Seq<char>> {
    match value {
        Some(v) => seq![word + v@],
        None => Seq::empty(),
    }
}

/// How the model is set up.
pub open spec fn details_of(config: CodexConfig) -> Seq<Seq<char>> {
    detail("reasoning "@, config.model_reasoning_effort) + detail(
        "summaries "@,
        config.model_reasoning_summary,
    )
}

/// How the model is set up.
pub fn model_details(config: &CodexConfig) -> (details: Vec<String>)
    ensures
        text::texts(details@) == details_of(*config),
{
    let mut details: Vec<String> = Vec::new();
    if let Some(effort) = &config.model_reasoning_effort {
        let mut line = "reasoning ".to_string();
        line.append(effort.as_str());
        details.push(line);
    }
    if let Some(summary) = &config.model_reasoning_summary {
        let mut line = "summaries ".to_string();
        line.append(summary.as_str());
        details.push(line);
    }
    assert(text::texts(details@) =~= details_of(*config));
    details
}

/// What is shown of a configuration.
pub open spec fn shown_config(config: CodexConfig) -> ShownConfig {
    ShownConfig {
        codex_home: config.codex_home@,
        directory: config.cwd@,
        permissions: permissions::permissions_of(config.permissions),
        agents_md: agents::sources(
            text::maybe_text(config.user_agents_md),
            agents::candidate_lists(config.agents_md_candidates@),
        ),
        collaboration_mode: "Default"@,
        model: match config.model {
            Some(model) => model@,
            None => "(default)"@,
        },
        model_details: details_of(config),
        model_provider: config.model_provider_id@,
    }
}

/// What is shown of a configuration.
pub fn codex_output_from_config(config: &CodexConfig) -> (output: CodexOutput)
    ensures
        output@ == shown_config(*config),
{
    CodexOutput {
        codex_home: config.codex_home.clone(),
        directory: config.cwd.clone(),
        permissions: permissions::permissions_label(&config.permissions),
        agents_md: agents::agents_md_sources(&config.user_agents_md, &config.agents_md_candidates),
        collaboration_mode: "Default".to_string(),
        model: match &config.model {
            Some(model) => model.clone(),
            None => "(default)".to_string(),
        },
        model_details: model_details(config),
        model_provider: config.model_provider_id.clone(),
    }
}

/// The model, and how it is set up.
pub open spec fn model_text(codex: ShownConfig) -> Seq<char> {
    if codex.model_details.len() == 0 {
        codex.model
    } else {
        codex.model + " ("@ + text::joined(codex.model_details, ", "@) + ")"@
    }
}

/// The model, and how it is set up.
pub fn model_status_label(codex: &CodexOutput) -> (label: String)
    ensures
        label@ == model_text(codex@),
{
    let mut label = codex.model.clone();
    if codex.model_details.len() > 0 {
        label.append(" (");
        label.append(text::join(&codex.model_details, ", ").as_str());
        label.append(")");
    }
    label
}

/// The instruction files; a dash where there are none.
pub open spec fn agents_md_text(codex: ShownConfig) -> Seq<char> {
    if codex.agents_md.len() == 0 {
        "-"@
    } else {
        text::joined(codex.agents_md, ", "@)
    }
}

/// The instruction files.
pub fn agents_md_status_label(codex: &CodexOutput) -> (label: String)
    ensures
        label@ == agents_md_text(codex@),
{
    if codex.agents_md.len() == 0 {
        "-".to_string()
    } else {
        text::join(&codex.agents_md, ", ")
    }
}

// ---------------------------------------------------------------------------
// Laws
// ---------------------------------------------------------------------------

/// Each part of the configuration is shown as it is; a model that is not configured is told
/// to be the default.
pub proof fn law_configuration_is_shown_as_it_is(config: CodexConfig)
    ensures
        ({
            let shown = shown_config(config);
            &&& shown.codex_home == config.codex_home@
            &&& shown.directory == config.cwd@
            &&& shown.model_provider == config.model_provider_id@
            &&& shown.permissions == permissions::permissions_of(config.permissions)
            &&& shown.collaboration_mode == "Default"@
            &&& config.model is None ==> shown.model == "(default)"@
            &&& config.model matches Some(model) ==> shown.model == model@
            &&& shown.agents_md == agents::sources(
                text::maybe_text(config.user_agents_md),
                agents::candidate_lists(config.agents_md_candidates@),
            )
        }),
{
}

/// The model is told alone, or with how it is set up in brackets: how it reasons first, and
/// how it sums up next, each if it is configured.
pub proof fn law_model_is_told_with_its_setup(config: CodexConfig)
    ensures
        ({
            let shown = shown_config(config);
            let (effort, summary) = (
                config.model_reasoning_effort,
                config.model_reasoning_summary,
            );
            &&& effort is None && summary is None ==> model_text(shown) == shown.model
            &&& effort is Some && summary is None ==> model_text(shown) == shown.model + (" ("@ + (
            "reasoning "@ + (effort->0@ + ")"@)))
            &&& effort is None && summary is Some ==> model_text(shown) == shown.model + (" ("@ + (
            "summaries "@ + (summary->0@ + ")"@)))
            &&& effort is Some && summary is Some ==> model_text(shown) == shown.model + (" ("@ + (
            "reasoning "@ + (effort->0@ + (", "@ + ("summaries "@ + (summary->0@ + ")"@))))))
        }),
{
    let shown = shown_config(config);
    let (effort, summary) = (config.model_reasoning_effort, config.model_reasoning_summary);
    let details = shown.model_details;
    if effort is Some && summary is Some {
        let (first, second) = ("reasoning "@ + effort->0@, "summaries "@ + summary->0@);
        assert(details =~= seq![first].push(second));
        text::law_joined(seq![first], second, ", "@);
        text::law_joined(seq![], first, ", "@);
        assert(model_text(shown) =~= shown.model + (" ("@ + ("reasoning "@ + (effort->0@ + (", "@ + (
        "summaries "@ + (summary->0@ + ")"@)))))));
    } else if effort is Some {
        assert(details =~= seq!["reasoning "@ + effort->0@]);
        assert(model_text(shown) =~= shown.model + (" ("@ + ("reasoning "@ + (effort->0@
            + ")"@))));
    } else if summary is Some {
        assert(details =~= seq!["summaries "@ + summary->0@]);
        assert(model_text(shown) =~= shown.model + (" ("@ + ("summaries "@ + (summary->0@
            + ")"@))));
    }
}

/// Instruction files are told in their order with commas between them, and by a dash where
/// there are none.
pub proof fn law_instruction_files_are_told(codex: ShownConfig)
    ensures
        codex.agents_md.len() == 0 ==> agents_md_text(codex) == seq!['-'],
        codex.agents_md.len() > 0 ==> agents_md_text(codex) == text::joined(
            codex.agents_md,
            seq![',', ' '],
        ),
{
    reveal_strlit("-");
    reveal_strlit(", ");
    assert("-"@ =~= seq!['-']);
    assert(", "@ =~= seq![',', ' ']);
}

/// What is shown of a configuration is taken with each of its parts.
pub proof fn law_shown_configuration_is_taken_in_full(output: CodexOutput)
    ensures
        output@.codex_home == output.codex_home@,
        output@.directory == output.directory@,
        output@.permissions == output.permissions@,
        output@.collaboration_mode == output.collaboration_mode@,
        output@.model == output.model@,
        output@.model_provider == output.model_provider@,
        output@.agents_md.len() == output.agents_md@.len(),
        forall|i: int|
            0 <= i < output.agents_md@.len() ==> #[trigger] output@.agents_md[i]
                == output.agents_md@[i]@,
        output@.model_details.len() == output.model_details@.len(),
        forall|i: int|
            0 <= i < output.model_details@.len() ==> #[trigger] output@.model_details[i]
                == output.model_details@[i]@,
{
}

} // verus!
