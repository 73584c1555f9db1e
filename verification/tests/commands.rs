use codex_workbench::apply_patch_tool::ApplyPatchToolOptions;
use codex_workbench::apply_patch_tool::create_apply_patch_freeform_tool;
use codex_workbench::apply_patch_tool::create_apply_patch_json_tool;
use codex_workbench::apply_patch_tool::create_apply_patch_json_tool_with_options;
use codex_workbench::apply_patch_tool::MULTI_ENV_PATH_RULE;
use codex_workbench::apply_patch_tool::ToolSpec;
use codex_workbench::model_provider::AmazonBedrockModelProvider;
use codex_workbench::model_provider::CatalogSource;
use codex_workbench::model_provider::ProviderAccount;
use codex_workbench::model_provider::ProviderCapabilities;
use codex_workbench::pet_picker::available_pet_entries;
use codex_workbench::pet_picker::build_pet_picker_params;
use codex_workbench::pet_picker::InstalledPet;
use codex_workbench::pet_picker::PetAction;
use codex_workbench::pet_picker::PetDetails;
use codex_workbench::pet_picker::PetIds;
use codex_workbench::pet_picker::PetPickerParams;
use codex_workbench::slash_commands::BuiltinCommand;
use codex_workbench::slash_commands::BuiltinCommandFlags;
use codex_workbench::slash_commands::builtins_for_input;
use codex_workbench::slash_commands::command_available_during_task;
use codex_workbench::slash_commands::command_available_in_side_conversation;
use codex_workbench::slash_commands::command_description;
use codex_workbench::slash_commands::command_name;
use codex_workbench::slash_commands::command_supports_inline_args;
use codex_workbench::slash_commands::CommandGate;
use codex_workbench::slash_commands::gate_of;
use codex_workbench::slash_commands::SlashCommand;
use codex_workbench::slash_commands::command_as_builtin;
use codex_workbench::slash_commands::commands_for_input;
use codex_workbench::slash_commands::current_service_tier_status_label;
use codex_workbench::slash_commands::find_command;
use codex_workbench::slash_commands::has_command_prefix;
use codex_workbench::slash_commands::model_supports_service_tier;
use codex_workbench::slash_commands::ModelPreset;
use codex_workbench::slash_commands::ModelServiceTier;
use codex_workbench::slash_commands::normalize_service_tier_command_token;
use codex_workbench::slash_commands::service_tier_commands_for_model;
use codex_workbench::slash_commands::ServiceTierCommand;
use codex_workbench::slash_commands::SlashCommandAction;
use codex_workbench::workspace_command::WorkspaceCommand;
use codex_workbench::workspace_command::WorkspaceCommandOutput;

const SERVICE_TIER_PRIORITY: &str = "priority";

fn all_enabled_flags() -> BuiltinCommandFlags {
    BuiltinCommandFlags {
        collaboration_modes_enabled: true,
        connectors_enabled: true,
        plugins_command_enabled: true,
        fast_command_enabled: true,
        goal_command_enabled: true,
        personality_command_enabled: true,
        realtime_conversation_enabled: true,
        audio_device_selection_enabled: true,
        allow_elevate_sandbox: true,
        side_conversation_active: false,
    }
}

fn builtins() -> Vec<BuiltinCommand> {
    let named = |command: SlashCommand, name: &str, side: bool| BuiltinCommand {
        command,
        name: name.to_string(),
        aliases: if name == "stop" { vec!["clean".to_string()] } else { Vec::new() },
        description: format!("about {name}"),
        supports_inline_args: false,
        available_in_side_conversation: side,
        available_during_task: true,
    };
    vec![
        named(SlashCommand::Model, "model", false),
        named(SlashCommand::Other(0), "ide", true),
        named(SlashCommand::Review, "review", false),
        named(SlashCommand::Other(1), "copy", true),
        named(SlashCommand::Other(2), "diff", true),
        named(SlashCommand::Other(3), "mention", true),
        named(SlashCommand::Other(4), "status", true),
        named(SlashCommand::DebugConfig, "debug-config", false),
        named(SlashCommand::Goal, "goal", false),
        named(SlashCommand::Stop, "stop", false),
        named(SlashCommand::Clear, "clear", false),
        named(SlashCommand::Realtime, "realtime", false),
        named(SlashCommand::Settings, "settings", false),
    ]
}

/// The built-in command that is found.
fn found(name: &str, flags: BuiltinCommandFlags) -> Option<SlashCommand> {
    let builtins = builtins();
    find_command(name, &builtins, flags, &[])
        .and_then(|action| command_as_builtin(action, &builtins))
}

#[test]
fn debug_command_still_resolves_for_dispatch() {
    assert_eq!(
        found("debug-config", all_enabled_flags()),
        Some(SlashCommand::DebugConfig)
    );
}

#[test]
fn clear_command_resolves_for_dispatch() {
    assert_eq!(found("clear", all_enabled_flags()), Some(SlashCommand::Clear));
}

#[test]
fn stop_command_resolves_for_dispatch() {
    assert_eq!(found("stop", all_enabled_flags()), Some(SlashCommand::Stop));
}

#[test]
fn clean_command_alias_resolves_for_dispatch() {
    assert_eq!(found("clean", all_enabled_flags()), Some(SlashCommand::Stop));
}

fn fast_tier() -> ServiceTierCommand {
    ServiceTierCommand {
        service_tier: SERVICE_TIER_PRIORITY.to_string(),
        command: "fast".to_string(),
        name: "Fast".to_string(),
        description: "Fast tier".to_string(),
    }
}

#[test]
fn service_tier_command_is_hidden_when_disabled() {
    let service_tier_commands = vec![fast_tier()];
    let mut flags = all_enabled_flags();
    flags.fast_command_enabled = false;
    assert_eq!(
        find_command("fast", &builtins(), flags, &service_tier_commands),
        None
    );
}

#[test]
fn goal_command_is_hidden_when_disabled() {
    let mut flags = all_enabled_flags();
    flags.goal_command_enabled = false;
    assert_eq!(found("goal", flags), None);
}

#[test]
fn realtime_command_is_hidden_when_realtime_is_disabled() {
    let mut flags = all_enabled_flags();
    flags.realtime_conversation_enabled = false;
    assert_eq!(found("realtime", flags), None);
}

#[test]
fn settings_command_is_hidden_when_realtime_is_disabled() {
    let mut flags = all_enabled_flags();
    flags.realtime_conversation_enabled = false;
    flags.audio_device_selection_enabled = false;
    assert_eq!(found("settings", flags), None);
}

#[test]
fn settings_command_is_hidden_when_audio_device_selection_is_disabled() {
    let mut flags = all_enabled_flags();
    flags.audio_device_selection_enabled = false;
    assert_eq!(found("settings", flags), None);
}

#[test]
fn side_conversation_hides_commands_without_side_flag() {
    let builtins = builtins();
    let commands = commands_for_input(
        &builtins,
        BuiltinCommandFlags {
            side_conversation_active: true,
            ..all_enabled_flags()
        },
        &[],
    )
    .into_iter()
    .map(|command| command_name(command, &builtins, &[]).to_string())
    .collect::<Vec<_>>();

    assert_eq!(
        commands,
        vec![
            "ide".to_string(),
            "copy".to_string(),
            "diff".to_string(),
            "mention".to_string(),
            "status".to_string(),
        ]
    );
}

#[test]
fn side_conversation_exact_lookup_still_resolves_hidden_commands_for_dispatch_error() {
    assert_eq!(
        found(
            "review",
            BuiltinCommandFlags {
                side_conversation_active: true,
                ..all_enabled_flags()
            },
        ),
        Some(SlashCommand::Review)
    );
}

fn tier(id: &str, name: &str, description: &str) -> ModelServiceTier {
    ModelServiceTier {
        id: id.to_string(),
        name: name.to_string(),
        description: description.to_string(),
    }
}

#[test]
fn service_tier_command_uses_name_then_id_on_collision() {
    let tiers = vec![
        tier(SERVICE_TIER_PRIORITY, "Fast", "Fast tier"),
        tier("express", "Model", "Express tier"),
    ];

    let commands = service_tier_commands_for_model(&tiers, &builtins());

    let parts: Vec<[&str; 4]> = commands
        .iter()
        .map(|c| {
            [
                c.service_tier.as_str(),
                c.command.as_str(),
                c.name.as_str(),
                c.description.as_str(),
            ]
        })
        .collect();
    assert_eq!(
        parts,
        vec![
            [SERVICE_TIER_PRIORITY, "fast", "Fast", "Fast tier"],
            ["express", "express", "Model", "Express tier"],
        ]
    );
}

#[test]
fn tiers_follow_the_model_command() {
    let builtins = builtins();
    let actions = commands_for_input(&builtins, all_enabled_flags(), &[fast_tier()]);
    assert_eq!(actions[0], SlashCommandAction::Builtin(0));
    assert_eq!(actions[1], SlashCommandAction::ServiceTier(0));
    assert_eq!(actions[2], SlashCommandAction::Builtin(1));
    assert!(!command_available_during_task(actions[1], &builtins));
    let mut matched = vec![false; actions.len()];
    assert!(!has_command_prefix(&builtins, all_enabled_flags(), &[fast_tier()], &matched));
    matched[1] = true;
    assert!(has_command_prefix(&builtins, all_enabled_flags(), &[fast_tier()], &matched));
}

#[test]
fn tier_words_are_plain() {
    let word = |name: &str| normalize_service_tier_command_token(name);
    assert_eq!(word(" Very  Fast! "), Some("very-fast".to_string()));
    assert_eq!(word("A_1"), Some("a-1".to_string()));
    assert_eq!(word("--"), None);
    let taken = vec![tier("a", "Same", ""), tier("b", "same", ""), tier("b", "Same", "")];
    let commands = service_tier_commands_for_model(&taken, &builtins());
    assert_eq!(
        commands.iter().map(|c| c.command.as_str()).collect::<Vec<_>>(),
        vec!["same", "b"]
    );
}

#[test]
fn tiers_are_named_by_their_model() {
    let models = vec![ModelPreset {
        model: "m".to_string(),
        service_tiers: vec![tier(SERVICE_TIER_PRIORITY, "Fast", "")],
    }];
    let label = |model: &str, tier: Option<&str>| current_service_tier_status_label(&models, model, tier);
    assert_eq!(label("m", Some(SERVICE_TIER_PRIORITY)), "Tier Fast");
    assert_eq!(label("m", Some("flex")), "Tier flex");
    assert_eq!(label("n", Some(SERVICE_TIER_PRIORITY)), "Tier priority");
    assert_eq!(label("m", None), "Tier default");
    assert!(model_supports_service_tier(&models, "m", SERVICE_TIER_PRIORITY));
    assert!(!model_supports_service_tier(&models, "n", SERVICE_TIER_PRIORITY));
}

// ---- pets ----

const IDS: PetIds<'static> = PetIds {
    default_pet: "codex",
    disabled: "disabled",
};

fn picker(current: Option<&str>, installed: &[&str]) -> PetPickerParams {
    let details = |name: &str| {
        Some(PetDetails {
            display_name: name.to_string(),
            description: "bundled".to_string(),
        })
    };
    let installed: Vec<InstalledPet> = installed
        .iter()
        .map(|name| InstalledPet {
            selector: name.to_lowercase(),
            has_manifest: true,
            details: Some(PetDetails {
                display_name: name.to_string(),
                description: "custom pet".to_string(),
            }),
        })
        .collect();
    let entries = available_pet_entries(IDS, &details("Codex"), &details("Boba"), &installed);
    build_pet_picker_params(current, IDS, &entries)
}

#[test]
fn picker_lists_bundled_and_installed_pets() {
    let params = picker(Some("chefito"), &["Chefito"]);

    assert_eq!(
        params
            .items
            .iter()
            .map(|item| item.name.as_str())
            .collect::<Vec<_>>(),
        vec!["Boba", "Chefito", "Codex", "None"],
    );
    assert_eq!(params.initial_selected_idx, Some(1));
}

#[test]
fn picker_defaults_to_codex_when_no_pet_is_configured() {
    let params = picker(/*current_pet*/ None, &[]);

    assert_eq!(params.initial_selected_idx, Some(1));
    assert_eq!(params.items[1].name, "Codex");
    assert!(params.items[1].is_current);
}

#[test]
fn picker_marks_disabled_pet_as_current() {
    let params = picker(Some(IDS.disabled), &[]);

    assert_eq!(params.initial_selected_idx, Some(2));
    assert_eq!(params.items[2].name, "None");
    assert!(params.items[2].is_current);
    assert_eq!(params.items[2].action, PetAction::Disable);
    assert_eq!(params.items[0].action, PetAction::Select("boba".to_string()));
}

#[test]
fn directories_that_are_no_pets_are_left_out() {
    let pet = |selector: &str, has_manifest: bool| InstalledPet {
        selector: selector.to_string(),
        has_manifest,
        details: None,
    };
    let entries = available_pet_entries(
        IDS,
        &None,
        &None,
        &[pet("disabled", true), pet("plain", false), pet("broken", true)],
    );
    let names: Vec<&str> = entries.iter().map(|e| e.display_name.as_str()).collect();
    assert_eq!(names, vec!["codex", "boba", "None", "broken"]);
    assert_eq!(entries[3].description, None);
}

// ---- providers, tools and workspace commands ----

#[test]
fn capabilities_disable_unsupported_launch_features() {
    let provider = AmazonBedrockModelProvider::new(/*aws*/ None);

    assert_eq!(
        provider.capabilities(),
        ProviderCapabilities {
            namespace_tools: false,
            image_generation: false,
            web_search: false,
        }
    );
}

#[test]
fn bedrock_needs_no_other_account() {
    let provider = AmazonBedrockModelProvider::new(None);
    let state = provider.account_state();
    assert_eq!(state.account, Some(ProviderAccount::AmazonBedrock));
    assert!(!state.requires_openai_auth);
    assert!(provider.prewarms_auth_on_startup());
    assert_eq!(provider.aws.region, None);
    assert_eq!(provider.catalog_source(true), CatalogSource::Configured);
}

#[test]
fn patch_tools_describe_their_input() {
    let ToolSpec::Freeform(tool) = create_apply_patch_freeform_tool("start: x") else {
        panic!("a freeform tool");
    };
    assert_eq!(tool.name, "apply_patch");
    assert_eq!(tool.syntax, "lark");
    assert_eq!(tool.definition, "start: x");
    let ToolSpec::Function(tool) = create_apply_patch_json_tool() else {
        panic!("a function tool");
    };
    assert_eq!(tool.required, vec!["input".to_string()]);
    assert_eq!(tool.properties.len(), 1);
    assert!(tool.description.contains("NEVER ABSOLUTE"));
}

#[test]
fn several_environments_change_the_rules_on_paths() {
    let options = ApplyPatchToolOptions {
        has_multiple_environments: true,
    };
    let ToolSpec::Function(tool) = create_apply_patch_json_tool_with_options(options) else {
        panic!("a function tool");
    };
    assert!(!tool.description.contains("NEVER ABSOLUTE"));
    assert!(tool.description.contains(MULTI_ENV_PATH_RULE));
    assert_eq!(tool.properties[0].name, "environment_id");
    assert_eq!(tool.properties[1].name, "input");
    assert_eq!(ApplyPatchToolOptions::default().has_multiple_environments, false);
}

#[test]
fn workspace_commands_have_limits() {
    let params = WorkspaceCommand::new(vec!["git".to_string()]).exec_params();
    assert_eq!(params.timeout_ms, Some(5000));
    assert_eq!(params.output_bytes_cap, Some(64 * 1024));
    assert!(params.env.is_none());
    let mut command = WorkspaceCommand::new(vec!["git".to_string()]).cwd("/w".to_string());
    command.timeout_ms = u128::MAX;
    let params = command.exec_params();
    assert_eq!(params.timeout_ms, Some(i64::MAX));
    assert_eq!(params.cwd, Some("/w".to_string()));
}

#[test]
fn variables_are_set_once() {
    let set = |command: WorkspaceCommand, key: &str, value: &str| command.env(key.to_string(), value.to_string());
    let command = WorkspaceCommand::new(Vec::new());
    let command = set(set(set(command, "A", "1"), "B", "2"), "A", "3");
    let env = command.exec_params().env.expect("variables");
    let pairs: Vec<(&str, Option<&str>)> = env
        .iter()
        .map(|entry| (entry.key.as_str(), entry.value.as_deref()))
        .collect();
    assert_eq!(pairs, vec![("A", Some("3")), ("B", Some("2"))]);
    let output = WorkspaceCommandOutput {
        exit_code: 0,
        stdout: String::new(),
        stderr: String::new(),
    };
    assert!(output.success());
}

#[test]
fn commands_say_what_they_are() {
    let builtins = builtins();
    let tiers = [fast_tier()];
    let model = SlashCommandAction::Builtin(0);
    let fast = SlashCommandAction::ServiceTier(0);
    assert_eq!(command_description(model, &builtins, &tiers), "about model");
    assert_eq!(command_description(fast, &builtins, &tiers), fast_tier().description);
    assert!(!command_supports_inline_args(model, &builtins));
    assert!(command_supports_inline_args(fast, &builtins));
    assert!(command_available_in_side_conversation(SlashCommandAction::Builtin(1), &builtins));
    assert!(!command_available_in_side_conversation(fast, &builtins));
}

#[test]
fn gated_commands_are_not_offered() {
    let builtins = builtins();
    let offered = |flags: BuiltinCommandFlags| -> Vec<String> {
        builtins_for_input(&builtins, flags)
            .iter()
            .map(|&i| builtins[i].name.clone())
            .collect()
    };
    assert!(offered(all_enabled_flags()).contains(&"goal".to_string()));
    let without_goals = BuiltinCommandFlags {
        goal_command_enabled: false,
        ..all_enabled_flags()
    };
    assert!(!offered(without_goals).contains(&"goal".to_string()));
    let on_the_side = BuiltinCommandFlags {
        side_conversation_active: true,
        ..all_enabled_flags()
    };
    assert_eq!(offered(on_the_side), ["ide", "copy", "diff", "mention", "status"]);
}

#[test]
fn commands_hang_on_their_features() {
    assert_eq!(gate_of(SlashCommand::Collab), CommandGate::CollaborationModes);
    assert_eq!(gate_of(SlashCommand::Plan), CommandGate::CollaborationModes);
    assert_eq!(gate_of(SlashCommand::Apps), CommandGate::Connectors);
    assert_eq!(gate_of(SlashCommand::Settings), CommandGate::AudioDevices);
    assert_eq!(gate_of(SlashCommand::ElevateSandbox), CommandGate::ElevateSandbox);
    assert_eq!(gate_of(SlashCommand::Plugins), CommandGate::Plugins);
    assert_eq!(gate_of(SlashCommand::Personality), CommandGate::Personality);
    assert_eq!(gate_of(SlashCommand::Model), CommandGate::Always);
    assert_eq!(command_as_builtin(SlashCommandAction::ServiceTier(0), &builtins()), None);
}
