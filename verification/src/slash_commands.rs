//! Slash commands: which of them can be used, how they are found by name, and the commands
//! that a model's service tiers bring.

use vstd::prelude::*;

use crate::text;

verus! {

// ---- commands ----

/// What a built-in command depends on.
#[derive(Clone, Copy, Debug, PartialEq, Eq, Structural)]
pub enum CommandGate {
    Always,
    ElevateSandbox,
    CollaborationModes,
    Connectors,
    Plugins,
    Goal,
    Personality,
    Realtime,
    AudioDevices,
}

/// Which built-in command it is. Those that no rule here names are told apart by a number.
#[derive(Clone, Copy, Debug, PartialEq, Eq, Structural)]
pub enum SlashCommand {
    Model,
    ElevateSandbox,
    Collab,
    Plan,
    Apps,
    Plugins,
    Goal,
    Personality,
    Realtime,
    Settings,
    DebugConfig,
    Clear,
    Stop,
    Review,
    Other(u32),
}

/// What a built-in command depends on.
pub open spec fn gate_for(c: SlashCommand) -> CommandGate {
    match c {
        SlashCommand::ElevateSandbox => CommandGate::ElevateSandbox,
        SlashCommand::Collab => CommandGate::CollaborationModes,
        SlashCommand::Plan => CommandGate::CollaborationModes,
        SlashCommand::Apps => CommandGate::Connectors,
        SlashCommand::Plugins => CommandGate::Plugins,
        SlashCommand::Goal => CommandGate::Goal,
        SlashCommand::Personality => CommandGate::Personality,
        SlashCommand::Realtime => CommandGate::Realtime,
        SlashCommand::Settings => CommandGate::AudioDevices,
        _ => CommandGate::Always,
    }
}

/// What a built-in command depends on.
pub fn gate_of(c: SlashCommand) -> (r: CommandGate)
    ensures
        r == gate_for(c),
{
    match c {
        SlashCommand::ElevateSandbox => CommandGate::ElevateSandbox,
        SlashCommand::Collab => CommandGate::CollaborationModes,
        SlashCommand::Plan => CommandGate::CollaborationModes,
        SlashCommand::Apps => CommandGate::Connectors,
        SlashCommand::Plugins => CommandGate::Plugins,
        SlashCommand::Goal => CommandGate::Goal,
        SlashCommand::Personality => CommandGate::Personality,
        SlashCommand::Realtime => CommandGate::Realtime,
        SlashCommand::Settings => CommandGate::AudioDevices,
        _ => CommandGate::Always,
    }
}

/// A built-in command.
#[derive(Debug)]
pub struct BuiltinCommand {
    pub command: SlashCommand,
    /// The name that it is shown with.
    pub name: String,
    /// Other names that it is found by.
    pub aliases: Vec<String>,
    pub description: String,
    pub supports_inline_args: bool,
    pub available_in_side_conversation: bool,
    pub available_during_task: bool,
}

/// What is switched on.
#[derive(Clone, Copy, Debug, PartialEq, Eq, Structural)]
pub struct BuiltinCommandFlags {
    pub collaboration_modes_enabled: bool,
    pub connectors_enabled: bool,
    pub plugins_command_enabled: bool,
    pub fast_command_enabled: bool,
    pub goal_command_enabled: bool,
    pub personality_command_enabled: bool,
    pub realtime_conversation_enabled: bool,
    pub audio_device_selection_enabled: bool,
    pub allow_elevate_sandbox: bool,
    pub side_conversation_active: bool,
}

/// The command of a service tier.
#[derive(Debug)]
pub struct ServiceTierCommand {
    pub service_tier: String,
    pub command: String,
    pub name: String,
    pub description: String,
}

/// A command by its position: among the built-in ones, or among those of service tiers.
#[derive(Clone, Copy, Debug, PartialEq, Eq, Structural)]
pub enum SlashCommandAction {
    Builtin(usize),
    ServiceTier(usize),
}

/// Whether what a command depends on is switched on.
pub open spec fn gate_open(gate: CommandGate, flags: BuiltinCommandFlags) -> bool {
    match gate {
        CommandGate::Always => true,
        CommandGate::ElevateSandbox => flags.allow_elevate_sandbox,
        CommandGate::CollaborationModes => flags.collaboration_modes_enabled,
        CommandGate::Connectors => flags.connectors_enabled,
        CommandGate::Plugins => flags.plugins_command_enabled,
        CommandGate::Goal => flags.goal_command_enabled,
        CommandGate::Personality => flags.personality_command_enabled,
        CommandGate::Realtime => flags.realtime_conversation_enabled,
        CommandGate::AudioDevices => flags.audio_device_selection_enabled,
    }
}

/// Whether a built-in command is offered.
pub open spec fn is_offered(c: BuiltinCommand, flags: BuiltinCommandFlags) -> bool {
    gate_open(gate_for(c.command), flags) && (!flags.side_conversation_active
        || c.available_in_side_conversation)
}

/// Whether the commands of service tiers are offered.
pub open spec fn tiers_offered(flags: BuiltinCommandFlags) -> bool {
    flags.fast_command_enabled && !flags.side_conversation_active
}

fn is_gate_open(gate: CommandGate, flags: BuiltinCommandFlags) -> (r: bool)
    ensures
        r == gate_open(gate, flags),
{
    match gate {
        CommandGate::Always => true,
        CommandGate::ElevateSandbox => flags.allow_elevate_sandbox,
        CommandGate::CollaborationModes => flags.collaboration_modes_enabled,
        CommandGate::Connectors => flags.connectors_enabled,
        CommandGate::Plugins => flags.plugins_command_enabled,
        CommandGate::Goal => flags.goal_command_enabled,
        CommandGate::Personality => flags.personality_command_enabled,
        CommandGate::Realtime => flags.realtime_conversation_enabled,
        CommandGate::AudioDevices => flags.audio_device_selection_enabled,
    }
}

fn offers(c: &BuiltinCommand, flags: BuiltinCommandFlags) -> (r: bool)
    ensures
        r == is_offered(*c, flags),
{
    is_gate_open(gate_of(c.command), flags) && (!flags.side_conversation_active
        || c.available_in_side_conversation)
}

/// The positions of the offered ones among the first `n` built-in commands.
pub open spec fn offered_builtins(
    builtins: Seq<BuiltinCommand>,
    flags: BuiltinCommandFlags,
    n: int,
) -> Seq<usize>
    decreases n,
{
    if n <= 0 {
        Seq::empty()
    } else if is_offered(builtins[n - 1], flags) {
        offered_builtins(builtins, flags, n - 1).push((n - 1) as usize)
    } else {
        offered_builtins(builtins, flags, n - 1)
    }
}

/// The positions of the built-in commands that are offered.
pub fn builtins_for_input(builtins: &[BuiltinCommand], flags: BuiltinCommandFlags) -> (r: Vec<
    usize,
>)
    ensures
        r@ == offered_builtins(builtins@, flags, builtins@.len() as int),
{
    let mut r: Vec<usize> = Vec::new();
    let mut i: usize = 0;
    while i < builtins.len()
        invariant
            i <= builtins.len(),
            r@ == offered_builtins(builtins@, flags, i as int),
        decreases builtins.len() - i,
    {
        if offers(&builtins[i], flags) {
            r.push(i);
        }
        i = i + 1;
    }
    r
}

/// The commands of the first `n` service tiers.
pub open spec fn tier_actions(n: int) -> Seq<SlashCommandAction> {
    Seq::new(n as nat, |i: int| SlashCommandAction::ServiceTier(i as usize))
}

/// The offered commands among the first `n` built-in ones; those of service tiers follow the
/// command that chooses a model.
pub open spec fn offered_actions(
    builtins: Seq<BuiltinCommand>,
    flags: BuiltinCommandFlags,
    tiers: int,
    n: int,
) -> Seq<SlashCommandAction>
    decreases n,
{
    if n <= 0 {
        Seq::empty()
    } else {
        let before = offered_actions(builtins, flags, tiers, n - 1);
        if !is_offered(builtins[n - 1], flags) {
            before
        } else {
            before.push(SlashCommandAction::Builtin((n - 1) as usize)) + (
            if builtins[n - 1].command == SlashCommand::Model && tiers_offered(flags) {
                tier_actions(tiers)
            } else {
                Seq::empty()
            })
        }
    }
}

/// The commands that are offered, in order.
pub fn commands_for_input(
    builtins: &[BuiltinCommand],
    flags: BuiltinCommandFlags,
    service_tier_commands: &[ServiceTierCommand],
) -> (r: Vec<SlashCommandAction>)
    ensures
        r@ == offered_actions(
            builtins@,
            flags,
            service_tier_commands@.len() as int,
            builtins@.len() as int,
        ),
{
    let tiers = service_tier_commands.len();
    let with_tiers = flags.fast_command_enabled && !flags.side_conversation_active;
    let mut r: Vec<SlashCommandAction> = Vec::new();
    let mut i: usize = 0;
    while i < builtins.len()
        invariant
            i <= builtins.len(),
            with_tiers == tiers_offered(flags),
            tiers == service_tier_commands@.len(),
            r@ == offered_actions(builtins@, flags, tiers as int, i as int),
        decreases builtins.len() - i,
    {
        if offers(&builtins[i], flags) {
            r.push(SlashCommandAction::Builtin(i));
            let ghost before = r@;
            if builtins[i].command == SlashCommand::Model && with_tiers {
                let mut k: usize = 0;
                assert(before + tier_actions(0) =~= before);
                while k < tiers
                    invariant
                        k <= tiers,
                        r@ == before + tier_actions(k as int),
                    decreases tiers - k,
                {
                    r.push(SlashCommandAction::ServiceTier(k));
                    assert(before + tier_actions(k + 1) =~= (before + tier_actions(
                        k as int,
                    )).push(SlashCommandAction::ServiceTier(k)));
                    k = k + 1;
                }
            } else {
                assert(before + Seq::<SlashCommandAction>::empty() =~= before);
            }
        }
        i = i + 1;
    }
    r
}

// ---- finding commands ----

/// Whether a built-in command is found by a name.
pub open spec fn is_called(c: BuiltinCommand, name: Seq<char>) -> bool {
    c.name@ == name || exists|i: int|
        0 <= i < c.aliases@.len() && (#[trigger] c.aliases@[i])@ == name
}

/// The first built-in command from `i` on that is found by a name, or their number.
pub open spec fn builtin_called(builtins: Seq<BuiltinCommand>, name: Seq<char>, i: int) -> int
    decreases builtins.len() - i,
{
    if i < 0 || i >= builtins.len() {
        builtins.len() as int
    } else if is_called(builtins[i], name) {
        i
    } else {
        builtin_called(builtins, name, i + 1)
    }
}

/// The first command of a service tier from `i` on with a name, or their number.
pub open spec fn tier_called(tiers: Seq<ServiceTierCommand>, name: Seq<char>, i: int) -> int
    decreases tiers.len() - i,
{
    if i < 0 || i >= tiers.len() {
        tiers.len() as int
    } else if tiers[i].command@ == name {
        i
    } else {
        tier_called(tiers, name, i + 1)
    }
}

/// The command with a name, where what it depends on is switched on.
pub open spec fn command_called(
    builtins: Seq<BuiltinCommand>,
    tiers: Seq<ServiceTierCommand>,
    flags: BuiltinCommandFlags,
    name: Seq<char>,
) -> Option<SlashCommandAction> {
    let b = builtin_called(builtins, name, 0);
    let t = tier_called(tiers, name, 0);
    if b < builtins.len() && gate_open(gate_for(builtins[b].command), flags) {
        Some(SlashCommandAction::Builtin(b as usize))
    } else if flags.fast_command_enabled && t < tiers.len() {
        Some(SlashCommandAction::ServiceTier(t as usize))
    } else {
        None
    }
}

fn answers_to(c: &BuiltinCommand, name: &str) -> (r: bool)
    ensures
        r == is_called(*c, name@),
{
    if text::same_str(c.name.as_str(), name) {
        return true;
    }
    let mut i: usize = 0;
    while i < c.aliases.len()
        invariant
            i <= c.aliases.len(),
            forall|j: int| 0 <= j < i ==> (#[trigger] c.aliases@[j])@ != name@,
        decreases c.aliases.len() - i,
    {
        if text::same_str(c.aliases[i].as_str(), name) {
            return true;
        }
        i = i + 1;
    }
    false
}

fn find_builtin(builtins: &[BuiltinCommand], name: &str) -> (r: Option<usize>)
    ensures
        match r {
            Some(i) => i == builtin_called(builtins@, name@, 0) && i < builtins@.len(),
            None => builtin_called(builtins@, name@, 0) == builtins@.len(),
        },
{
    let mut i: usize = 0;
    while i < builtins.len()
        invariant
            i <= builtins.len(),
            builtin_called(builtins@, name@, 0) == builtin_called(builtins@, name@, i as int),
        decreases builtins.len() - i,
    {
        if answers_to(&builtins[i], name) {
            return Some(i);
        }
        i = i + 1;
    }
    None
}

/// The command with a name, where what it depends on is switched on. That a side conversation
/// is going on does not matter here: its command is found, and refused later.
pub fn find_command(
    name: &str,
    builtins: &[BuiltinCommand],
    flags: BuiltinCommandFlags,
    service_tier_commands: &[ServiceTierCommand],
) -> (r: Option<SlashCommandAction>)
    ensures
        r == command_called(builtins@, service_tier_commands@, flags, name@),
{
    if let Some(i) = find_builtin(builtins, name) {
        if is_gate_open(gate_of(builtins[i].command), flags) {
            return Some(SlashCommandAction::Builtin(i));
        }
    }
    if !flags.fast_command_enabled {
        return None;
    }
    let mut i: usize = 0;
    while i < service_tier_commands.len()
        invariant
            i <= service_tier_commands.len(),
            flags.fast_command_enabled,
            builtin_called(builtins@, name@, 0) == builtins@.len() || !gate_open(
                gate_for(builtins@[builtin_called(builtins@, name@, 0)].command),
                flags,
            ),
            tier_called(service_tier_commands@, name@, 0) == tier_called(
                service_tier_commands@,
                name@,
                i as int,
            ),
        decreases service_tier_commands.len() - i,
    {
        if text::same_str(service_tier_commands[i].command.as_str(), name) {
            return Some(SlashCommandAction::ServiceTier(i));
        }
        i = i + 1;
    }
    None
}

/// Whether some offered command matches what was typed. `matched` says of each offered command
/// whether it does.
pub fn has_command_prefix(
    builtins: &[BuiltinCommand],
    flags: BuiltinCommandFlags,
    service_tier_commands: &[ServiceTierCommand],
    matched: &[bool],
) -> (r: bool)
    requires
        matched@.len() == offered_actions(
            builtins@,
            flags,
            service_tier_commands@.len() as int,
            builtins@.len() as int,
        ).len(),
    ensures
        r == exists|i: int| 0 <= i < matched@.len() && #[trigger] matched@[i],
{
    let offered = commands_for_input(builtins, flags, service_tier_commands);
    let mut i: usize = 0;
    while i < offered.len()
        invariant
            i <= offered.len(),
            offered.len() == matched@.len(),
            forall|j: int| 0 <= j < i ==> !#[trigger] matched@[j],
        decreases offered.len() - i,
    {
        if matched[i] {
            return true;
        }
        i = i + 1;
    }
    false
}

proof fn lemma_builtin_called(builtins: Seq<BuiltinCommand>, name: Seq<char>, from: int, i: int)
    requires
        0 <= from <= i < builtins.len(),
        is_called(builtins[i], name),
        forall|j: int| from <= j < i ==> !is_called(#[trigger] builtins[j], name),
    ensures
        builtin_called(builtins, name, from) == i,
    decreases i - from,
{
    if from < i {
        lemma_builtin_called(builtins, name, from + 1, i);
    }
}

/// What is offered is found by its name, unless an earlier command has that name; and whether
/// a side conversation is going on does not change what is found.
pub proof fn offered_commands_are_found(
    builtins: Seq<BuiltinCommand>,
    tiers: Seq<ServiceTierCommand>,
    flags: BuiltinCommandFlags,
    i: int,
)
    requires
        0 <= i < builtins.len() <= usize::MAX,
        is_offered(builtins[i], flags),
        forall|j: int| 0 <= j < i ==> !is_called(#[trigger] builtins[j], builtins[i].name@),
    ensures
        command_called(builtins, tiers, flags, builtins[i].name@) == Some(
            SlashCommandAction::Builtin(i as usize),
        ),
        command_called(
            builtins,
            tiers,
            (BuiltinCommandFlags {
                side_conversation_active: !flags.side_conversation_active,
                ..flags
            }),
            builtins[i].name@,
        ) == Some(SlashCommandAction::Builtin(i as usize)),
{
    lemma_builtin_called(builtins, builtins[i].name@, 0, i);
}

/// How a command is called. The commands of service tiers take arguments, and can be used
/// neither while a task runs nor in a side conversation; built-in ones answer for themselves.
pub fn command_name<'a>(
    action: SlashCommandAction,
    builtins: &'a [BuiltinCommand],
    tiers: &'a [ServiceTierCommand],
) -> (r: &'a str)
    requires
        match action {
            SlashCommandAction::Builtin(i) => i < builtins@.len(),
            SlashCommandAction::ServiceTier(i) => i < tiers@.len(),
        },
    ensures
        r@ == match action {
            SlashCommandAction::Builtin(i) => builtins@[i as int].name@,
            SlashCommandAction::ServiceTier(i) => tiers@[i as int].command@,
        },
{
    match action {
        SlashCommandAction::Builtin(i) => builtins[i].name.as_str(),
        SlashCommandAction::ServiceTier(i) => tiers[i].command.as_str(),
    }
}

/// Which built-in command an action is; nothing for those of service tiers.
pub fn command_as_builtin(action: SlashCommandAction, builtins: &[BuiltinCommand]) -> (r: Option<
    SlashCommand,
>)
    requires
        action matches SlashCommandAction::Builtin(i) ==> i < builtins@.len(),
    ensures
        r == match action {
            SlashCommandAction::Builtin(i) => Some(builtins@[i as int].command),
            SlashCommandAction::ServiceTier(_) => None,
        },
{
    match action {
        SlashCommandAction::Builtin(i) => Some(builtins[i].command),
        SlashCommandAction::ServiceTier(_) => None,
    }
}

/// How a command is described.
pub fn command_description<'a>(
    action: SlashCommandAction,
    builtins: &'a [BuiltinCommand],
    tiers: &'a [ServiceTierCommand],
) -> (r: &'a str)
    requires
        match action {
            SlashCommandAction::Builtin(i) => i < builtins@.len(),
            SlashCommandAction::ServiceTier(i) => i < tiers@.len(),
        },
    ensures
        r@ == match action {
            SlashCommandAction::Builtin(i) => builtins@[i as int].description@,
            SlashCommandAction::ServiceTier(i) => tiers@[i as int].description@,
        },
{
    match action {
        SlashCommandAction::Builtin(i) => builtins[i].description.as_str(),
        SlashCommandAction::ServiceTier(i) => tiers[i].description.as_str(),
    }
}

/// Whether a command takes arguments.
pub fn command_supports_inline_args(action: SlashCommandAction, builtins: &[BuiltinCommand]) -> (r:
    bool)
    requires
        action matches SlashCommandAction::Builtin(i) ==> i < builtins@.len(),
    ensures
        r == match action {
            SlashCommandAction::Builtin(i) => builtins@[i as int].supports_inline_args,
            SlashCommandAction::ServiceTier(_) => true,
        },
{
    match action {
        SlashCommandAction::Builtin(i) => builtins[i].supports_inline_args,
        SlashCommandAction::ServiceTier(_) => true,
    }
}

/// Whether a command can be used in a side conversation.
pub fn command_available_in_side_conversation(
    action: SlashCommandAction,
    builtins: &[BuiltinCommand],
) -> (r: bool)
    requires
        action matches SlashCommandAction::Builtin(i) ==> i < builtins@.len(),
    ensures
        r == match action {
            SlashCommandAction::Builtin(i) => builtins@[i as int].available_in_side_conversation,
            SlashCommandAction::ServiceTier(_) => false,
        },
{
    match action {
        SlashCommandAction::Builtin(i) => builtins[i].available_in_side_conversation,
        SlashCommandAction::ServiceTier(_) => false,
    }
}

/// Whether a command can be used while a task runs.
pub fn command_available_during_task(action: SlashCommandAction, builtins: &[BuiltinCommand])
    -> (r: bool)
    requires
        action matches SlashCommandAction::Builtin(i) ==> i < builtins@.len(),
    ensures
        r == match action {
            SlashCommandAction::Builtin(i) => builtins@[i as int].available_during_task,
            SlashCommandAction::ServiceTier(_) => false,
        },
{
    match action {
        SlashCommandAction::Builtin(i) => builtins[i].available_during_task,
        SlashCommandAction::ServiceTier(_) => false,
    }
}

// ---- commands of service tiers ----

/// A service tier of a model.
#[derive(Debug)]
pub struct ModelServiceTier {
    pub id: String,
    pub name: String,
    pub description: String,
}

/// The command word of the first `n` characters of a name: its letters and digits in lower
/// case, each run of others between them as one dash.
pub open spec fn command_word(name: Seq<char>, n: int) -> Seq<char>
    decreases n,
{
    if n <= 0 {
        Seq::empty()
    } else {
        let before = command_word(name, n - 1);
        let c = name[n - 1];
        if !text::is_ascii_alphanumeric(c) {
            before
        } else if before.len() > 0 && n >= 2 && !text::is_ascii_alphanumeric(name[n - 2]) {
            before.push('-').push(text::ascii_lower_char(c))
        } else {
            before.push(text::ascii_lower_char(c))
        }
    }
}

/// The command word of a name, where it has one.
pub fn normalize_service_tier_command_token(name: &str) -> (r: Option<String>)
    ensures
        ({
            let word = command_word(name@, name@.len() as int);
            text::option_view(r) == if word.len() == 0 {
                None
            } else {
                Some(word)
            }
        }),
{
    let chars = text::chars_of(name);
    let mut word = String::new();
    let mut is_empty = true;
    let mut pending_dash = false;
    let mut i: usize = 0;
    assert(word@ =~= command_word(name@, 0));
    while i < chars.len()
        invariant
            i <= chars.len(),
            chars@ == name@,
            word@ == command_word(name@, i as int),
            is_empty == (word@.len() == 0),
            pending_dash == (word@.len() > 0 && i > 0 && !text::is_ascii_alphanumeric(
                name@[i - 1],
            )),
        decreases chars.len() - i,
    {
        let c: char = chars[i];
        let alphanumeric = ('0' <= c && c <= '9') || ('a' <= c && c <= 'z') || ('A' <= c && c
            <= 'Z');
        if alphanumeric {
            if pending_dash {
                word.push('-');
            }
            word.push(text::lower_char(c));
            is_empty = false;
            pending_dash = false;
        } else if !is_empty {
            pending_dash = true;
        }
        i = i + 1;
    }
    if is_empty {
        None
    } else {
        Some(word)
    }
}

/// Whether a character can stand in a command word besides a dash.
pub open spec fn is_word_char(c: char) -> bool {
    ('a' <= c && c <= 'z') || ('0' <= c && c <= '9')
}

/// A command word is made of small letters and digits, with single dashes between them.
pub proof fn command_words_are_plain(name: Seq<char>, n: int)
    requires
        0 <= n <= name.len(),
    ensures
        ({
            let word = command_word(name, n);
            &&& forall|i: int|
                0 <= i < word.len() ==> is_word_char(#[trigger] word[i]) || word[i] == '-'
            &&& word.len() > 0 ==> is_word_char(word[0]) && is_word_char(word.last())
            &&& forall|i: int|
                0 <= i < word.len() - 1 && #[trigger] word[i] == '-' ==> word[i + 1] != '-'
        }),
    decreases n,
{
    if n > 0 {
        command_words_are_plain(name, n - 1);
        assert(text::is_ascii_alphanumeric(name[n - 1]) ==> is_word_char(
            text::ascii_lower_char(name[n - 1]),
        ));
    }
}

/// Whether a word cannot be the command of another tier: it is empty, taken, or built in.
pub open spec fn is_taken(
    word: Seq<char>,
    taken: Seq<Seq<char>>,
    builtins: Seq<BuiltinCommand>,
) -> bool {
    word.len() == 0 || taken.contains(word) || builtin_called(builtins, word, 0) < builtins.len()
}

/// The command of a tier: its name as a word, or else its identifier, where that is free.
pub open spec fn tier_word(
    tier: ModelServiceTier,
    taken: Seq<Seq<char>>,
    builtins: Seq<BuiltinCommand>,
) -> Option<Seq<char>> {
    let word = command_word(tier.name@, tier.name@.len() as int);
    if !is_taken(word, taken, builtins) {
        Some(word)
    } else if !is_taken(tier.id@, taken, builtins) {
        Some(tier.id@)
    } else {
        None
    }
}

/// The commands of the first `n` tiers.
pub open spec fn tier_words(tiers: Seq<ModelServiceTier>, builtins: Seq<BuiltinCommand>, n: int)
    -> Seq<(int, Seq<char>)>
    decreases n,
{
    if n <= 0 {
        Seq::empty()
    } else {
        let before = tier_words(tiers, builtins, n - 1);
        match tier_word(tiers[n - 1], before.map_values(|p: (int, Seq<char>)| p.1), builtins) {
            Some(word) => before.push((n - 1, word)),
            None => before,
        }
    }
}

/// Whether a command is that of a tier with a word.
pub open spec fn is_tier_command(
    c: ServiceTierCommand,
    tier: ModelServiceTier,
    word: Seq<char>,
) -> bool {
    &&& c.service_tier@ == tier.id@
    &&& c.command@ == word
    &&& c.name@ == tier.name@
    &&& c.description@ == tier.description@
}

fn holds_word(words: &Vec<String>, word: &str) -> (r: bool)
    ensures
        r == text::string_views(words@).contains(word@),
{
    let ghost v = text::string_views(words@);
    let mut i: usize = 0;
    while i < words.len()
        invariant
            i <= words.len(),
            v == text::string_views(words@),
            forall|j: int| 0 <= j < i ==> #[trigger] v[j] != word@,
        decreases words.len() - i,
    {
        assert(v[i as int] == words@[i as int]@);
        if text::same_str(words[i].as_str(), word) {
            return true;
        }
        i = i + 1;
    }
    false
}

fn command_token_conflicts(word: &str, taken: &Vec<String>, builtins: &[BuiltinCommand]) -> (r:
    bool)
    ensures
        r == is_taken(word@, text::string_views(taken@), builtins@),
{
    text::chars_of(word).len() == 0 || holds_word(taken, word) || find_builtin(
        builtins,
        word,
    ).is_some()
}

/// The commands of a model's service tiers. A tier without a free word has none.
pub fn service_tier_commands_for_model(
    service_tiers: &[ModelServiceTier],
    builtins: &[BuiltinCommand],
) -> (r: Vec<ServiceTierCommand>)
    ensures
        ({
            let words = tier_words(service_tiers@, builtins@, service_tiers@.len() as int);
            &&& r@.len() == words.len()
            &&& forall|i: int|
                0 <= i < r@.len() ==> is_tier_command(
                    #[trigger] r@[i],
                    service_tiers@[words[i].0],
                    words[i].1,
                )
        }),
{
    let mut taken: Vec<String> = Vec::new();
    let mut r: Vec<ServiceTierCommand> = Vec::new();
    let mut i: usize = 0;
    proof {
        let none = tier_words(service_tiers@, builtins@, 0);
        assert(text::string_views(taken@) =~= none.map_values(|p: (int, Seq<char>)| p.1));
    }
    while i < service_tiers.len()
        invariant
            i <= service_tiers.len(),
            ({
                let words = tier_words(service_tiers@, builtins@, i as int);
                &&& r@.len() == words.len()
                &&& text::string_views(taken@) == words.map_values(|p: (int, Seq<char>)| p.1)
                &&& forall|j: int|
                    0 <= j < r@.len() ==> is_tier_command(
                        #[trigger] r@[j],
                        service_tiers@[words[j].0],
                        words[j].1,
                    )
            }),
        decreases service_tiers.len() - i,
    {
        let tier = &service_tiers[i];
        let ghost words = tier_words(service_tiers@, builtins@, i as int);
        let ghost taken_before = taken@;
        let word = normalize_service_tier_command_token(tier.name.as_str());
        let by_name = match word {
            Some(w) => if command_token_conflicts(w.as_str(), &taken, builtins) {
                None
            } else {
                Some(w)
            },
            None => None,
        };
        let found = match by_name {
            Some(w) => Some(w),
            None => if command_token_conflicts(tier.id.as_str(), &taken, builtins) {
                None
            } else {
                Some(tier.id.clone())
            },
        };
        assert(text::option_view(found) == tier_word(
            service_tiers@[i as int],
            text::string_views(taken@),
            builtins@,
        ));
        if let Some(command) = found {
            taken.push(command.clone());
            let entry = ServiceTierCommand {
                service_tier: tier.id.clone(),
                command,
                name: tier.name.clone(),
                description: tier.description.clone(),
            };
            r.push(entry);
            proof {
                let more = words.push((i as int, entry.command@));
                assert(tier_words(service_tiers@, builtins@, i + 1) == more);
                assert(text::string_views(taken@) =~= text::string_views(taken_before).push(
                    entry.command@,
                ));
                assert(more.map_values(|p: (int, Seq<char>)| p.1) =~= words.map_values(
                    |p: (int, Seq<char>)| p.1,
                ).push(entry.command@));
            }
        }
        i = i + 1;
    }
    r
}

/// No two tiers have the same command, and none has that of a built-in one.
pub proof fn tier_commands_are_unique(
    tiers: Seq<ModelServiceTier>,
    builtins: Seq<BuiltinCommand>,
    n: int,
)
    requires
        0 <= n <= tiers.len(),
    ensures
        ({
            let words = tier_words(tiers, builtins, n);
            &&& forall|i: int, j: int|
                0 <= i < j < words.len() ==> (#[trigger] words[i]).1 != (#[trigger] words[j]).1
            &&& forall|i: int|
                0 <= i < words.len() ==> builtin_called(
                    builtins,
                    (#[trigger] words[i]).1,
                    0,
                ) >= builtins.len() && words[i].1.len() > 0
        }),
    decreases n,
{
    if n > 0 {
        tier_commands_are_unique(tiers, builtins, n - 1);
        let before = tier_words(tiers, builtins, n - 1);
        let taken = before.map_values(|p: (int, Seq<char>)| p.1);
        let words = tier_words(tiers, builtins, n);
        if words.len() > before.len() {
            let word = words.last().1;
            assert(words =~= before.push((n - 1, word)));
            assert forall|i: int| 0 <= i < before.len() implies (#[trigger] before[i]).1
                != word by {
                assert(taken[i] == before[i].1);
            }
        }
    }
}

// ---- tiers of the current model ----

/// A model that can be chosen.
#[derive(Debug)]
pub struct ModelPreset {
    pub model: String,
    pub service_tiers: Vec<ModelServiceTier>,
}

/// The first model from `i` on with a name, or their number.
pub open spec fn model_called(models: Seq<ModelPreset>, model: Seq<char>, i: int) -> int
    decreases models.len() - i,
{
    if i < 0 || i >= models.len() {
        models.len() as int
    } else if models[i].model@ == model {
        i
    } else {
        model_called(models, model, i + 1)
    }
}

/// The first tier from `i` on with an identifier, or their number.
pub open spec fn tier_with_id(tiers: Seq<ModelServiceTier>, id: Seq<char>, i: int) -> int
    decreases tiers.len() - i,
{
    if i < 0 || i >= tiers.len() {
        tiers.len() as int
    } else if tiers[i].id@ == id {
        i
    } else {
        tier_with_id(tiers, id, i + 1)
    }
}

/// How a model calls a tier; what the model does not know is called by its identifier.
pub open spec fn tier_name(models: Seq<ModelPreset>, model: Seq<char>, tier: Seq<char>) -> Seq<
    char,
> {
    let m = model_called(models, model, 0);
    if m < models.len() {
        let tiers = models[m].service_tiers@;
        let t = tier_with_id(tiers, tier, 0);
        if t < tiers.len() {
            tiers[t].name@
        } else {
            tier
        }
    } else {
        tier
    }
}

/// The model with a name.
pub fn model_preset<'a>(models: &'a [ModelPreset], model: &str) -> (r: Option<&'a ModelPreset>)
    ensures
        match r {
            Some(p) => model_called(models@, model@, 0) < models@.len() && *p
                == models@[model_called(models@, model@, 0)],
            None => model_called(models@, model@, 0) == models@.len(),
        },
{
    let mut i: usize = 0;
    while i < models.len()
        invariant
            i <= models.len(),
            model_called(models@, model@, 0) == model_called(models@, model@, i as int),
        decreases models.len() - i,
    {
        if text::same_str(models[i].model.as_str(), model) {
            return Some(&models[i]);
        }
        i = i + 1;
    }
    None
}

fn find_tier(tiers: &Vec<ModelServiceTier>, id: &str) -> (r: Option<usize>)
    ensures
        match r {
            Some(i) => i == tier_with_id(tiers@, id@, 0) && i < tiers@.len(),
            None => tier_with_id(tiers@, id@, 0) == tiers@.len(),
        },
{
    let mut i: usize = 0;
    while i < tiers.len()
        invariant
            i <= tiers.len(),
            tier_with_id(tiers@, id@, 0) == tier_with_id(tiers@, id@, i as int),
        decreases tiers.len() - i,
    {
        if text::same_str(tiers[i].id.as_str(), id) {
            return Some(i);
        }
        i = i + 1;
    }
    None
}

/// How a model calls a tier.
pub fn service_tier_display_name(models: &[ModelPreset], model: &str, service_tier: &str) -> (r:
    String)
    ensures
        r@ == tier_name(models@, model@, service_tier@),
{
    match model_preset(models, model) {
        Some(preset) => match find_tier(&preset.service_tiers, service_tier) {
            Some(i) => preset.service_tiers[i].name.clone(),
            None => service_tier.to_owned(),
        },
        None => service_tier.to_owned(),
    }
}

/// What the status line says of the current tier.
pub fn current_service_tier_status_label(
    models: &[ModelPreset],
    model: &str,
    service_tier: Option<&str>,
) -> (r: String)
    ensures
        r@ == match service_tier {
            Some(t) => "Tier "@ + tier_name(models@, model@, t@),
            None => "Tier default"@,
        },
{
    match service_tier {
        Some(t) => {
            let mut r = "Tier ".to_owned();
            r.push_str(service_tier_display_name(models, model, t).as_str());
            r
        },
        None => "Tier default".to_owned(),
    }
}

/// Whether a model has a tier.
pub fn model_supports_service_tier(models: &[ModelPreset], model: &str, service_tier: &str) -> (r:
    bool)
    ensures
        r == ({
            let m = model_called(models@, model@, 0);
            m < models@.len() && tier_with_id(models@[m].service_tiers@, service_tier@, 0)
                < models@[m].service_tiers@.len()
        }),
{
    match model_preset(models, model) {
        Some(preset) => find_tier(&preset.service_tiers, service_tier).is_some(),
        None => false,
    }
}

// ---- laws ----

proof fn lemma_tier_called(tiers: Seq<ServiceTierCommand>, name: Seq<char>, from: int)
    requires
        0 <= from <= tiers.len(),
    ensures
        ({
            let t = tier_called(tiers, name, from);
            &&& from <= t <= tiers.len()
            &&& t < tiers.len() ==> tiers[t].command@ == name
            &&& forall|j: int| from <= j < t ==> (#[trigger] tiers[j]).command@ != name
        }),
    decreases tiers.len() - from,
{
    if from < tiers.len() && tiers[from].command@ != name {
        lemma_tier_called(tiers, name, from + 1);
    }
}

proof fn lemma_first_called(builtins: Seq<BuiltinCommand>, name: Seq<char>, from: int)
    requires
        0 <= from <= builtins.len(),
    ensures
        ({
            let b = builtin_called(builtins, name, from);
            &&& from <= b <= builtins.len()
            &&& b < builtins.len() ==> is_called(builtins[b], name)
            &&& forall|j: int| from <= j < b ==> !is_called(#[trigger] builtins[j], name)
        }),
    decreases builtins.len() - from,
{
    if from < builtins.len() && !is_called(builtins[from], name) {
        lemma_first_called(builtins, name, from + 1);
    }
}

/// Each command of a service tier that is offered is found by the word that it is offered under,
/// unless a built-in command or an earlier tier has that word.
pub proof fn tier_commands_are_found_by_their_words(
    builtins: Seq<BuiltinCommand>,
    tiers: Seq<ServiceTierCommand>,
    flags: BuiltinCommandFlags,
    i: int,
)
    requires
        0 <= i < tiers.len() <= usize::MAX,
        flags.fast_command_enabled,
        forall|b: int| 0 <= b < builtins.len() ==> (#[trigger] builtins[b]).name@ != tiers[i].command@,
        forall|b: int, a: int|
            0 <= b < builtins.len() && 0 <= a < builtins[b].aliases@.len() ==> (
            #[trigger] builtins[b].aliases@[a])@ != tiers[i].command@,
        forall|j: int| 0 <= j < i ==> (#[trigger] tiers[j]).command@ != tiers[i].command@,
    ensures
        command_called(builtins, tiers, flags, tiers[i].command@) == Some(
            SlashCommandAction::ServiceTier(i as usize),
        ),
{
    let name = tiers[i].command@;
    lemma_first_called(builtins, name, 0);
    lemma_tier_called(tiers, name, 0);
    let b = builtin_called(builtins, name, 0);
    if b < builtins.len() {
        assert(builtins[b].name@ != name);
        let a = choose|a: int|
            0 <= a < builtins[b].aliases@.len() && (#[trigger] builtins[b].aliases@[a])@ == name;
        assert(builtins[b].aliases@[a]@ != name);
    }
    let t = tier_called(tiers, name, 0);
    if t < i {
        assert(tiers[t].command@ != name);
    }
    if t > i {
        assert(tiers[i].command@ != name);
    }
}

/// What is found is called what was typed: a built-in command by its name or another name of its,
/// and the command of a service tier by its word. Nothing is found only where nothing that is
/// switched on is called that.
pub proof fn found_commands_are_called_what_was_typed(
    builtins: Seq<BuiltinCommand>,
    tiers: Seq<ServiceTierCommand>,
    flags: BuiltinCommandFlags,
    name: Seq<char>,
)
    requires
        builtins.len() <= usize::MAX,
        tiers.len() <= usize::MAX,
    ensures
        match command_called(builtins, tiers, flags, name) {
            Some(SlashCommandAction::Builtin(b)) => b < builtins.len() && (builtins[b as int].name@
                == name || exists|a: int|
                0 <= a < builtins[b as int].aliases@.len() && (
                #[trigger] builtins[b as int].aliases@[a])@ == name),
            Some(SlashCommandAction::ServiceTier(t)) => t < tiers.len() && tiers[t as int].command@
                == name && flags.fast_command_enabled,
            None => flags.fast_command_enabled ==> forall|t: int|
                0 <= t < tiers.len() ==> (#[trigger] tiers[t]).command@ != name,
        },
{
    lemma_first_called(builtins, name, 0);
    lemma_tier_called(tiers, name, 0);
}

/// A built-in command that is switched on is found by its name and by each other name of its,
/// unless an earlier one is called that. One that is not switched on is never found.
pub proof fn builtin_commands_are_found_by_all_their_names(
    builtins: Seq<BuiltinCommand>,
    tiers: Seq<ServiceTierCommand>,
    flags: BuiltinCommandFlags,
    i: int,
    a: int,
)
    requires
        0 <= i < builtins.len() <= usize::MAX,
        0 <= a < builtins[i].aliases@.len(),
        forall|j: int|
            0 <= j < i ==> !is_called(#[trigger] builtins[j], builtins[i].aliases@[a]@),
    ensures
        gate_open(gate_for(builtins[i].command), flags) ==> command_called(
            builtins,
            tiers,
            flags,
            builtins[i].aliases@[a]@,
        ) == Some(SlashCommandAction::Builtin(i as usize)),
        !gate_open(gate_for(builtins[i].command), flags) ==> command_called(
            builtins,
            tiers,
            flags,
            builtins[i].aliases@[a]@,
        ) != Some(SlashCommandAction::Builtin(i as usize)),
{
    let name = builtins[i].aliases@[a]@;
    assert(is_called(builtins[i], name));
    lemma_builtin_called(builtins, name, 0, i);
}

/// A command that hangs on something is offered only where that is switched on, and nothing else
/// that is switched on or off matters to it, but for a side conversation that it is not meant
/// for.
pub proof fn commands_hang_on_their_own_switch(c: BuiltinCommand, flags: BuiltinCommandFlags)
    ensures
        flags.side_conversation_active && !c.available_in_side_conversation ==> !is_offered(
            c,
            flags,
        ),
        !flags.side_conversation_active || c.available_in_side_conversation ==> is_offered(c, flags)
            == (match c.command {
            SlashCommand::Collab => flags.collaboration_modes_enabled,
            SlashCommand::Plan => flags.collaboration_modes_enabled,
            SlashCommand::Apps => flags.connectors_enabled,
            SlashCommand::Plugins => flags.plugins_command_enabled,
            SlashCommand::Goal => flags.goal_command_enabled,
            SlashCommand::Personality => flags.personality_command_enabled,
            SlashCommand::Realtime => flags.realtime_conversation_enabled,
            SlashCommand::Settings => flags.audio_device_selection_enabled,
            SlashCommand::ElevateSandbox => flags.allow_elevate_sandbox,
            SlashCommand::Model => true,
            SlashCommand::DebugConfig => true,
            SlashCommand::Clear => true,
            SlashCommand::Stop => true,
            SlashCommand::Review => true,
            SlashCommand::Other(_) => true,
        }),
{
}

/// Just the commands that are offered are listed for input: a built-in one where it is offered, and
/// that of a service tier where those are, if a command to choose a model is.
pub proof fn every_offered_command_is_listed(
    builtins: Seq<BuiltinCommand>,
    flags: BuiltinCommandFlags,
    tiers: int,
    i: usize,
)
    requires
        0 <= tiers <= usize::MAX,
        builtins.len() <= usize::MAX,
    ensures
        ({
            let listed = offered_actions(builtins, flags, tiers, builtins.len() as int);
            &&& listed.contains(SlashCommandAction::Builtin(i)) <==> i < builtins.len()
                && is_offered(builtins[i as int], flags)
            &&& listed.contains(SlashCommandAction::ServiceTier(i)) <==> i < tiers
                && flags.fast_command_enabled && !flags.side_conversation_active && exists|b: int|
                0 <= b < builtins.len() && (#[trigger] builtins[b]).command == SlashCommand::Model
                    && is_offered(builtins[b], flags)
        }),
{
    lemma_listed(builtins, flags, tiers, builtins.len() as int, i);
}

proof fn lemma_listed(
    builtins: Seq<BuiltinCommand>,
    flags: BuiltinCommandFlags,
    tiers: int,
    n: int,
    i: usize,
)
    requires
        0 <= tiers <= usize::MAX,
        0 <= n <= builtins.len() <= usize::MAX,
    ensures
        ({
            let listed = offered_actions(builtins, flags, tiers, n);
            &&& listed.contains(SlashCommandAction::Builtin(i)) <==> i < n && is_offered(
                builtins[i as int],
                flags,
            )
            &&& listed.contains(SlashCommandAction::ServiceTier(i)) <==> i < tiers && tiers_offered(
                flags,
            ) && exists|b: int|
                0 <= b < n && (#[trigger] builtins[b]).command == SlashCommand::Model && is_offered(
                    builtins[b],
                    flags,
                )
        }),
    decreases n,
{
    if n > 0 {
        lemma_listed(builtins, flags, tiers, n - 1, i);
        let before = offered_actions(builtins, flags, tiers, n - 1);
        let after = offered_actions(builtins, flags, tiers, n);
        let x = SlashCommandAction::Builtin(i);
        let y = SlashCommandAction::ServiceTier(i);
        if is_offered(builtins[n - 1], flags) {
            let own = SlashCommandAction::Builtin((n - 1) as usize);
            let with_tiers = builtins[n - 1].command == SlashCommand::Model && tiers_offered(flags);
            let more = if with_tiers {
                tier_actions(tiers)
            } else {
                Seq::empty()
            };
            assert(after == before.push(own) + more);
            if before.contains(x) {
                assert(after[before.index_of(x)] == x);
            }
            if before.contains(y) {
                assert(after[before.index_of(y)] == y);
            }
            assert(after[before.len() as int] == own);
            if with_tiers && i < tiers {
                assert(after[before.len() + 1 + i] == y);
            }
            if after.contains(x) {
                let k = after.index_of(x);
                if k < before.len() {
                    assert(before[k] == x);
                }
            }
            if after.contains(y) {
                let k = after.index_of(y);
                if k < before.len() {
                    assert(before[k] == y);
                } else {
                    assert(k > before.len());
                    assert(more[k - before.len() - 1] == y);
                    assert(with_tiers);
                }
            }
        }
    }
}

/// The letters and digits of the first `n` characters of a name, in lower case.
spec fn plain_letters(name: Seq<char>, n: int) -> Seq<char>
    decreases n,
{
    if n <= 0 {
        Seq::empty()
    } else if text::is_ascii_alphanumeric(name[n - 1]) {
        plain_letters(name, n - 1).push(text::ascii_lower_char(name[n - 1]))
    } else {
        plain_letters(name, n - 1)
    }
}

proof fn lemma_plain_letters(name: Seq<char>, n: int)
    requires
        0 <= n <= name.len(),
        forall|i: int| 0 <= i < n ==> is_word_char(#[trigger] name[i]),
    ensures
        command_word(name, n) == name.take(n),
    decreases n,
{
    if n > 0 {
        lemma_plain_letters(name, n - 1);
        if n >= 2 {
            assert(is_word_char(name[n - 2]));
        }
        assert(is_word_char(name[n - 1]));
        assert(name.take(n) =~= name.take(n - 1).push(name[n - 1]));
    } else {
        assert(name.take(0) =~= Seq::<char>::empty());
    }
}

/// A name that is a command word already is its own command word.
pub proof fn plain_names_are_their_own_words(name: Seq<char>)
    requires
        forall|i: int| 0 <= i < name.len() ==> is_word_char(#[trigger] name[i]),
    ensures
        command_word(name, name.len() as int) == name,
{
    lemma_plain_letters(name, name.len() as int);
    assert(name.take(name.len() as int) =~= name);
}

proof fn lemma_words_keep_letters(name: Seq<char>, n: int)
    requires
        0 <= n <= name.len(),
    ensures
        without_dashes(command_word(name, n)) == plain_letters(name, n),
    decreases n,
{
    if n > 0 {
        lemma_words_keep_letters(name, n - 1);
        let before = command_word(name, n - 1);
        let c = text::ascii_lower_char(name[n - 1]);
        if text::is_ascii_alphanumeric(name[n - 1]) {
            assert(is_word_char(c));
            assert(before.push(c).drop_last() =~= before);
            assert(before.push('-').drop_last() =~= before);
            assert(before.push('-').push(c).drop_last() =~= before.push('-'));
            assert(without_dashes(before.push('-')) == without_dashes(before));
        }
    }
}

/// A word without its dashes.
pub open spec fn without_dashes(word: Seq<char>) -> Seq<char>
    decreases word.len(),
{
    if word.len() == 0 {
        Seq::empty()
    } else if word.last() == '-' {
        without_dashes(word.drop_last())
    } else {
        without_dashes(word.drop_last()).push(word.last())
    }
}

/// A command word loses no letter or digit of the name, and keeps their order: names of letters
/// and digits that differ only in case, and in what stands between them, have the same letters in
/// their words.
pub proof fn words_keep_the_letters_of_names(a: Seq<char>, b: Seq<char>)
    ensures
        without_dashes(command_word(a + b, (a + b).len() as int)) == without_dashes(
            command_word(a, a.len() as int),
        ) + without_dashes(command_word(b, b.len() as int)),
{
    lemma_words_keep_letters(a + b, (a + b).len() as int);
    lemma_words_keep_letters(a, a.len() as int);
    lemma_words_keep_letters(b, b.len() as int);
    lemma_letters_of_sum(a, b, b.len() as int);
    lemma_letters_of_start(a, b, a.len() as int);
}

proof fn lemma_letters_of_start(a: Seq<char>, b: Seq<char>, n: int)
    requires
        0 <= n <= a.len(),
    ensures
        plain_letters(a + b, n) == plain_letters(a, n),
    decreases n,
{
    if n > 0 {
        lemma_letters_of_start(a, b, n - 1);
    }
}

proof fn lemma_letters_of_sum(a: Seq<char>, b: Seq<char>, n: int)
    requires
        0 <= n <= b.len(),
    ensures
        plain_letters(a + b, a.len() + n) == plain_letters(a, a.len() as int) + plain_letters(b, n),
    decreases n,
{
    if n > 0 {
        lemma_letters_of_sum(a, b, n - 1);
        assert((a + b)[a.len() + n - 1] == b[n - 1]);
        assert(plain_letters(a + b, a.len() + n) =~= plain_letters(a, a.len() as int)
            + plain_letters(b, n));
    } else {
        lemma_letters_of_start(a, b, a.len() as int);
        assert(plain_letters(a + b, a.len() as int) =~= plain_letters(a, a.len() as int)
            + plain_letters(b, 0));
    }
}

/// A tier whose name makes a word that is free has that word as its command; one whose word is not
/// free has its identifier where that is; and one with neither has no command.
pub proof fn tiers_are_called_by_name_or_identifier(
    tiers: Seq<ModelServiceTier>,
    builtins: Seq<BuiltinCommand>,
    i: int,
)
    requires
        0 <= i < tiers.len(),
    ensures
        ({
            let before = tier_words(tiers, builtins, i);
            let after = tier_words(tiers, builtins, i + 1);
            let word = command_word(tiers[i].name@, tiers[i].name@.len() as int);
            let is_free = |w: Seq<char>|
                w.len() > 0 && (forall|k: int|
                    0 <= k < before.len() ==> (#[trigger] before[k]).1 != w) && forall|b: int|
                    0 <= b < builtins.len() ==> !is_called(#[trigger] builtins[b], w);
            &&& is_free(word) ==> after == before.push((i, word))
            &&& !is_free(word) && is_free(tiers[i].id@) ==> after == before.push((i, tiers[i].id@))
            &&& !is_free(word) && !is_free(tiers[i].id@) ==> after == before
        }),
        tier_words(tiers, builtins, 0).len() == 0,
{
    let before = tier_words(tiers, builtins, i);
    let taken = before.map_values(|p: (int, Seq<char>)| p.1);
    let word = command_word(tiers[i].name@, tiers[i].name@.len() as int);
    lemma_free(before, taken, builtins, word);
    lemma_free(before, taken, builtins, tiers[i].id@);
}

proof fn lemma_free(
    before: Seq<(int, Seq<char>)>,
    taken: Seq<Seq<char>>,
    builtins: Seq<BuiltinCommand>,
    w: Seq<char>,
)
    requires
        taken == before.map_values(|p: (int, Seq<char>)| p.1),
    ensures
        !is_taken(w, taken, builtins) <==> w.len() > 0 && (forall|k: int|
            0 <= k < before.len() ==> (#[trigger] before[k]).1 != w) && forall|b: int|
            0 <= b < builtins.len() ==> !is_called(#[trigger] builtins[b], w),
{
    lemma_first_called(builtins, w, 0);
    if taken.contains(w) {
        let k = taken.index_of(w);
        assert(before[k].1 == w);
    }
    if exists|k: int| 0 <= k < before.len() && (#[trigger] before[k]).1 == w {
        let k = choose|k: int| 0 <= k < before.len() && (#[trigger] before[k]).1 == w;
        assert(taken[k] == w);
    }
}

proof fn lemma_model_called(models: Seq<ModelPreset>, model: Seq<char>, from: int)
    requires
        0 <= from <= models.len(),
    ensures
        ({
            let m = model_called(models, model, from);
            &&& from <= m <= models.len()
            &&& m < models.len() ==> models[m].model@ == model
            &&& forall|j: int| from <= j < m ==> (#[trigger] models[j]).model@ != model
        }),
    decreases models.len() - from,
{
    if from < models.len() && models[from].model@ != model {
        lemma_model_called(models, model, from + 1);
    }
}

proof fn lemma_tier_with_id(tiers: Seq<ModelServiceTier>, id: Seq<char>, from: int)
    requires
        0 <= from <= tiers.len(),
    ensures
        ({
            let t = tier_with_id(tiers, id, from);
            &&& from <= t <= tiers.len()
            &&& t < tiers.len() ==> tiers[t].id@ == id
            &&& forall|j: int| from <= j < t ==> (#[trigger] tiers[j]).id@ != id
        }),
    decreases tiers.len() - from,
{
    if from < tiers.len() && tiers[from].id@ != id {
        lemma_tier_with_id(tiers, id, from + 1);
    }
}

/// A model is found by its name, the first of that name; it has the tiers that it lists, and calls
/// each, but for a later one with the same identifier, by the name that it lists with it. What no
/// such model lists is called by its identifier.
pub proof fn models_know_their_tiers(
    models: Seq<ModelPreset>,
    m: int,
    t: int,
    other: Seq<char>,
)
    requires
        0 <= m < models.len(),
        0 <= t < models[m].service_tiers@.len(),
        forall|j: int| 0 <= j < m ==> (#[trigger] models[j]).model@ != models[m].model@,
        forall|j: int|
            0 <= j < t ==> (#[trigger] models[m].service_tiers@[j]).id@
                != models[m].service_tiers@[t].id@,
        forall|j: int|
            0 <= j < models[m].service_tiers@.len() ==> (
            #[trigger] models[m].service_tiers@[j]).id@ != other,
    ensures
        model_called(models, models[m].model@, 0) == m,
        tier_with_id(models[m].service_tiers@, models[m].service_tiers@[t].id@, 0) == t,
        tier_name(models, models[m].model@, models[m].service_tiers@[t].id@)
            == models[m].service_tiers@[t].name@,
        tier_with_id(models[m].service_tiers@, other, 0) == models[m].service_tiers@.len(),
        tier_name(models, models[m].model@, other) == other,
{
    let tiers = models[m].service_tiers@;
    lemma_model_called(models, models[m].model@, 0);
    lemma_tier_with_id(tiers, tiers[t].id@, 0);
    lemma_tier_with_id(tiers, other, 0);
    let k = model_called(models, models[m].model@, 0);
    if k < m {
        assert(models[k].model@ != models[m].model@);
    }
    let u = tier_with_id(tiers, tiers[t].id@, 0);
    if u < t {
        assert(tiers[u].id@ != tiers[t].id@);
    }
}

/// Every built-in command that is offered is listed once, in order, and no other.
pub proof fn every_offered_builtin_is_listed(
    builtins: Seq<BuiltinCommand>,
    flags: BuiltinCommandFlags,
    n: int,
    i: usize,
)
    requires
        0 <= n <= builtins.len() <= usize::MAX,
    ensures
        offered_builtins(builtins, flags, n).contains(i) <==> i < n && is_offered(
            builtins[i as int],
            flags,
        ),
        forall|a: int, b: int|
            0 <= a < b < offered_builtins(builtins, flags, n).len() ==> #[trigger] offered_builtins(
                builtins,
                flags,
                n,
            )[a] < #[trigger] offered_builtins(builtins, flags, n)[b],
        forall|a: int|
            0 <= a < offered_builtins(builtins, flags, n).len() ==> (#[trigger] offered_builtins(
                builtins,
                flags,
                n,
            )[a]) < n,
    decreases n,
{
    if n > 0 {
        every_offered_builtin_is_listed(builtins, flags, n - 1, i);
        let before = offered_builtins(builtins, flags, n - 1);
        let after = offered_builtins(builtins, flags, n);
        if before.contains(i) {
            assert(after[before.index_of(i)] == i);
        }
        if after.len() > before.len() {
            assert(after[before.len() as int] == (n - 1) as usize);
            if after.contains(i) && i != n - 1 {
                assert(before[after.index_of(i)] == i);
            }
        }
    }
}

/// The commands of the service tiers stand right behind the command for the model, one for each tier
/// and in their order.
pub proof fn tier_commands_stand_behind_the_model(
    builtins: Seq<BuiltinCommand>,
    flags: BuiltinCommandFlags,
    tiers: int,
    n: int,
    t: int,
)
    requires
        0 < n <= builtins.len() <= usize::MAX,
        0 <= t < tiers <= usize::MAX,
        builtins[n - 1].command is Model,
        is_offered(builtins[n - 1], flags),
        flags.fast_command_enabled,
        !flags.side_conversation_active,
    ensures
        ({
            let before = offered_actions(builtins, flags, tiers, n - 1);
            let after = offered_actions(builtins, flags, tiers, n);
            &&& after.len() == before.len() + 1 + tiers
            &&& after.take(before.len() as int) == before
            &&& after[before.len() as int] == SlashCommandAction::Builtin((n - 1) as usize)
            &&& after[before.len() + 1 + t] == SlashCommandAction::ServiceTier(t as usize)
        }),
{
    let before = offered_actions(builtins, flags, tiers, n - 1);
    let after = offered_actions(builtins, flags, tiers, n);
    assert(after.take(before.len() as int) =~= before);
}

/// The command of a tier selects that tier, and is called and described as it is.
pub proof fn tier_commands_select_their_tier(
    c: ServiceTierCommand,
    tier: ModelServiceTier,
    word: Seq<char>,
)
    requires
        is_tier_command(c, tier, word),
    ensures
        c.service_tier@ == tier.id@,
        c.command@ == word,
        c.name@ == tier.name@,
        c.description@ == tier.description@,
{
}

} // verus!
