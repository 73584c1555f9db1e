//! Starting a command in the Linux sandbox: which policies are in force, which stage
//! of the launch this process is, and what the next stage is told.

use vstd::prelude::*;

use crate::paths;
use crate::text;

verus! {

/// The name under which the helper runs itself inside the sandbox.
pub const CODEX_LINUX_SANDBOX_ARG0: &'static str = "codex-linux-sandbox";

// ---- policies ----

/// A directory that may be written to, but for some paths in it, and but for metadata of some
/// names.
#[derive(Debug)]
pub struct WritableRoot {
    pub root: String,
    pub read_only_subpaths: Vec<String>,
    pub protected_metadata_names: Vec<String>,
}

/// What a file system policy allows in a working directory.
#[derive(Debug)]
pub struct FileSystemView {
    pub full_disk_read: bool,
    pub full_disk_write: bool,
    pub platform_defaults: bool,
    pub readable_roots: Vec<String>,
    pub writable_roots: Vec<WritableRoot>,
    pub unreadable_roots: Vec<String>,
}

/// A file system policy: its serialised form, what it allows, and whether only direct
/// runtime enforcement can enforce it.
#[derive(Debug)]
pub struct FileSystemPolicy {
    pub text: String,
    pub view: FileSystemView,
    pub direct_enforcement: bool,
}

/// A policy in the older combined form: its serialised form, and the two policies that it
/// stands for in the working directory.
#[derive(Debug)]
pub struct LegacyPolicy {
    pub text: String,
    pub file_system: FileSystemPolicy,
    pub network_enabled: bool,
}

/// The policies in force. Without a file system policy of its own, that of the combined
/// policy is in force.
#[derive(Debug)]
pub struct EffectiveSandboxPolicies {
    pub sandbox_policy: LegacyPolicy,
    pub split_file_system: Option<FileSystemPolicy>,
    pub network_enabled: bool,
}

/// Why the policies of a launch are refused.
#[derive(Debug)]
pub enum ResolveSandboxPoliciesError {
    PartialSplitPolicies,
    SplitPoliciesRequireDirectRuntimeEnforcement(String),
    FailedToDeriveLegacyPolicy(String),
    MismatchedLegacyPolicy { provided: String, derived: String },
    MissingConfiguration,
}

impl EffectiveSandboxPolicies {
    /// The file system policy in force.
    pub open spec fn file_system_spec(&self) -> FileSystemPolicy {
        match self.split_file_system {
            Some(p) => p,
            None => self.sandbox_policy.file_system,
        }
    }

    /// The file system policy in force.
    pub fn file_system(&self) -> (r: &FileSystemPolicy)
        ensures
            *r == self.file_system_spec(),
    {
        match &self.split_file_system {
            Some(p) => p,
            None => &self.sandbox_policy.file_system,
        }
    }
}

impl ResolveSandboxPoliciesError {
    /// What the refusal reads like.
    pub fn message(&self) -> (r: String)
        ensures
            r@ == match self {
                ResolveSandboxPoliciesError::PartialSplitPolicies =>
                "file-system and network sandbox policies must be provided together"@,
                ResolveSandboxPoliciesError::SplitPoliciesRequireDirectRuntimeEnforcement(e) =>
                "split sandbox policies require direct runtime enforcement and cannot be paired with legacy sandbox policy: "@
                    + e@,
                ResolveSandboxPoliciesError::FailedToDeriveLegacyPolicy(e) =>
                "failed to derive legacy sandbox policy from split policies: "@ + e@,
                ResolveSandboxPoliciesError::MismatchedLegacyPolicy { provided, derived } =>
                "legacy sandbox policy must match split sandbox policies: provided="@ + provided@
                    + ", derived="@ + derived@,
                ResolveSandboxPoliciesError::MissingConfiguration =>
                "missing sandbox policy configuration"@,
            },
    {
        match self {
            ResolveSandboxPoliciesError::PartialSplitPolicies =>
            "file-system and network sandbox policies must be provided together".to_owned(),
            ResolveSandboxPoliciesError::SplitPoliciesRequireDirectRuntimeEnforcement(e) => {
                let mut m =
                    "split sandbox policies require direct runtime enforcement and cannot be paired with legacy sandbox policy: ".to_owned();
                m.push_str(e.as_str());
                m
            },
            ResolveSandboxPoliciesError::FailedToDeriveLegacyPolicy(e) => {
                let mut m =
                    "failed to derive legacy sandbox policy from split policies: ".to_owned();
                m.push_str(e.as_str());
                m
            },
            ResolveSandboxPoliciesError::MismatchedLegacyPolicy { provided, derived } => {
                let mut m =
                    "legacy sandbox policy must match split sandbox policies: provided=".to_owned();
                m.push_str(provided.as_str());
                m.push_str(", derived=");
                m.push_str(derived.as_str());
                m
            },
            ResolveSandboxPoliciesError::MissingConfiguration =>
            "missing sandbox policy configuration".to_owned(),
        }
    }
}

/// Whether the same may be written to under two roots.
pub open spec fn same_root(a: WritableRoot, b: WritableRoot) -> bool {
    &&& paths::same_path(a.root@, b.root@)
    &&& paths::same_paths(
        text::string_views(a.read_only_subpaths@),
        text::string_views(b.read_only_subpaths@),
    )
    &&& text::string_views(a.protected_metadata_names@) == text::string_views(
        b.protected_metadata_names@,
    )
}

/// Whether the same may be written to under the roots of two lists, in the same order.
pub open spec fn same_roots(a: Seq<WritableRoot>, b: Seq<WritableRoot>) -> bool {
    a.len() == b.len() && forall|i: int| 0 <= i < a.len() ==> same_root(#[trigger] a[i], b[i])
}

/// Whether two file system policies allow the same.
pub open spec fn same_access(a: FileSystemView, b: FileSystemView) -> bool {
    &&& a.full_disk_read == b.full_disk_read
    &&& a.full_disk_write == b.full_disk_write
    &&& a.platform_defaults == b.platform_defaults
    &&& paths::same_paths(
        text::string_views(a.readable_roots@),
        text::string_views(b.readable_roots@),
    )
    &&& same_roots(a.writable_roots@, b.writable_roots@)
    &&& paths::same_paths(
        text::string_views(a.unreadable_roots@),
        text::string_views(b.unreadable_roots@),
    )
}

/// Whether two combined policies allow the same.
pub open spec fn same_semantics(a: LegacyPolicy, b: LegacyPolicy) -> bool {
    a.network_enabled == b.network_enabled && same_access(a.file_system.view, b.file_system.view)
}

fn same_strings(a: &Vec<String>, b: &Vec<String>) -> (r: bool)
    ensures
        r == (text::string_views(a@) == text::string_views(b@)),
{
    let ghost va = text::string_views(a@);
    let ghost vb = text::string_views(b@);
    if a.len() != b.len() {
        assert(va.len() != vb.len());
        return false;
    }
    let mut i: usize = 0;
    while i < a.len()
        invariant
            i <= a.len(),
            a.len() == b.len(),
            va == text::string_views(a@),
            vb == text::string_views(b@),
            forall|j: int| 0 <= j < i ==> va[j] == vb[j],
        decreases a.len() - i,
    {
        if !text::same_str(a[i].as_str(), b[i].as_str()) {
            assert(va[i as int] != vb[i as int]);
            return false;
        }
        assert(va[i as int] == a@[i as int]@ && vb[i as int] == b@[i as int]@);
        i = i + 1;
    }
    assert(va =~= vb);
    true
}

fn are_same_roots(a: &Vec<WritableRoot>, b: &Vec<WritableRoot>) -> (r: bool)
    ensures
        r == same_roots(a@, b@),
{
    if a.len() != b.len() {
        return false;
    }
    let mut i: usize = 0;
    while i < a.len()
        invariant
            i <= a.len(),
            a.len() == b.len(),
            forall|j: int| 0 <= j < i ==> same_root(#[trigger] a@[j], b@[j]),
        decreases a.len() - i,
    {
        let same = paths::is_same_path(a[i].root.as_str(), b[i].root.as_str())
            && paths::are_same_paths(
            a[i].read_only_subpaths.as_slice(),
            b[i].read_only_subpaths.as_slice(),
        ) && same_strings(&a[i].protected_metadata_names, &b[i].protected_metadata_names);
        if !same {
            assert(!same_root(a@[i as int], b@[i as int]));
            return false;
        }
        i = i + 1;
    }
    true
}

/// Whether two file system policies allow the same.
pub fn file_system_sandbox_policies_match_semantics(
    provided: &FileSystemView,
    derived: &FileSystemView,
) -> (r: bool)
    ensures
        r == same_access(*provided, *derived),
{
    provided.full_disk_read == derived.full_disk_read && provided.full_disk_write
        == derived.full_disk_write && provided.platform_defaults == derived.platform_defaults
        && paths::are_same_paths(
        provided.readable_roots.as_slice(),
        derived.readable_roots.as_slice(),
    ) && are_same_roots(&provided.writable_roots, &derived.writable_roots) && paths::are_same_paths(
        provided.unreadable_roots.as_slice(),
        derived.unreadable_roots.as_slice(),
    )
}

/// Whether two combined policies allow the same.
pub fn legacy_sandbox_policies_match_semantics(provided: &LegacyPolicy, derived: &LegacyPolicy)
    -> (r: bool)
    ensures
        r == same_semantics(*provided, *derived),
{
    provided.network_enabled == derived.network_enabled
        && file_system_sandbox_policies_match_semantics(
        &provided.file_system.view,
        &derived.file_system.view,
    )
}

/// The policies in force for what was given, or why there are none.
pub open spec fn resolved(
    sandbox_policy: Option<LegacyPolicy>,
    file_system: Option<FileSystemPolicy>,
    network_enabled: Option<bool>,
    derived: Result<LegacyPolicy, String>,
) -> Result<EffectiveSandboxPolicies, ResolveSandboxPoliciesError> {
    match (file_system, network_enabled, sandbox_policy) {
        (Some(_), None, _) => Err(ResolveSandboxPoliciesError::PartialSplitPolicies),
        (None, Some(_), _) => Err(ResolveSandboxPoliciesError::PartialSplitPolicies),
        (None, None, None) => Err(ResolveSandboxPoliciesError::MissingConfiguration),
        (None, None, Some(legacy)) => Ok(
            EffectiveSandboxPolicies {
                sandbox_policy: legacy,
                split_file_system: None,
                network_enabled: legacy.network_enabled,
            },
        ),
        (Some(fs), Some(net), None) => match derived {
            Ok(legacy) => Ok(
                EffectiveSandboxPolicies {
                    sandbox_policy: legacy,
                    split_file_system: Some(fs),
                    network_enabled: net,
                },
            ),
            Err(e) => Err(ResolveSandboxPoliciesError::FailedToDeriveLegacyPolicy(e)),
        },
        (Some(fs), Some(net), Some(legacy)) => if fs.direct_enforcement || (derived is Ok
            && same_semantics(legacy, derived->Ok_0)) {
            Ok(
                EffectiveSandboxPolicies {
                    sandbox_policy: legacy,
                    split_file_system: Some(fs),
                    network_enabled: net,
                },
            )
        } else {
            match derived {
                Ok(d) => Err(
                    ResolveSandboxPoliciesError::MismatchedLegacyPolicy {
                        provided: legacy.text,
                        derived: d.text,
                    },
                ),
                Err(e) => Err(
                    ResolveSandboxPoliciesError::SplitPoliciesRequireDirectRuntimeEnforcement(e),
                ),
            }
        },
    }
}

/// Which policies are in force: a combined one, a pair of split ones, or all three where
/// the combined one says the same as the pair or cannot say it. `derived` is the combined
/// policy that the pair amounts to, or why there is none; it is looked at only with a pair.
pub fn resolve_sandbox_policies(
    sandbox_policy: Option<LegacyPolicy>,
    file_system: Option<FileSystemPolicy>,
    network_enabled: Option<bool>,
    derived: Result<LegacyPolicy, String>,
) -> (r: Result<EffectiveSandboxPolicies, ResolveSandboxPoliciesError>)
    ensures
        r == resolved(sandbox_policy, file_system, network_enabled, derived),
{
    let split = match (file_system, network_enabled) {
        (Some(fs), Some(net)) => Some((fs, net)),
        (None, None) => None,
        _ => {
            return Err(ResolveSandboxPoliciesError::PartialSplitPolicies);
        },
    };
    match (sandbox_policy, split) {
        (Some(legacy), Some((fs, net))) => {
            if fs.direct_enforcement {
                return Ok(
                    EffectiveSandboxPolicies {
                        sandbox_policy: legacy,
                        split_file_system: Some(fs),
                        network_enabled: net,
                    },
                );
            }
            match derived {
                Err(e) => Err(
                    ResolveSandboxPoliciesError::SplitPoliciesRequireDirectRuntimeEnforcement(e),
                ),
                Ok(d) => {
                    if !legacy_sandbox_policies_match_semantics(&legacy, &d) {
                        return Err(
                            ResolveSandboxPoliciesError::MismatchedLegacyPolicy {
                                provided: legacy.text,
                                derived: d.text,
                            },
                        );
                    }
                    Ok(
                        EffectiveSandboxPolicies {
                            sandbox_policy: legacy,
                            split_file_system: Some(fs),
                            network_enabled: net,
                        },
                    )
                },
            }
        },
        (Some(legacy), None) => {
            let net = legacy.network_enabled;
            Ok(
                EffectiveSandboxPolicies {
                    sandbox_policy: legacy,
                    split_file_system: None,
                    network_enabled: net,
                },
            )
        },
        (None, Some((fs, net))) => match derived {
            Ok(legacy) => Ok(
                EffectiveSandboxPolicies {
                    sandbox_policy: legacy,
                    split_file_system: Some(fs),
                    network_enabled: net,
                },
            ),
            Err(e) => Err(ResolveSandboxPoliciesError::FailedToDeriveLegacyPolicy(e)),
        },
        (None, None) => Err(ResolveSandboxPoliciesError::MissingConfiguration),
    }
}

// ---- the stages of a launch ----

/// What the helper was asked to do.
#[derive(Debug)]
pub struct LandlockCommand {
    pub sandbox_policy_cwd: String,
    pub command_cwd: Option<String>,
    pub sandbox_policy: Option<LegacyPolicy>,
    pub file_system_sandbox_policy: Option<FileSystemPolicy>,
    pub network_sandbox_policy: Option<bool>,
    pub use_legacy_landlock: bool,
    pub apply_seccomp_then_exec: bool,
    pub allow_network_for_proxy: bool,
    pub proxy_route_spec: Option<String>,
    pub no_proc: bool,
    pub command: Vec<String>,
}

/// Why a launch is refused.
#[derive(Debug)]
pub enum LaunchRefusal {
    NoCommand,
    InnerStageWithLandlock,
    Policies(ResolveSandboxPoliciesError),
    LandlockCannotEnforce,
    MissingRouteSpec,
}

/// What the process does to itself before it runs the command.
#[derive(Clone, Copy, Debug, PartialEq, Eq, Structural)]
pub struct Restrictions {
    pub apply_landlock_fs: bool,
    pub allow_network_for_proxy: bool,
    pub proxy_routed_network: bool,
}

/// The next step of a launch.
#[derive(Debug)]
pub enum LaunchStep {
    /// Inside the sandbox: open the proxy routes, if there are any, restrict this process,
    /// and run the command.
    Inner { proxy_routes: Option<String>, restrictions: Restrictions },
    /// Restrict this process and run the command.
    Restrict { restrictions: Restrictions },
    /// Build the sandbox around this helper, which then is the inner stage.
    Bubblewrap { prepare_proxy_routes: bool, mount_proc: bool, network_mode: BwrapNetworkMode },
}

/// How the sandbox is connected.
#[derive(Clone, Copy, Debug, PartialEq, Eq, Structural)]
pub enum BwrapNetworkMode {
    FullAccess,
    Isolated,
    ProxyOnly,
}

/// A launch that was accepted.
#[derive(Debug)]
pub struct LaunchPlan {
    pub policies: EffectiveSandboxPolicies,
    pub step: LaunchStep,
    pub sandbox_policy_cwd: String,
    pub command_cwd: Option<String>,
    pub command: Vec<String>,
}

/// How the sandbox is connected.
pub open spec fn network_mode(enabled: bool, proxy: bool) -> BwrapNetworkMode {
    if proxy {
        BwrapNetworkMode::ProxyOnly
    } else if enabled {
        BwrapNetworkMode::FullAccess
    } else {
        BwrapNetworkMode::Isolated
    }
}

/// The step for a command under policies.
pub open spec fn step_of(c: LandlockCommand, p: EffectiveSandboxPolicies) -> LaunchStep {
    let proxy = c.allow_network_for_proxy;
    if c.apply_seccomp_then_exec {
        LaunchStep::Inner {
            proxy_routes: if proxy {
                c.proxy_route_spec
            } else {
                None
            },
            restrictions: Restrictions {
                apply_landlock_fs: false,
                allow_network_for_proxy: proxy,
                proxy_routed_network: proxy,
            },
        }
    } else if p.file_system_spec().view.full_disk_write && !proxy {
        LaunchStep::Restrict {
            restrictions: Restrictions {
                apply_landlock_fs: false,
                allow_network_for_proxy: false,
                proxy_routed_network: false,
            },
        }
    } else if !c.use_legacy_landlock {
        LaunchStep::Bubblewrap {
            prepare_proxy_routes: proxy,
            mount_proc: !c.no_proc,
            network_mode: network_mode(p.network_enabled, proxy),
        }
    } else {
        LaunchStep::Restrict {
            restrictions: Restrictions {
                apply_landlock_fs: true,
                allow_network_for_proxy: proxy,
                proxy_routed_network: false,
            },
        }
    }
}

/// The plan for a command, or the first reason to refuse it.
pub open spec fn launch(c: LandlockCommand, derived: Result<LegacyPolicy, String>) -> Result<
    LaunchPlan,
    LaunchRefusal,
> {
    if c.command@.len() == 0 {
        Err(LaunchRefusal::NoCommand)
    } else if c.apply_seccomp_then_exec && c.use_legacy_landlock {
        Err(LaunchRefusal::InnerStageWithLandlock)
    } else {
        match resolved(
            c.sandbox_policy,
            c.file_system_sandbox_policy,
            c.network_sandbox_policy,
            derived,
        ) {
            Err(e) => Err(LaunchRefusal::Policies(e)),
            Ok(p) => if c.use_legacy_landlock && p.file_system_spec().direct_enforcement {
                Err(LaunchRefusal::LandlockCannotEnforce)
            } else if c.apply_seccomp_then_exec && c.allow_network_for_proxy
                && c.proxy_route_spec is None {
                Err(LaunchRefusal::MissingRouteSpec)
            } else {
                Ok(
                    LaunchPlan {
                        policies: p,
                        step: step_of(c, p),
                        sandbox_policy_cwd: c.sandbox_policy_cwd,
                        command_cwd: c.command_cwd,
                        command: c.command,
                    },
                )
            },
        }
    }
}

/// Whether the inner stage and the older enforcement are asked for together.
pub fn ensure_inner_stage_mode_is_valid(
    apply_seccomp_then_exec: bool,
    use_legacy_landlock: bool,
) -> (r: bool)
    ensures
        r == !(apply_seccomp_then_exec && use_legacy_landlock),
{
    !(apply_seccomp_then_exec && use_legacy_landlock)
}

/// How the sandbox is connected.
pub fn bwrap_network_mode(network_enabled: bool, allow_network_for_proxy: bool) -> (r:
    BwrapNetworkMode)
    ensures
        r == network_mode(network_enabled, allow_network_for_proxy),
{
    if allow_network_for_proxy {
        BwrapNetworkMode::ProxyOnly
    } else if network_enabled {
        BwrapNetworkMode::FullAccess
    } else {
        BwrapNetworkMode::Isolated
    }
}

/// The next step of a launch, or why it is refused.
pub fn run_main(command: LandlockCommand, derived: Result<LegacyPolicy, String>) -> (r: Result<
    LaunchPlan,
    LaunchRefusal,
>)
    ensures
        r == launch(command, derived),
{
    if command.command.len() == 0 {
        return Err(LaunchRefusal::NoCommand);
    }
    if !ensure_inner_stage_mode_is_valid(
        command.apply_seccomp_then_exec,
        command.use_legacy_landlock,
    ) {
        return Err(LaunchRefusal::InnerStageWithLandlock);
    }
    let policies = match resolve_sandbox_policies(
        command.sandbox_policy,
        command.file_system_sandbox_policy,
        command.network_sandbox_policy,
        derived,
    ) {
        Ok(p) => p,
        Err(e) => {
            return Err(LaunchRefusal::Policies(e));
        },
    };
    if command.use_legacy_landlock && policies.file_system().direct_enforcement {
        return Err(LaunchRefusal::LandlockCannotEnforce);
    }
    let proxy = command.allow_network_for_proxy;
    let step = if command.apply_seccomp_then_exec {
        let proxy_routes = if proxy {
            match command.proxy_route_spec {
                Some(spec) => Some(spec),
                None => {
                    return Err(LaunchRefusal::MissingRouteSpec);
                },
            }
        } else {
            None
        };
        LaunchStep::Inner {
            proxy_routes,
            restrictions: Restrictions {
                apply_landlock_fs: false,
                allow_network_for_proxy: proxy,
                proxy_routed_network: proxy,
            },
        }
    } else if policies.file_system().view.full_disk_write && !proxy {
        LaunchStep::Restrict {
            restrictions: Restrictions {
                apply_landlock_fs: false,
                allow_network_for_proxy: false,
                proxy_routed_network: false,
            },
        }
    } else if !command.use_legacy_landlock {
        LaunchStep::Bubblewrap {
            prepare_proxy_routes: proxy,
            mount_proc: !command.no_proc,
            network_mode: bwrap_network_mode(policies.network_enabled, proxy),
        }
    } else {
        LaunchStep::Restrict {
            restrictions: Restrictions {
                apply_landlock_fs: true,
                allow_network_for_proxy: proxy,
                proxy_routed_network: false,
            },
        }
    };
    Ok(
        LaunchPlan {
            policies,
            step,
            sandbox_policy_cwd: command.sandbox_policy_cwd,
            command_cwd: command.command_cwd,
            command: command.command,
        },
    )
}

// ---- the inner command ----

/// What the inner stage is told.
#[derive(Debug)]
pub struct InnerSeccompCommandArgs {
    pub current_exe: String,
    pub sandbox_policy_cwd: String,
    pub command_cwd: Option<String>,
    pub sandbox_policy: String,
    pub file_system_sandbox_policy: String,
    pub network_sandbox_policy: String,
    pub allow_network_for_proxy: bool,
    pub proxy_route_spec: Option<String>,
    pub command: Vec<String>,
}

/// The command line of the inner stage.
pub open spec fn inner_command(a: InnerSeccompCommandArgs) -> Seq<Seq<char>> {
    let cwd = match a.command_cwd {
        Some(c) => seq!["--command-cwd"@, c@],
        None => Seq::empty(),
    };
    let proxy = if a.allow_network_for_proxy && a.proxy_route_spec is Some {
        seq!["--allow-network-for-proxy"@, "--proxy-route-spec"@, a.proxy_route_spec->0@]
    } else {
        Seq::empty()
    };
    seq![a.current_exe@, "--sandbox-policy-cwd"@, a.sandbox_policy_cwd@] + cwd + seq![
        "--sandbox-policy"@,
        a.sandbox_policy@,
        "--file-system-sandbox-policy"@,
        a.file_system_sandbox_policy@,
        "--network-sandbox-policy"@,
        a.network_sandbox_policy@,
        "--apply-seccomp-then-exec"@,
    ] + proxy + seq!["--"@] + text::string_views(a.command@)
}

fn push_arg(v: &mut Vec<String>, arg: &str)
    ensures
        text::string_views(final(v)@) == text::string_views(old(v)@).push(arg@),
{
    let ghost before = v@;
    v.push(arg.to_owned());
    assert(text::string_views(v@) =~= text::string_views(before).push(arg@));
}

/// The command line of the inner stage. In proxy mode a route spec must be given.
pub fn build_inner_seccomp_command(args: InnerSeccompCommandArgs) -> (r: Vec<String>)
    requires
        args.allow_network_for_proxy ==> args.proxy_route_spec is Some,
    ensures
        text::string_views(r@) == inner_command(args),
{
    let mut r: Vec<String> = Vec::new();
    push_arg(&mut r, args.current_exe.as_str());
    push_arg(&mut r, "--sandbox-policy-cwd");
    push_arg(&mut r, args.sandbox_policy_cwd.as_str());
    let ghost mut built = seq![args.current_exe@, "--sandbox-policy-cwd"@, args.sandbox_policy_cwd@];
    assert(text::string_views(r@) =~= built);
    match &args.command_cwd {
        Some(c) => {
            push_arg(&mut r, "--command-cwd");
            push_arg(&mut r, c.as_str());
            proof {
                built = built + seq!["--command-cwd"@, c@];
            }
        },
        None => {
            proof {
                built = built + Seq::empty();
            }
        },
    }
    assert(text::string_views(r@) =~= built);
    push_arg(&mut r, "--sandbox-policy");
    push_arg(&mut r, args.sandbox_policy.as_str());
    push_arg(&mut r, "--file-system-sandbox-policy");
    push_arg(&mut r, args.file_system_sandbox_policy.as_str());
    push_arg(&mut r, "--network-sandbox-policy");
    push_arg(&mut r, args.network_sandbox_policy.as_str());
    push_arg(&mut r, "--apply-seccomp-then-exec");
    proof {
        built = built + seq![
            "--sandbox-policy"@,
            args.sandbox_policy@,
            "--file-system-sandbox-policy"@,
            args.file_system_sandbox_policy@,
            "--network-sandbox-policy"@,
            args.network_sandbox_policy@,
            "--apply-seccomp-then-exec"@,
        ];
    }
    assert(text::string_views(r@) =~= built);
    let ghost mut proxy: Seq<Seq<char>> = Seq::empty();
    if args.allow_network_for_proxy {
        if let Some(spec) = &args.proxy_route_spec {
            push_arg(&mut r, "--allow-network-for-proxy");
            push_arg(&mut r, "--proxy-route-spec");
            push_arg(&mut r, spec.as_str());
            proof {
                proxy = seq!["--allow-network-for-proxy"@, "--proxy-route-spec"@, spec@];
            }
        }
    }
    assert(text::string_views(r@) =~= built + proxy);
    push_arg(&mut r, "--");
    let ghost before = r@;
    let mut command = args.command;
    let ghost tail = command@;
    r.append(&mut command);
    assert(text::string_views(r@) =~= text::string_views(before) + text::string_views(tail));
    assert(text::string_views(r@) =~= built + proxy + seq!["--"@] + text::string_views(tail));
    r
}

/// The command line of bubblewrap.
pub fn build_bwrap_argv(args: Vec<String>) -> (r: Vec<String>)
    ensures
        text::string_views(r@) == seq!["bwrap"@] + text::string_views(args@),
{
    let mut r: Vec<String> = Vec::new();
    push_arg(&mut r, "bwrap");
    let ghost before = r@;
    let mut rest = args;
    r.append(&mut rest);
    assert(text::string_views(r@) =~= text::string_views(before) + text::string_views(args@));
    assert(text::string_views(before) =~= seq!["bwrap"@]);
    r
}

/// The position of the first `--` from `i` on, or the number of arguments.
pub open spec fn separator(argv: Seq<Seq<char>>, i: int) -> int
    decreases argv.len() - i,
{
    if i < 0 || i >= argv.len() {
        argv.len() as int
    } else if argv[i] == "--"@ {
        i
    } else {
        separator(argv, i + 1)
    }
}

/// Why the name of the inner command cannot be set.
#[derive(Clone, Copy, Debug, PartialEq, Eq, Structural)]
pub enum ArgvError {
    MissingSeparator,
    MissingCommand,
}

/// Makes the inner command run under the helper's name: by bubblewrap's own option where it
/// has one, and otherwise by naming the helper's executable in place of the command.
pub fn apply_inner_command_argv0_for_launcher(
    argv: &mut Vec<String>,
    supports_argv0: bool,
    argv0_fallback_command: String,
) -> (r: Result<(), ArgvError>)
    ensures
        ({
            let v = text::string_views(old(argv)@);
            let w = text::string_views(final(argv)@);
            let i = separator(v, 0);
            match r {
                Ok(()) => 0 <= i < v.len() && if supports_argv0 {
                    w == v.take(i) + seq!["--argv0"@, CODEX_LINUX_SANDBOX_ARG0@] + v.skip(i)
                } else {
                    i + 1 < v.len() && w == v.update(i + 1, argv0_fallback_command@)
                },
                Err(e) => final(argv)@ == old(argv)@ && match e {
                    ArgvError::MissingSeparator => i >= v.len(),
                    ArgvError::MissingCommand => i + 1 == v.len() && !supports_argv0,
                },
            }
        }),
{
    let ghost v = text::string_views(argv@);
    let mut i: usize = 0;
    while i < argv.len() && !text::same_str(argv[i].as_str(), "--")
        invariant
            i <= argv.len(),
            argv@ == old(argv)@,
            v == text::string_views(argv@),
            separator(v, 0) == separator(v, i as int),
        decreases argv.len() - i,
    {
        assert(v[i as int] == argv@[i as int]@);
        i = i + 1;
    }
    if i == argv.len() {
        return Err(ArgvError::MissingSeparator);
    }
    assert(v[i as int] == argv@[i as int]@);
    assert(separator(v, 0) == i);
    if supports_argv0 {
        argv.insert(i, CODEX_LINUX_SANDBOX_ARG0.to_owned());
        argv.insert(i, "--argv0".to_owned());
        assert(text::string_views(argv@) =~= v.take(i as int) + seq![
            "--argv0"@,
            CODEX_LINUX_SANDBOX_ARG0@,
        ] + v.skip(i as int));
        return Ok(());
    }
    if argv.len() - i < 2 {
        return Err(ArgvError::MissingCommand);
    }
    argv.set(i + 1, argv0_fallback_command);
    assert(text::string_views(argv@) =~= v.update(i + 1, argv0_fallback_command@));
    Ok(())
}

// ---- trying to mount /proc ----

/// Whether what bubblewrap printed says that it could not mount `/proc`.
pub open spec fn proc_mount_failed(s: Seq<char>) -> bool {
    &&& text::has_sub(s, "Can't mount proc"@)
    &&& text::has_sub(s, "/newroot/proc"@)
    &&& (text::has_sub(s, "Invalid argument"@) || text::has_sub(s, "Operation not permitted"@)
        || text::has_sub(s, "Permission denied"@))
}

/// Decides `proc_mount_failed`.
pub fn is_proc_mount_failure(stderr: &str) -> (r: bool)
    ensures
        r == proc_mount_failed(stderr@),
{
    let c = text::chars_of(stderr);
    let s = c.as_slice();
    text::contains_str(s, "Can't mount proc") && text::contains_str(s, "/newroot/proc") && (
    text::contains_str(s, "Invalid argument") || text::contains_str(s, "Operation not permitted")
        || text::contains_str(s, "Permission denied"))
}

/// Whether `/proc` is mounted in the real run: as asked for, unless the trial printed that
/// it cannot be mounted.
pub fn mount_proc_after_preflight(mount_proc: bool, preflight_stderr: &str) -> (r: bool)
    ensures
        r == (mount_proc && !proc_mount_failed(preflight_stderr@)),
{
    mount_proc && !is_proc_mount_failure(preflight_stderr)
}

/// The command of the trial run: the first of two usual places of `true` that exists, or
/// else its bare name.
pub fn resolve_true_command(usr_bin_exists: bool, bin_exists: bool) -> (r: &'static str)
    ensures
        r@ == if usr_bin_exists {
            "/usr/bin/true"@
        } else if bin_exists {
            "/bin/true"@
        } else {
            "true"@
        },
{
    if usr_bin_exists {
        "/usr/bin/true"
    } else if bin_exists {
        "/bin/true"
    } else {
        "true"
    }
}

// ---- how the helper exits ----

/// Calls `libc::WIFEXITED`: whether the low seven bits of a wait status are zero.
#[verifier::external_body]
fn exited(status: i32) -> (r: bool)
    ensures
        r == (status & 0x7f == 0),
{
    libc::WIFEXITED(status)
}

/// Calls `libc::WEXITSTATUS`: the second byte of a wait status.
#[verifier::external_body]
fn exit_status(status: i32) -> (r: i32)
    ensures
        r == (status >> 8) & 0xff,
{
    libc::WEXITSTATUS(status)
}

/// Calls `libc::WIFSIGNALED`: whether the low seven bits are neither zero nor all ones.
#[verifier::external_body]
fn signaled(status: i32) -> (r: bool)
    ensures
        r == (status & 0x7f != 0 && status & 0x7f != 0x7f),
{
    libc::WIFSIGNALED(status)
}

/// Calls `libc::WTERMSIG`: the low seven bits of a wait status.
#[verifier::external_body]
fn term_signal(status: i32) -> (r: i32)
    ensures
        r == status & 0x7f,
{
    libc::WTERMSIG(status)
}

/// How the helper ends after its child did.
#[derive(Clone, Copy, Debug, PartialEq, Eq, Structural)]
pub enum ExitPlan {
    /// Exit with this code.
    Code(i32),
    /// Die of the same signal; where that does not happen, exit with this code.
    Signal { signal: i32, fallback_code: i32 },
}

/// How the helper ends after a child with this wait status.
pub open spec fn exit_of(status: i32) -> ExitPlan {
    if status & 0x7f == 0 {
        ExitPlan::Code((status >> 8) & 0xff)
    } else if status & 0x7f != 0x7f {
        ExitPlan::Signal {
            signal: status & 0x7f,
            fallback_code: (128 + (status & 0x7f)) as i32,
        }
    } else {
        ExitPlan::Code(1)
    }
}

/// How the helper ends after a child with this wait status.
pub fn exit_with_wait_status(status: i32) -> (r: ExitPlan)
    ensures
        r == exit_of(status),
{
    if exited(status) {
        return ExitPlan::Code(exit_status(status));
    }
    if signaled(status) {
        let signal = term_signal(status);
        assert(0 <= status & 0x7f <= 0x7f) by (bit_vector);
        return ExitPlan::Signal { signal, fallback_code: 128 + signal };
    }
    ExitPlan::Code(1)
}

/// How the helper ends: as its child did, but not with success where the child created
/// a path that it may not create.
pub fn exit_with_wait_status_or_policy_violation(
    status: i32,
    protected_create_violation: bool,
) -> (r: ExitPlan)
    ensures
        r == if protected_create_violation && exit_of(status) == ExitPlan::Code(0) {
            ExitPlan::Code(1)
        } else {
            exit_of(status)
        },
{
    if protected_create_violation && exited(status) && exit_status(status) == 0 {
        return ExitPlan::Code(1);
    }
    exit_with_wait_status(status)
}

/// A command that may not write the whole disk is never run by this process unrestricted:
/// it goes through bubblewrap, through the older enforcement, or already is inside.
pub proof fn write_limits_are_enforced(
    command: LandlockCommand,
    derived: Result<LegacyPolicy, String>,
)
    ensures
        launch(command, derived) matches Ok(plan)
            ==> !plan.policies.file_system_spec().view.full_disk_write ==> match plan.step {
            LaunchStep::Inner { .. } => command.apply_seccomp_then_exec,
            LaunchStep::Restrict { restrictions } => restrictions.apply_landlock_fs,
            LaunchStep::Bubblewrap { .. } => true,
        },
{
}

/// A policy that only direct runtime enforcement can enforce is never left to the older
/// enforcement.
pub proof fn landlock_never_runs_what_it_cannot_enforce(
    command: LandlockCommand,
    derived: Result<LegacyPolicy, String>,
)
    ensures
        launch(command, derived) matches Ok(plan)
            ==> plan.policies.file_system_spec().direct_enforcement ==> !command.use_legacy_landlock,
{
}

/// What the inner stage is told to run comes last, behind the separator.
pub proof fn inner_command_ends_with_command(a: InnerSeccompCommandArgs)
    ensures
        ({
            let v = inner_command(a);
            let n = a.command@.len();
            v.len() > n && v[v.len() - n - 1] == "--"@ && v.skip(v.len() - n)
                == text::string_views(a.command@)
        }),
{
    let v = inner_command(a);
    let n = a.command@.len();
    assert(v.skip(v.len() - n) =~= text::string_views(a.command@));
}

/// A violation is never reported as success.
pub proof fn violations_do_not_succeed(status: i32)
    ensures
        (if exit_of(status) == ExitPlan::Code(0) {
            ExitPlan::Code(1)
        } else {
            exit_of(status)
        }) != ExitPlan::Code(0),
{
}

/// Two policies allow the same only if they agree in all that they allow: the whole disk, the
/// defaults of the platform, every root that may be read or not, and every root that may be written
/// with what may not be written below it.
pub proof fn equal_access_is_equal_everywhere(a: FileSystemView, b: FileSystemView, i: int, k: int)
    requires
        same_access(a, b),
    ensures
        a.full_disk_read == b.full_disk_read && a.full_disk_write == b.full_disk_write,
        a.platform_defaults == b.platform_defaults,
        a.readable_roots@.len() == b.readable_roots@.len(),
        a.unreadable_roots@.len() == b.unreadable_roots@.len(),
        a.writable_roots@.len() == b.writable_roots@.len(),
        0 <= i < a.readable_roots@.len() ==> paths::same_path(
            a.readable_roots@[i]@,
            b.readable_roots@[i]@,
        ),
        0 <= i < a.unreadable_roots@.len() ==> paths::same_path(
            a.unreadable_roots@[i]@,
            b.unreadable_roots@[i]@,
        ),
        0 <= i < a.writable_roots@.len() ==> {
            let x = a.writable_roots@[i];
            let y = b.writable_roots@[i];
            &&& paths::same_path(x.root@, y.root@)
            &&& x.read_only_subpaths@.len() == y.read_only_subpaths@.len()
            &&& 0 <= k < x.read_only_subpaths@.len() ==> paths::same_path(
                x.read_only_subpaths@[k]@,
                y.read_only_subpaths@[k]@,
            )
            &&& x.protected_metadata_names@.len() == y.protected_metadata_names@.len()
            &&& 0 <= k < x.protected_metadata_names@.len() ==> x.protected_metadata_names@[k]@
                == y.protected_metadata_names@[k]@
        },
{
    if 0 <= i < a.readable_roots@.len() {
        assert(text::string_views(a.readable_roots@)[i] == a.readable_roots@[i]@);
        assert(text::string_views(b.readable_roots@)[i] == b.readable_roots@[i]@);
    }
    if 0 <= i < a.unreadable_roots@.len() {
        assert(text::string_views(a.unreadable_roots@)[i] == a.unreadable_roots@[i]@);
        assert(text::string_views(b.unreadable_roots@)[i] == b.unreadable_roots@[i]@);
    }
    if 0 <= i < a.writable_roots@.len() {
        let x = a.writable_roots@[i];
        let y = b.writable_roots@[i];
        assert(same_root(x, y));
        let p = text::string_views(x.read_only_subpaths@);
        let q = text::string_views(y.read_only_subpaths@);
        assert(p.len() == x.read_only_subpaths@.len() && q.len() == y.read_only_subpaths@.len());
        if 0 <= k < p.len() {
            assert(p[k] == x.read_only_subpaths@[k]@);
            assert(q[k] == y.read_only_subpaths@[k]@);
        }
        let m = text::string_views(x.protected_metadata_names@);
        let n = text::string_views(y.protected_metadata_names@);
        assert(m.len() == x.protected_metadata_names@.len() && n.len()
            == y.protected_metadata_names@.len());
        if 0 <= k < m.len() {
            assert(m[k] == x.protected_metadata_names@[k]@);
            assert(n[k] == y.protected_metadata_names@[k]@);
        }
    }
}

/// A policy allows the same as itself.
pub proof fn policies_match_themselves(a: LegacyPolicy)
    ensures
        same_semantics(a, a),
{
}

/// What is in force is what was given: the split policies where they were given, always both, and
/// else the one policy with its network; a policy that was given beside them is kept.
pub proof fn given_policies_are_in_force(
    sandbox_policy: Option<LegacyPolicy>,
    file_system: Option<FileSystemPolicy>,
    network_enabled: Option<bool>,
    derived: Result<LegacyPolicy, String>,
)
    ensures
        resolved(sandbox_policy, file_system, network_enabled, derived) matches Ok(p) ==> {
            &&& file_system is Some <==> network_enabled is Some
            &&& file_system is Some || sandbox_policy is Some
            &&& file_system matches Some(fs) ==> p.file_system_spec() == fs && Some(
                p.network_enabled,
            ) == network_enabled
            &&& sandbox_policy matches Some(legacy) ==> p.sandbox_policy == legacy && (
            file_system is None ==> p.file_system_spec() == legacy.file_system && p.network_enabled
                == legacy.network_enabled)
            &&& sandbox_policy is None ==> derived == Ok::<LegacyPolicy, String>(p.sandbox_policy)
            &&& sandbox_policy is Some && file_system is Some && !file_system->0.direct_enforcement
                ==> derived is Ok && same_semantics(sandbox_policy->0, derived->Ok_0)
        },
        file_system is Some != network_enabled is Some ==> resolved(
            sandbox_policy,
            file_system,
            network_enabled,
            derived,
        ) == Err::<EffectiveSandboxPolicies, ResolveSandboxPoliciesError>(
            ResolveSandboxPoliciesError::PartialSplitPolicies,
        ),
        sandbox_policy is None && file_system is None && network_enabled is None ==> resolved(
            sandbox_policy,
            file_system,
            network_enabled,
            derived,
        ) == Err::<EffectiveSandboxPolicies, ResolveSandboxPoliciesError>(
            ResolveSandboxPoliciesError::MissingConfiguration,
        ),
{
}

/// A launch runs the command that was given, where it was given; and it is refused only for a
/// reason: without a command, for an inner stage with the old mechanism, without policies, for
/// policies that the old mechanism cannot enforce, or without the routes that its proxy needs.
pub proof fn launches_run_their_own_command(
    c: LandlockCommand,
    derived: Result<LegacyPolicy, String>,
)
    ensures
        launch(c, derived) matches Ok(plan) ==> plan.command == c.command && plan.command@.len() > 0
            && plan.command_cwd == c.command_cwd && plan.sandbox_policy_cwd == c.sandbox_policy_cwd
            && Ok::<EffectiveSandboxPolicies, ResolveSandboxPoliciesError>(plan.policies)
            == resolved(
            c.sandbox_policy,
            c.file_system_sandbox_policy,
            c.network_sandbox_policy,
            derived,
        ),
        launch(c, derived) matches Err(LaunchRefusal::NoCommand) ==> c.command@.len() == 0,
        launch(c, derived) matches Err(LaunchRefusal::InnerStageWithLandlock)
            ==> c.apply_seccomp_then_exec && c.use_legacy_landlock,
        launch(c, derived) matches Err(LaunchRefusal::MissingRouteSpec) ==> c.apply_seccomp_then_exec
            && c.allow_network_for_proxy && c.proxy_route_spec is None,
        launch(c, derived) matches Err(LaunchRefusal::LandlockCannotEnforce)
            ==> c.use_legacy_landlock,
        c.command@.len() == 0 ==> launch(c, derived) is Err,
{
}

/// A sandbox that is built has no network unless the policy has it or a proxy gives it; the proxy's
/// routes are prepared exactly where it is used, and the inner stage opens those that it was told.
pub proof fn sandboxes_have_the_network_they_may_have(
    c: LandlockCommand,
    p: EffectiveSandboxPolicies,
)
    ensures
        step_of(c, p) matches LaunchStep::Bubblewrap {
            prepare_proxy_routes,
            mount_proc,
            network_mode,
        } ==> {
            &&& prepare_proxy_routes == c.allow_network_for_proxy
            &&& mount_proc == !c.no_proc
            &&& network_mode is FullAccess <==> p.network_enabled && !c.allow_network_for_proxy
            &&& network_mode is ProxyOnly <==> c.allow_network_for_proxy
            &&& network_mode is Isolated <==> !p.network_enabled && !c.allow_network_for_proxy
            &&& !c.apply_seccomp_then_exec && !c.use_legacy_landlock
        },
        step_of(c, p) matches LaunchStep::Inner { proxy_routes, restrictions } ==> {
            &&& c.apply_seccomp_then_exec
            &&& c.allow_network_for_proxy ==> proxy_routes == c.proxy_route_spec
            &&& !c.allow_network_for_proxy ==> proxy_routes is None
            &&& restrictions.allow_network_for_proxy == c.allow_network_for_proxy
            &&& restrictions.proxy_routed_network == c.allow_network_for_proxy
            &&& !restrictions.apply_landlock_fs
        },
        step_of(c, p) matches LaunchStep::Restrict { restrictions } ==> {
            &&& !c.apply_seccomp_then_exec
            &&& restrictions.allow_network_for_proxy ==> c.allow_network_for_proxy
            &&& !restrictions.proxy_routed_network
            &&& restrictions.apply_landlock_fs <==> !(p.file_system_spec().view.full_disk_write
                && !c.allow_network_for_proxy)
        },
        c.apply_seccomp_then_exec <==> step_of(c, p) is Inner,
{
}

/// Whether a flag stands in a command right before its value.
pub open spec fn is_told(argv: Seq<Seq<char>>, flag: Seq<char>, value: Seq<char>) -> bool {
    exists|i: int|
        0 <= i < argv.len() - 1 && #[trigger] argv[i] == flag && argv[i + 1] == value
}

/// The inner stage is told every policy, where it applies, the directory of the command where it has
/// one, and the routes of its proxy where it has one.
pub proof fn inner_commands_are_told_every_policy(a: InnerSeccompCommandArgs)
    ensures
        ({
            let argv = inner_command(a);
            &&& argv[0] == a.current_exe@
            &&& is_told(argv, "--sandbox-policy-cwd"@, a.sandbox_policy_cwd@)
            &&& is_told(argv, "--sandbox-policy"@, a.sandbox_policy@)
            &&& is_told(argv, "--file-system-sandbox-policy"@, a.file_system_sandbox_policy@)
            &&& is_told(argv, "--network-sandbox-policy"@, a.network_sandbox_policy@)
            &&& argv.contains("--apply-seccomp-then-exec"@)
            &&& a.command_cwd matches Some(cwd) ==> is_told(argv, "--command-cwd"@, cwd@)
            &&& a.allow_network_for_proxy && a.proxy_route_spec is Some ==> argv.contains(
                "--allow-network-for-proxy"@,
            ) && is_told(argv, "--proxy-route-spec"@, a.proxy_route_spec->0@)
        }),
{
    let argv = inner_command(a);
    let n: int = if a.command_cwd is Some {
        2
    } else {
        0
    };
    assert(argv[1] == "--sandbox-policy-cwd"@ && argv[2] == a.sandbox_policy_cwd@);
    if a.command_cwd is Some {
        assert(argv[3] == "--command-cwd"@ && argv[4] == a.command_cwd->0@);
    }
    assert(argv[3 + n] == "--sandbox-policy"@ && argv[3 + n + 1] == a.sandbox_policy@);
    assert(argv[5 + n] == "--file-system-sandbox-policy"@ && argv[5 + n + 1]
        == a.file_system_sandbox_policy@);
    assert(argv[7 + n] == "--network-sandbox-policy"@ && argv[7 + n + 1]
        == a.network_sandbox_policy@);
    assert(argv[9 + n] == "--apply-seccomp-then-exec"@);
    if a.allow_network_for_proxy && a.proxy_route_spec is Some {
        assert(argv[10 + n] == "--allow-network-for-proxy"@);
        assert(argv[11 + n] == "--proxy-route-spec"@ && argv[11 + n + 1]
            == a.proxy_route_spec->0@);
    }
}

/// The command is what follows the first pair of dashes.
pub proof fn commands_follow_the_first_dashes(argv: Seq<Seq<char>>, i: int)
    requires
        0 <= i <= argv.len(),
    ensures
        ({
            let k = separator(argv, i);
            &&& i <= k <= argv.len()
            &&& k < argv.len() ==> argv[k] == "--"@
            &&& forall|j: int| i <= j < k ==> #[trigger] argv[j] != "--"@
        }),
    decreases argv.len() - i,
{
    if i < argv.len() && argv[i] != "--"@ {
        commands_follow_the_first_dashes(argv, i + 1);
    }
}

/// The sandbox ends as the command did: with its code, or of its signal.
pub proof fn the_sandbox_ends_as_its_command(code: i32, signal: i32)
    requires
        0 <= code <= 255,
        1 <= signal <= 126,
    ensures
        exit_of((code * 256) as i32) == ExitPlan::Code(code),
        exit_of(signal) == (ExitPlan::Signal { signal, fallback_code: (128 + signal) as i32 }),
{
    let status = (code * 256) as i32;
    assert(status & 0x7f == 0 && (status >> 8) & 0xff == code) by (bit_vector)
        requires
            status == code * 256,
            0 <= code <= 255,
    ;
    assert(signal & 0x7f == signal) by (bit_vector)
        requires
            1 <= signal <= 126,
    ;
}

} // verus!
