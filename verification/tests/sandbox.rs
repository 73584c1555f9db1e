use codex_workbench::mount_targets::after_protected_removal;
use codex_workbench::mount_targets::ancestor_has_git_metadata;
use codex_workbench::mount_targets::append_metadata_path_masks_for_writable_root;
use codex_workbench::mount_targets::append_protected_create_targets_for_writable_root;
use codex_workbench::mount_targets::cleanup_protected_create_targets;
use codex_workbench::mount_targets::cleanup_synthetic_mount_target;
use codex_workbench::mount_targets::FileFacts;
use codex_workbench::mount_targets::FileIdentity;
use codex_workbench::mount_targets::FileKind;
use codex_workbench::mount_targets::FileSystemPermissionsEnforcement;
use codex_workbench::mount_targets::hash_path;
use codex_workbench::mount_targets::Marker;
use codex_workbench::mount_targets::marker_process;
use codex_workbench::mount_targets::metadata_runtime_marker_dir;
use codex_workbench::mount_targets::PROTECTED_REMOVAL_ATTEMPTS;
use codex_workbench::mount_targets::ProtectedCleanup;
use codex_workbench::mount_targets::ProtectedCreateTarget;
use codex_workbench::mount_targets::ProtectedStep;
use codex_workbench::mount_targets::register_synthetic_mount_target;
use codex_workbench::mount_targets::Removal;
use codex_workbench::mount_targets::removal_is_settled;
use codex_workbench::mount_targets::RemovalOutcome;
use codex_workbench::mount_targets::RemovalRule;
use codex_workbench::mount_targets::decide_protected_cleanup;
use codex_workbench::mount_targets::scan_markers;
use codex_workbench::mount_targets::should_leave_missing_git_for_parent_repo_discovery;
use codex_workbench::mount_targets::synthetic_mount_marker_contents;
use codex_workbench::mount_targets::SYNTHETIC_MOUNT_MARKER_SYNTHETIC;
use codex_workbench::mount_targets::SyntheticMountTarget;
use codex_workbench::mount_targets::violation_message;
use codex_workbench::mount_targets::watched_parents;
use codex_workbench::sandbox_launch::apply_inner_command_argv0_for_launcher;
use codex_workbench::sandbox_launch::ArgvError;
use codex_workbench::sandbox_launch::build_bwrap_argv;
use codex_workbench::sandbox_launch::build_inner_seccomp_command;
use codex_workbench::sandbox_launch::bwrap_network_mode;
use codex_workbench::sandbox_launch::BwrapNetworkMode;
use codex_workbench::sandbox_launch::CODEX_LINUX_SANDBOX_ARG0;
use codex_workbench::sandbox_launch::exit_with_wait_status;
use codex_workbench::sandbox_launch::exit_with_wait_status_or_policy_violation;
use codex_workbench::sandbox_launch::ExitPlan;
use codex_workbench::sandbox_launch::file_system_sandbox_policies_match_semantics;
use codex_workbench::sandbox_launch::WritableRoot;
use codex_workbench::sandbox_launch::FileSystemPolicy;
use codex_workbench::sandbox_launch::FileSystemView;
use codex_workbench::sandbox_launch::InnerSeccompCommandArgs;
use codex_workbench::sandbox_launch::is_proc_mount_failure;
use codex_workbench::sandbox_launch::LandlockCommand;
use codex_workbench::sandbox_launch::LaunchRefusal;
use codex_workbench::sandbox_launch::LaunchStep;
use codex_workbench::sandbox_launch::LegacyPolicy;
use codex_workbench::sandbox_launch::mount_proc_after_preflight;
use codex_workbench::sandbox_launch::resolve_sandbox_policies;
use codex_workbench::sandbox_launch::resolve_true_command;
use codex_workbench::sandbox_launch::ResolveSandboxPoliciesError;
use codex_workbench::sandbox_launch::run_main;
use codex_workbench::sandbox_summary::ManagedFileSystem;
use codex_workbench::sandbox_summary::PermissionProfile;
use codex_workbench::sandbox_summary::summarize_permission_profile;

fn strings(list: &[&str]) -> Vec<String> {
    list.iter().map(|s| s.to_string()).collect()
}

const EMPTY_FILE: FileFacts = FileFacts {
    kind: FileKind::File,
    len: 0,
    identity: FileIdentity { dev: 1, ino: 2 },
};

const DIRECTORY: FileFacts = FileFacts {
    kind: FileKind::Directory,
    len: 4096,
    identity: FileIdentity { dev: 1, ino: 3 },
};

fn marker(name: &str, process_active: bool, contents: &str) -> Marker {
    Marker {
        name: name.to_string(),
        process_active,
        contents: Some(contents.as_bytes().to_vec()),
    }
}

#[test]
fn cleanup_synthetic_mount_targets_removes_only_empty_mount_targets() {
    let empty_file = SyntheticMountTarget::missing("/w/.git");
    let empty_dir = SyntheticMountTarget::missing_empty_directory("/w/.agents");
    let non_empty_file = SyntheticMountTarget::missing("/w/non-empty");
    let missing_file = SyntheticMountTarget::missing("/w/.missing");
    let full = FileFacts {
        len: 4,
        ..EMPTY_FILE
    };

    assert_eq!(
        cleanup_synthetic_mount_target(&empty_file, &[], Some(EMPTY_FILE)),
        Removal::File
    );
    assert_eq!(
        cleanup_synthetic_mount_target(&empty_dir, &[], Some(DIRECTORY)),
        Removal::Directory
    );
    assert_eq!(
        cleanup_synthetic_mount_target(&non_empty_file, &[], Some(full)),
        Removal::Nothing
    );
    assert_eq!(
        cleanup_synthetic_mount_target(&missing_file, &[], None),
        Removal::Nothing
    );
}

#[test]
fn cleanup_synthetic_mount_targets_waits_for_other_active_registrations() {
    let target = SyntheticMountTarget::missing("/w/.git");
    let active = [marker("1", true, "")];

    let registered = register_synthetic_mount_target(&target, &[]);
    assert_eq!(
        cleanup_synthetic_mount_target(&registered, &active, Some(EMPTY_FILE)),
        Removal::Nothing
    );

    let registered = register_synthetic_mount_target(&target, &[]);
    assert_eq!(
        cleanup_synthetic_mount_target(&registered, &[], Some(EMPTY_FILE)),
        Removal::File
    );
}

#[test]
fn cleanup_synthetic_mount_targets_removes_transient_file_after_concurrent_owner_exits() {
    let first_target = SyntheticMountTarget::missing("/w/.git");
    let first = register_synthetic_mount_target(&first_target, &[]);
    let active = [marker("1", true, SYNTHETIC_MOUNT_MARKER_SYNTHETIC)];
    let second_target = SyntheticMountTarget::existing_empty_file("/w/.git", &EMPTY_FILE);
    let second = register_synthetic_mount_target(&second_target, &active);

    assert_eq!(
        cleanup_synthetic_mount_target(&first, &active, Some(EMPTY_FILE)),
        Removal::Nothing
    );
    assert_eq!(
        cleanup_synthetic_mount_target(&second, &[], Some(EMPTY_FILE)),
        Removal::File
    );
}

#[test]
fn cleanup_synthetic_mount_targets_preserves_real_pre_existing_empty_file() {
    let first_target = SyntheticMountTarget::existing_empty_file("/w/.git", &EMPTY_FILE);
    let second_target = SyntheticMountTarget::existing_empty_file("/w/.git", &EMPTY_FILE);
    let first = register_synthetic_mount_target(&first_target, &[]);
    let first_marker = [marker("1", true, synthetic_mount_marker_contents(&first))];
    let second = register_synthetic_mount_target(&second_target, &first_marker);

    assert_eq!(
        cleanup_synthetic_mount_target(&first, &[], Some(EMPTY_FILE)),
        Removal::Nothing
    );
    assert_eq!(
        cleanup_synthetic_mount_target(&second, &[], Some(EMPTY_FILE)),
        Removal::Nothing
    );
}

#[test]
fn cleanup_protected_create_targets_removes_created_path_and_reports_violation() {
    let step = after_protected_removal(0, RemovalOutcome::Removed, RemovalRule::Insist);
    assert_eq!(step, ProtectedStep::Report);
    assert!(cleanup_protected_create_targets(&[ProtectedCleanup::Ended(step)]));
}

#[test]
fn cleanup_protected_create_targets_waits_for_other_active_registrations() {
    let in_use = decide_protected_cleanup(&[marker("1", true, "protected-create\n")], true)
        .expect("the path is in use");
    assert_eq!(
        in_use,
        ProtectedCleanup::InUse {
            exists_on_disk: true
        }
    );
    assert_eq!(decide_protected_cleanup(&[], true), None);
    assert!(cleanup_protected_create_targets(&[in_use]));
    let step = after_protected_removal(0, RemovalOutcome::Removed, RemovalRule::Insist);
    assert!(cleanup_protected_create_targets(&[ProtectedCleanup::Ended(step)]));
    let nothing = after_protected_removal(0, RemovalOutcome::NotFound, RemovalRule::Insist);
    assert!(!cleanup_protected_create_targets(&[ProtectedCleanup::Ended(nothing)]));
}

#[test]
fn protected_paths_that_cannot_be_removed_are_tried_again() {
    assert_eq!(
        after_protected_removal(0, RemovalOutcome::DirectoryNotEmpty, RemovalRule::Insist),
        ProtectedStep::Retry
    );
    assert_eq!(
        after_protected_removal(
            PROTECTED_REMOVAL_ATTEMPTS - 1,
            RemovalOutcome::DirectoryNotEmpty,
            RemovalRule::Insist
        ),
        ProtectedStep::Fail
    );
    assert_eq!(
        after_protected_removal(
            PROTECTED_REMOVAL_ATTEMPTS - 1,
            RemovalOutcome::DirectoryNotEmpty,
            RemovalRule::BestEffort
        ),
        ProtectedStep::AssumeViolation
    );
}

#[test]
fn launcher_tries_a_removal_once() {
    let once = |outcome| after_protected_removal(0, outcome, RemovalRule::Once);
    assert_eq!(once(RemovalOutcome::Removed), ProtectedStep::Report);
    assert_eq!(once(RemovalOutcome::NotFound), ProtectedStep::Clean);
    assert_eq!(once(RemovalOutcome::Vanished), ProtectedStep::Fail);
    assert_eq!(once(RemovalOutcome::DirectoryNotEmpty), ProtectedStep::Fail);
    assert_eq!(once(RemovalOutcome::Failed), ProtectedStep::Fail);
    assert_eq!(
        after_protected_removal(0, RemovalOutcome::Vanished, RemovalRule::Insist),
        ProtectedStep::Clean
    );
}

#[test]
fn markers_of_ended_processes_are_stale() {
    let scan = scan_markers(
        &[marker("7", false, ""), marker("x", true, ""), marker("9", true, "")],
        false,
    );
    assert!(scan.active);
    assert_eq!(scan.stale, vec![0]);
    assert_eq!(marker_process("12"), Some(12));
    assert_eq!(marker_process("a"), None);
    assert!(!scan_markers(&[marker("9", true, "existing\n")], true).active);
}

#[test]
fn path_hashes_are_fnv() {
    assert_eq!(hash_path(b""), 0xcbf2_9ce4_8422_2325);
    assert_eq!(hash_path(b"a"), 0xaf63_dc4c_8601_ec8c);
}

#[test]
fn metadata_masks_are_added_once() {
    let names = strings(&[".git", ".codex"]);
    let mut subpaths = strings(&["/w/.codex"]);
    append_metadata_path_masks_for_writable_root(&mut subpaths, "/w", &names, false);
    append_metadata_path_masks_for_writable_root(&mut subpaths, "/w", &names, false);
    assert_eq!(subpaths, strings(&["/w/.codex", "/w/.git"]));
}

#[test]
fn repositories_are_told_by_their_metadata() {
    assert!(ancestor_has_git_metadata(Some(FileKind::Directory), true, None));
    assert!(!ancestor_has_git_metadata(Some(FileKind::Directory), false, None));
    assert!(ancestor_has_git_metadata(Some(FileKind::File), false, Some("gitdir: x")));
    assert!(!ancestor_has_git_metadata(Some(FileKind::File), false, Some("x")));
    assert!(!ancestor_has_git_metadata(None, true, None));
}

#[test]
fn parents_are_watched_for_each_target() {
    let targets = [
        ProtectedCreateTarget::missing("/w/.git"),
        ProtectedCreateTarget::missing("/w/.codex"),
        ProtectedCreateTarget::missing("/v/.git"),
    ];
    assert_eq!(watched_parents(&targets), strings(&["/w", "/v"]));
    assert_eq!(
        violation_message("/w/.git", RemovalRule::Insist),
        "sandbox blocked creation of protected workspace metadata path /w/.git"
    );
    assert_eq!(
        violation_message("/w/.git", RemovalRule::Once),
        "sandbox blocked creation of preserved workspace metadata path /w/.git"
    );
}

// ---- the launcher ----

fn writable_root(root: &str, read_only: &[&str]) -> WritableRoot {
    WritableRoot {
        root: root.to_string(),
        read_only_subpaths: strings(read_only),
        protected_metadata_names: strings(&[".git"]),
    }
}

#[test]
fn roots_are_compared_as_paths() {
    let with = |root: &str, read_only: &[&str]| FileSystemView {
        writable_roots: vec![writable_root(root, read_only)],
        ..view(false, &[])
    };
    assert!(file_system_sandbox_policies_match_semantics(
        &with("/w", &["/w/a"]),
        &with("/w/", &["/w//a"])
    ));
    assert!(!file_system_sandbox_policies_match_semantics(
        &with("/w", &["/w/a"]),
        &with("/w", &["/w/b"])
    ));
    assert!(!file_system_sandbox_policies_match_semantics(
        &with("/w", &[]),
        &with("/v", &[])
    ));
}

fn view(full: bool, writable: &[&str]) -> FileSystemView {
    FileSystemView {
        full_disk_read: true,
        full_disk_write: full,
        platform_defaults: false,
        readable_roots: Vec::new(),
        writable_roots: writable.iter().map(|root| writable_root(root, &[])).collect(),
        unreadable_roots: Vec::new(),
    }
}

fn file_system(text: &str, full: bool, writable: &[&str], direct: bool) -> FileSystemPolicy {
    FileSystemPolicy {
        text: text.to_string(),
        view: view(full, writable),
        direct_enforcement: direct,
    }
}

fn legacy(text: &str, full: bool, writable: &[&str], network_enabled: bool) -> LegacyPolicy {
    LegacyPolicy {
        text: text.to_string(),
        file_system: file_system(text, full, writable, false),
        network_enabled,
    }
}

fn launch() -> LandlockCommand {
    LandlockCommand {
        sandbox_policy_cwd: "/w".to_string(),
        command_cwd: None,
        sandbox_policy: Some(legacy("p", false, &["/w"], false)),
        file_system_sandbox_policy: None,
        network_sandbox_policy: None,
        use_legacy_landlock: false,
        apply_seccomp_then_exec: false,
        allow_network_for_proxy: false,
        proxy_route_spec: None,
        no_proc: false,
        command: strings(&["ls"]),
    }
}

fn none() -> Result<LegacyPolicy, String> {
    Err("none".to_string())
}

#[test]
fn limited_writes_are_run_in_the_sandbox() {
    let plan = run_main(launch(), none()).expect("a plan");
    assert!(matches!(
        plan.step,
        LaunchStep::Bubblewrap {
            prepare_proxy_routes: false,
            mount_proc: true,
            network_mode: BwrapNetworkMode::Isolated,
        }
    ));
    assert_eq!(plan.command, strings(&["ls"]));
    let mut full = launch();
    full.sandbox_policy = Some(legacy("p", true, &[], true));
    let plan = run_main(full, none()).expect("a plan");
    assert!(matches!(plan.step, LaunchStep::Restrict { .. }));
}

#[test]
fn impossible_launches_are_refused() {
    let mut empty = launch();
    empty.command = Vec::new();
    assert!(matches!(run_main(empty, none()), Err(LaunchRefusal::NoCommand)));
    let mut both = launch();
    both.apply_seccomp_then_exec = true;
    both.use_legacy_landlock = true;
    assert!(matches!(
        run_main(both, none()),
        Err(LaunchRefusal::InnerStageWithLandlock)
    ));
    let mut nothing = launch();
    nothing.sandbox_policy = None;
    assert!(matches!(
        run_main(nothing, none()),
        Err(LaunchRefusal::Policies(
            ResolveSandboxPoliciesError::MissingConfiguration
        ))
    ));
    let mut route = launch();
    route.apply_seccomp_then_exec = true;
    route.allow_network_for_proxy = true;
    assert!(matches!(
        run_main(route, none()),
        Err(LaunchRefusal::MissingRouteSpec)
    ));
}

#[test]
fn policies_must_agree() {
    let error = |sandbox, file_system, network, derived| {
        resolve_sandbox_policies(sandbox, file_system, network, derived)
            .err()
            .expect("an error")
            .message()
    };
    let split = || Some(file_system("f", false, &["/w"], false));
    assert_eq!(
        error(None, split(), None, none()),
        "file-system and network sandbox policies must be provided together"
    );
    assert_eq!(
        error(None, split(), Some(true), none()),
        "failed to derive legacy sandbox policy from split policies: none"
    );
    assert_eq!(
        error(
            Some(legacy("p", false, &["/v"], true)),
            split(),
            Some(true),
            Ok(legacy("d", false, &["/w"], true))
        ),
        "legacy sandbox policy must match split sandbox policies: provided=p, derived=d"
    );
    assert_eq!(error(None, None, None, none()), "missing sandbox policy configuration");
    let resolved = resolve_sandbox_policies(
        Some(legacy("p", false, &["/w"], true)),
        split(),
        Some(true),
        Ok(legacy("d", false, &["/w"], true)),
    )
    .expect("policies");
    assert_eq!(resolved.sandbox_policy.text, "p");
    assert_eq!(resolved.file_system().text, "f");
}

#[test]
fn the_inner_stage_ends_with_the_command() {
    let args = build_inner_seccomp_command(InnerSeccompCommandArgs {
        current_exe: "/bin/helper".to_string(),
        sandbox_policy_cwd: "/w".to_string(),
        command_cwd: Some("/w/sub".to_string()),
        sandbox_policy: "{}".to_string(),
        file_system_sandbox_policy: "[]".to_string(),
        network_sandbox_policy: "\"restricted\"".to_string(),
        allow_network_for_proxy: true,
        proxy_route_spec: Some("routes".to_string()),
        command: strings(&["ls", "-l"]),
    });
    assert_eq!(
        args,
        strings(&[
            "/bin/helper",
            "--sandbox-policy-cwd",
            "/w",
            "--command-cwd",
            "/w/sub",
            "--sandbox-policy",
            "{}",
            "--file-system-sandbox-policy",
            "[]",
            "--network-sandbox-policy",
            "\"restricted\"",
            "--apply-seccomp-then-exec",
            "--allow-network-for-proxy",
            "--proxy-route-spec",
            "routes",
            "--",
            "ls",
            "-l",
        ])
    );
}

#[test]
fn inner_commands_keep_their_name() {
    let mut argv = strings(&["bwrap", "--", "/bin/helper"]);
    assert_eq!(
        apply_inner_command_argv0_for_launcher(&mut argv, true, "/bin/x".to_string()),
        Ok(())
    );
    assert_eq!(
        argv,
        strings(&["bwrap", "--argv0", CODEX_LINUX_SANDBOX_ARG0, "--", "/bin/helper"])
    );
    let mut argv = strings(&["bwrap", "--", "/bin/helper"]);
    assert_eq!(
        apply_inner_command_argv0_for_launcher(&mut argv, false, "/bin/x".to_string()),
        Ok(())
    );
    assert_eq!(argv, strings(&["bwrap", "--", "/bin/x"]));
    let mut argv = strings(&["bwrap"]);
    assert_eq!(
        apply_inner_command_argv0_for_launcher(&mut argv, true, "/bin/x".to_string()),
        Err(ArgvError::MissingSeparator)
    );
}

#[test]
fn proc_failures_are_told_by_their_text() {
    assert!(is_proc_mount_failure(
        "bwrap: Can't mount proc on /newroot/proc: Operation not permitted"
    ));
    assert!(!is_proc_mount_failure("bwrap: Can't mount proc on /newroot/proc: busy"));
    assert!(!is_proc_mount_failure("Operation not permitted"));
}

#[test]
fn the_network_is_open_only_where_both_say_so() {
    assert_eq!(bwrap_network_mode(true, false), BwrapNetworkMode::FullAccess);
    assert_eq!(bwrap_network_mode(false, false), BwrapNetworkMode::Isolated);
    assert_eq!(bwrap_network_mode(true, true), BwrapNetworkMode::ProxyOnly);
}

#[test]
fn wait_statuses_are_passed_on() {
    assert_eq!(exit_with_wait_status(3 << 8), ExitPlan::Code(3));
    assert_eq!(
        exit_with_wait_status(9),
        ExitPlan::Signal {
            signal: 9,
            fallback_code: 137
        }
    );
    assert_eq!(exit_with_wait_status(0x137f), ExitPlan::Code(1));
    assert_eq!(
        exit_with_wait_status_or_policy_violation(0, true),
        ExitPlan::Code(1)
    );
    assert_eq!(
        exit_with_wait_status_or_policy_violation(3 << 8, true),
        ExitPlan::Code(3)
    );
}

// ---- summaries ----

const TEMP: &str = "/var/tmp/session";

fn managed(full_disk_write: bool, full_disk_read: bool, roots: &[&str], network_enabled: bool) -> PermissionProfile {
    PermissionProfile::Managed {
        file_system: ManagedFileSystem {
            full_disk_write,
            full_disk_read,
            writable_roots: strings(roots),
        },
        network_enabled,
    }
}

#[test]
fn summarizes_external_sandbox_without_network_access_suffix() {
    let profile = PermissionProfile::External {
        network_enabled: false,
    };
    assert_eq!(
        summarize_permission_profile(&profile, "/repo", TEMP),
        "external-sandbox"
    );
}

#[test]
fn summarizes_external_sandbox_with_enabled_network() {
    let profile = PermissionProfile::External {
        network_enabled: true,
    };
    assert_eq!(
        summarize_permission_profile(&profile, "/repo", TEMP),
        "external-sandbox (network access enabled)"
    );
}

#[test]
fn summarizes_read_only_with_enabled_network() {
    let profile = managed(false, true, &[], true);
    assert_eq!(
        summarize_permission_profile(&profile, "/repo", TEMP),
        "read-only (network access enabled)"
    );
}

#[test]
fn unrestricted_filesystem_without_network_is_custom_permissions() {
    let profile = managed(true, true, &[], false);
    assert_eq!(
        summarize_permission_profile(&profile, "/repo", TEMP),
        "custom permissions"
    );
}

#[test]
fn workspace_write_summary_still_includes_network_access() {
    let profile = managed(false, true, &["/workdir", "/repo"], true);
    assert_eq!(
        summarize_permission_profile(&profile, "/workdir", TEMP),
        "workspace-write [workdir, /repo] (network access enabled)"
    );
}

#[test]
fn temporary_directories_are_named() {
    let profile = managed(false, true, &["/tmp", "/var/tmp/session/"], false);
    assert_eq!(
        summarize_permission_profile(&profile, "/workdir", TEMP),
        "workspace-write [/tmp, $TMPDIR]"
    );
    assert_eq!(
        summarize_permission_profile(&PermissionProfile::Disabled, "/workdir", TEMP),
        "danger-full-access"
    );
}

#[test]
fn creatable_names_are_protected() {
    let mut enforcement = FileSystemPermissionsEnforcement {
        synthetic_mount_targets: Vec::new(),
        protected_create_targets: Vec::new(),
    };
    append_protected_create_targets_for_writable_root(
        &mut enforcement,
        &strings(&[".git", ".agents", ".codex"]),
        "/work",
        None,
        &strings(&["/work/.agents"]),
        &[false, false, true],
    );
    let paths: Vec<&str> = enforcement
        .protected_create_targets
        .iter()
        .map(|target| target.path.as_str())
        .collect();
    assert_eq!(paths, ["/work/.git"]);
    append_protected_create_targets_for_writable_root(
        &mut enforcement,
        &strings(&[".git"]),
        "/link",
        Some("/real"),
        &[],
        &[false],
    );
    assert_eq!(enforcement.protected_create_targets[1].path, "/real/.git");
}

#[test]
fn repository_of_a_parent_stays_visible() {
    assert!(should_leave_missing_git_for_parent_repo_discovery(".git", true, true));
    assert!(!should_leave_missing_git_for_parent_repo_discovery(".git", false, true));
    assert!(!should_leave_missing_git_for_parent_repo_discovery(".git", true, false));
    assert!(!should_leave_missing_git_for_parent_repo_discovery(".codex", true, true));
}

#[test]
fn marker_directories_are_named_by_hash() {
    assert_eq!(metadata_runtime_marker_dir(b""), "cbf29ce484222325");
    assert_eq!(metadata_runtime_marker_dir(b"a"), "af63dc4c8601ec8c");
}

#[test]
fn clean_up_leaves_what_is_in_use() {
    assert!(removal_is_settled(Removal::File, RemovalOutcome::NotFound));
    assert!(removal_is_settled(Removal::Directory, RemovalOutcome::DirectoryNotEmpty));
    assert!(!removal_is_settled(Removal::File, RemovalOutcome::DirectoryNotEmpty));
    assert!(!removal_is_settled(Removal::Directory, RemovalOutcome::Failed));
}

#[test]
fn existing_directories_are_kept() {
    let facts = FileFacts {
        kind: FileKind::Directory,
        len: 0,
        identity: FileIdentity { dev: 1, ino: 2 },
    };
    let target = SyntheticMountTarget::existing_empty_directory("/work/.git", &facts);
    assert!(target.is_directory && target.preserves_pre_existing_path());
    assert!(!target.should_remove_after_bwrap(&facts));
}

#[test]
fn trial_run_decides_about_proc() {
    assert!(mount_proc_after_preflight(true, ""));
    assert!(!mount_proc_after_preflight(false, ""));
    assert!(!mount_proc_after_preflight(
        true,
        "bwrap: Can't mount proc on /newroot/proc: Invalid argument"
    ));
    assert_eq!(resolve_true_command(true, true), "/usr/bin/true");
    assert_eq!(resolve_true_command(false, true), "/bin/true");
    assert_eq!(resolve_true_command(false, false), "true");
    assert_eq!(build_bwrap_argv(strings(&["--new-session"])), ["bwrap", "--new-session"]);
}
