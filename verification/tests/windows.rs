use codex_workbench::windows_metadata::arm_failure;
use codex_workbench::windows_metadata::stop_failure;
use codex_workbench::windows_metadata::after_enforcement;
use codex_workbench::windows_metadata::after_wait;
use codex_workbench::windows_metadata::start_failure;
use codex_workbench::windows_metadata::watch_failure;
use codex_workbench::windows_metadata::cleanup_created_paths;
use codex_workbench::windows_metadata::enforcement_error;
use codex_workbench::windows_metadata::existing_metadata_path;
use codex_workbench::windows_metadata::finish;
use codex_workbench::windows_metadata::monitor_result;
use codex_workbench::windows_metadata::monitored_paths_by_parent;
use codex_workbench::windows_metadata::protected_metadata_existing_deny_paths;
use codex_workbench::windows_metadata::removal_of;
use codex_workbench::windows_metadata::sentinel_created;
use codex_workbench::windows_metadata::unique_paths;
use codex_workbench::windows_metadata::CreateOutcome;
use codex_workbench::windows_metadata::ListenerStep;
use codex_workbench::windows_metadata::PathFacts;
use codex_workbench::windows_metadata::PathOutcome;
use codex_workbench::windows_metadata::ProtectedMetadataGuard;
use codex_workbench::windows_metadata::ProtectedMetadataMode;
use codex_workbench::windows_metadata::Removal;
use codex_workbench::windows_metadata::REPARSE_POINT;
use codex_workbench::windows_metadata::WAIT_CHANGED;
use codex_workbench::windows_metadata::WAIT_FAILED;
use codex_workbench::windows_metadata::WAIT_STOPPED;
use codex_workbench::windows_paths::canonical_path_key;
use codex_workbench::windows_paths::connection_name;
use codex_workbench::windows_paths::file_name_of;
use codex_workbench::windows_paths::parent_of;
use codex_workbench::windows_paths::path_text_key;
use codex_workbench::windows_paths::push_path;
use codex_workbench::windows_paths::resolve_sandbox_path;
use codex_workbench::windows_paths::split_mapped_drive_path;
use codex_workbench::windows_paths::with_extension;
use codex_workbench::windows_programs::is_windowsapps_path;
use codex_workbench::windows_programs::path_extensions;
use codex_workbench::windows_programs::resolve_spawn_command;
use codex_workbench::windows_programs::ProgramSearch;
use codex_workbench::windows_programs::ResolvedSpawnCommand;

fn strings(list: &[&str]) -> Vec<String> {
    list.iter().map(|s| s.to_string()).collect()
}

#[test]
fn canonical_path_key_normalizes_case_and_separators() {
    let windows_style = r"C:\Users\Dev\Repo";
    let slash_style = "c:/users/dev/repo";

    assert_eq!(
        canonical_path_key(windows_style, None, None),
        canonical_path_key(slash_style, None, None)
    );
}

#[test]
fn split_mapped_drive_path_keeps_drive_relative_paths_unchanged() {
    assert_eq!(split_mapped_drive_path(r"L:repo"), None);
}

#[test]
fn split_mapped_drive_path_extracts_drive_root_suffix() {
    assert_eq!(
        split_mapped_drive_path(r"L:\cs-web\context"),
        Some(("L:".to_string(), Some("cs-web\\context".to_string())))
    );
}

#[test]
fn mapped_drives_lead_to_network_paths() {
    let remote = Some(r"\\server\share");
    assert_eq!(
        resolve_sandbox_path(r"L:\cs-web\context", remote),
        r"\\server\share\cs-web\context"
    );
    assert_eq!(resolve_sandbox_path("L:", remote), r"\\server\share");
    assert_eq!(resolve_sandbox_path("L:/", remote), r"\\server\share");
    assert_eq!(resolve_sandbox_path("L:repo", remote), "L:repo");
    assert_eq!(resolve_sandbox_path(r"L:\a", Some("")), r"L:\a");
    assert_eq!(resolve_sandbox_path(r"L:\a", None), r"L:\a");
    assert_eq!(
        canonical_path_key(r"L:\A", remote, Some(r"D:\Real")),
        "d:/real"
    );
}

#[test]
fn connection_names_end_at_the_first_zero() {
    let buffer: Vec<u16> = "\\\\s\\x".encode_utf16().chain([0, 65]).collect();
    assert_eq!(connection_name(&buffer), "\\\\s\\x");
    assert_eq!(connection_name(&[0xD800]), "\u{FFFD}");
    assert_eq!(connection_name(&[]), "");
}

#[test]
fn paths_are_joined_at_roots_and_prefixes() {
    assert_eq!(push_path(r"C:\a", "b"), r"C:\a\b");
    assert_eq!(push_path("C:/a/", "b"), "C:/a/b");
    assert_eq!(push_path("C:", "b"), "C:b");
    assert_eq!(push_path("", "b"), "b");
    assert_eq!(push_path(r"C:\a", r"\b"), r"C:\b");
    assert_eq!(push_path(r"\\server\share\a", "/b"), r"\\server\share/b");
    assert_eq!(push_path(r"C:\a", r"D:\b"), r"D:\b");
}

#[test]
fn paths_are_taken_apart() {
    assert_eq!(file_name_of(r"C:\a\tool.exe"), Some("tool.exe".to_string()));
    assert_eq!(file_name_of(r"C:\"), None);
    assert_eq!(parent_of(r"C:\a\b"), Some(r"C:\a".to_string()));
    assert_eq!(parent_of(r"C:\a"), Some(r"C:\".to_string()));
    assert_eq!(parent_of(r"C:\"), None);
    assert_eq!(with_extension(r"C:\a\tool", "exe"), r"C:\a\tool.exe");
    assert_eq!(with_extension(r"C:\a\tool.cmd", ""), r"C:\a\tool");
    assert_eq!(path_text_key(r"C:\A/b"), "c:/a/b");
}

#[test]
fn windowsapps_path_detection_handles_forward_slashes() {
    assert!(is_windowsapps_path(
        "C:/Users/alice/AppData/Local/Microsoft/WindowsApps/pwsh.exe"
    ));
    assert!(is_windowsapps_path(
        "C:/Program Files/WindowsApps/Foo/tool.exe"
    ));
    assert!(!is_windowsapps_path("C:/Windows/System32/cmd.exe"));
}

/// Resolves a command where exactly `files` exist.
fn resolve(argv: &[&str], search: &ProgramSearch<'_>, files: &[&str]) -> ResolvedSpawnCommand {
    let argv = strings(argv);
    let candidates = match argv.first() {
        Some(program) => search.program_candidates(program),
        None => Vec::new(),
    };
    let is_file: Vec<bool> = candidates
        .iter()
        .map(|candidate| files.contains(&candidate.as_str()))
        .collect();
    resolve_spawn_command(&argv, &candidates, &is_file)
}

#[test]
fn resolve_spawn_command_skips_windowsapps_aliases() {
    let directories = strings(&[
        r"C:\temp\AppData\Local\Microsoft\WindowsApps",
        r"C:\temp\real-bin",
    ]);
    let search = ProgramSearch {
        cwd: r"C:\temp",
        comspec: None,
        directories: Some(directories.as_slice()),
        extensions: Some(".EXE;.CMD"),
    };

    let resolved = resolve(
        &["tool", "/c"],
        &search,
        &[
            r"C:\temp\AppData\Local\Microsoft\WindowsApps\tool.cmd",
            r"C:\temp\real-bin\tool.cmd",
        ],
    );
    assert_eq!(resolved.argv[0], r"C:\temp\real-bin\tool.cmd");
    assert_eq!(resolved.application_name, Some(resolved.argv[0].clone()));
}

#[test]
fn resolve_spawn_command_uses_comspec_for_cmd() {
    let cmd = r"C:\temp\Windows\System32\cmd.exe";
    let search = ProgramSearch {
        cwd: r"C:\temp",
        comspec: Some(cmd),
        directories: None,
        extensions: None,
    };

    let resolved = resolve(&["cmd", "/c"], &search, &[cmd]);
    assert_eq!(resolved.argv[0], cmd);
    assert_eq!(resolved.application_name, Some(resolved.argv[0].clone()));
}

#[test]
fn explicit_programs_are_looked_for_in_place() {
    let search = ProgramSearch {
        cwd: r"C:\work",
        comspec: None,
        directories: None,
        extensions: None,
    };
    let resolved = resolve(&[r"bin\tool.exe"], &search, &[r"C:\work\bin\tool.exe"]);
    assert_eq!(
        resolved.application_name,
        Some(r"C:\work\bin\tool.exe".to_string())
    );
    let missing = resolve(&[r"bin\tool.exe", "-x"], &search, &[]);
    assert_eq!(missing.argv, strings(&[r"bin\tool.exe", "-x"]));
    assert_eq!(missing.application_name, None);
    assert!(resolve(&[], &search, &[]).argv.is_empty());
}

#[test]
fn an_alias_is_searched_for_by_its_name() {
    let directories = strings(&[r"D:\bin"]);
    let search = ProgramSearch {
        cwd: r"C:\work",
        comspec: None,
        directories: Some(directories.as_slice()),
        extensions: None,
    };
    assert_eq!(
        search.program_candidates(r"C:\Program Files\WindowsApps\Foo\tool.exe"),
        strings(&[r"D:\bin\tool.exe"])
    );
    assert_eq!(
        search.program_candidates("tool"),
        strings(&[
            r"D:\bin\tool",
            r"D:\bin\tool.com",
            r"D:\bin\tool.exe",
            r"D:\bin\tool.bat",
            r"D:\bin\tool.cmd",
        ])
    );
}

#[test]
fn endings_are_separated_by_semicolons() {
    assert_eq!(path_extensions(Some("..EXE;;x")), strings(&["exe", "x"]));
    assert!(path_extensions(Some("")).is_empty());
}

fn guard_of(path: &str, mode: ProtectedMetadataMode, existing: &[&str], created: bool) -> ProtectedMetadataGuard {
    let mut guard = ProtectedMetadataGuard::new();
    guard.add_target(path, mode, &strings(existing), created);
    guard
}

#[test]
fn cleanup_created_paths_removes_case_variant() {
    let guard = guard_of(
        r"C:\work\.git",
        ProtectedMetadataMode::MissingCreationMonitor,
        &[],
        false,
    );
    let paths = guard.cleanup_paths();
    assert_eq!(paths, strings(&[r"C:\work\.git"]));
    let existing = existing_metadata_path(&paths[0], false, &strings(&["src", ".GIT"]))
        .expect("a case variant");
    let removed = cleanup_created_paths(&paths, &[PathOutcome::Removed(existing)]).expect("cleanup");
    assert_eq!(removed.len(), 1);
    assert!(file_name_of(&removed[0]).is_some_and(|name| name.eq_ignore_ascii_case(".git")));
    assert_eq!(removed, strings(&[r"C:\work\.GIT"]));
}

#[test]
fn missing_creation_monitor_removes_created_case_variant() {
    let guard = guard_of(
        r"C:\work\.git",
        ProtectedMetadataMode::MissingCreationMonitor,
        &[],
        false,
    );
    let groups = monitored_paths_by_parent(&guard.monitored_paths);
    assert_eq!(groups.len(), 1);
    assert_eq!(groups[0].parent, r"C:\work");
    assert!(matches!(after_wait(WAIT_CHANGED, "p", ""), ListenerStep::Enforce));
    let created = existing_metadata_path(&groups[0].paths[0], true, &strings(&[".GIT"]))
        .expect("the created variant");
    let removed = finish(
        monitor_result(&[created], &[]),
        cleanup_created_paths(&guard.cleanup_paths(), &[PathOutcome::Absent]),
    )
    .expect("finish");
    assert!(removed
        .iter()
        .any(|path| file_name_of(path).as_deref() == Some(".GIT")));
}

#[test]
fn existing_deny_paths_include_symlink_target() {
    let found = protected_metadata_existing_deny_paths(
        r"C:\work\.codex",
        Some(true),
        Some(r"C:\work\target-codex"),
    );
    let found: Vec<&str> = found.iter().map(String::as_str).collect();
    let guard = guard_of(
        r"C:\work\.codex",
        ProtectedMetadataMode::ExistingDeny,
        &found,
        false,
    );
    let keys: Vec<String> = guard.deny_paths.iter().map(|p| path_text_key(p)).collect();
    assert!(keys.contains(&path_text_key(r"C:\work\.codex")));
    assert!(keys.contains(&path_text_key(r"C:\work\target-codex")));
    assert_eq!(
        protected_metadata_existing_deny_paths(r"C:\a", Some(true), Some("c:/A")),
        strings(&[r"C:\a"])
    );
    assert!(protected_metadata_existing_deny_paths(r"C:\a", None, None).is_empty());
}

#[test]
fn missing_deny_sentinel_creates_and_cleans_path() {
    let created = sentinel_created(r"C:\work\.git", CreateOutcome::Created).expect("created");
    let guard = guard_of(
        r"C:\work\.git",
        ProtectedMetadataMode::MissingDenySentinel,
        &[r"C:\work\.git"],
        created,
    );
    assert_eq!(guard.deny_paths, strings(&[r"C:\work\.git"]));
    let paths = guard.cleanup_paths();
    let removed = cleanup_created_paths(&paths, &[PathOutcome::Removed(paths[0].clone())]).expect("cleanup");
    assert_eq!(removed, strings(&[r"C:\work\.git"]));
}

#[test]
fn missing_deny_sentinel_does_not_cleanup_preexisting_path() {
    let created = sentinel_created(r"C:\work\.git", CreateOutcome::AlreadyThere).expect("there");
    let guard = guard_of(
        r"C:\work\.git",
        ProtectedMetadataMode::MissingDenySentinel,
        &[],
        created,
    );
    assert_eq!(guard.deny_paths, strings(&[r"C:\work\.git"]));
    let removed = cleanup_created_paths(&guard.cleanup_paths(), &[]).expect("cleanup");
    assert!(removed.is_empty());
}

#[test]
fn failures_say_what_failed() {
    let paths = strings(&["a", "b"]);
    assert_eq!(
        sentinel_created("a", CreateOutcome::Failed("denied".to_string())),
        Err("failed to create protected metadata sentinel a: denied".to_string())
    );
    assert_eq!(
        cleanup_created_paths(
            &paths,
            &[PathOutcome::Absent, PathOutcome::RemoveFailed("busy".to_string())]
        ),
        Err("failed to remove protected metadata b: busy".to_string())
    );
    assert_eq!(
        cleanup_created_paths(&paths, &[PathOutcome::InspectFailed("why".to_string())]),
        Err("why".to_string())
    );
    assert_eq!(
        enforcement_error("a", &PathOutcome::InspectFailed("why".to_string())),
        Some("failed to inspect protected metadata a: why".to_string())
    );
    assert_eq!(enforcement_error("a", &PathOutcome::Absent), None);
    assert_eq!(
        monitor_result(&[], &strings(&["x", "y"])),
        Err("protected metadata monitor failed: x; y".to_string())
    );
    assert_eq!(
        finish(Err("m".to_string()), Err("c".to_string())),
        Err("protected metadata monitor failed: m; cleanup also failed: c".to_string())
    );
    assert_eq!(
        finish(Err("m".to_string()), Ok(Vec::new())),
        Err("m".to_string())
    );
}

#[test]
fn listeners_stop_at_what_they_do_not_know() {
    assert!(matches!(after_wait(WAIT_STOPPED, "p", ""), ListenerStep::Stop));
    assert!(matches!(
        after_wait(WAIT_FAILED, "p", "bad"),
        ListenerStep::Fail(m) if m == "failed while waiting for protected metadata changes under p: bad"
    ));
    assert!(matches!(
        after_wait(258, "p", "bad"),
        ListenerStep::Fail(m) if m == "unexpected protected metadata wait result 258 for p"
    ));
}

#[test]
fn listeners_that_cannot_resume_stop() {
    assert!(matches!(after_enforcement(true, "p", ""), ListenerStep::Listen));
    assert!(matches!(
        after_enforcement(false, "p", "bad"),
        ListenerStep::Fail(m) if m == "failed to resume protected metadata monitor for p: bad"
    ));
    assert_eq!(
        watch_failure("p", "bad"),
        "failed to monitor protected metadata parent p: bad"
    );
    assert_eq!(
        start_failure("p", "bad"),
        "failed to start protected metadata monitor for p: bad"
    );
}

#[test]
fn links_are_removed_and_not_what_they_lead_to() {
    let facts = PathFacts {
        is_dir: true,
        attributes: 16,
        is_symlink_dir: false,
        is_symlink_file: false,
    };
    assert_eq!(removal_of(facts), Removal::Tree);
    let reparse = PathFacts {
        attributes: REPARSE_POINT | 16,
        ..facts
    };
    assert_eq!(removal_of(reparse), Removal::Directory);
    let file = PathFacts {
        is_dir: false,
        ..facts
    };
    assert_eq!(removal_of(file), Removal::File);
}

#[test]
fn paths_that_differ_in_case_are_one_path() {
    assert_eq!(
        unique_paths(&strings(&[r"C:\A", "c:/a", r"C:\B"])),
        strings(&[r"C:\A", r"C:\B"])
    );
    let groups = monitored_paths_by_parent(&strings(&[r"C:\W\a", "c:/w/b", r"C:\"]));
    assert_eq!(groups.len(), 1);
    assert_eq!(groups[0].paths, strings(&[r"C:\W\a", "c:/w/b"]));
}

#[test]
fn guards_that_cannot_be_set_up_are_reported() {
    assert_eq!(
        arm_failure("C:/w/.git", "denied"),
        "failed to arm protected metadata sentinel cleanup for C:/w/.git: denied"
    );
    assert_eq!(
        stop_failure("gone"),
        "failed to stop protected metadata monitor: gone"
    );
}
