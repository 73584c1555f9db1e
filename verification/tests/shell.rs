use codex_workbench::powershell::extract_powershell_command;
use codex_workbench::powershell::first_usable_executable;
use codex_workbench::powershell::powershell_home;
use codex_workbench::powershell::prefix_powershell_script_with_utf8;
use codex_workbench::powershell::try_parse_powershell_command_sequence;
use codex_workbench::powershell::ExecutableCandidate;
use codex_workbench::powershell::PowershellCommandSequenceParseMode;
use codex_workbench::powershell::UTF8_OUTPUT_PREFIX;
use codex_workbench::preserved_path::command_write_targets;
use codex_workbench::preserved_path::preserved_path_write_forbidden_reason;
use codex_workbench::preserved_path::simple_commands;
use codex_workbench::preserved_path::preserved_path_write_targets;
use codex_workbench::preserved_path::WriteTarget;

fn words(list: &[&str]) -> Vec<String> {
    list.iter().map(|word| word.to_string()).collect()
}

#[test]
fn extracts_basic_powershell_command() {
    let cmd = words(&["powershell", "-Command", "Write-Host hi"]);
    let (_shell, script) = extract_powershell_command(&cmd).expect("extract");
    assert_eq!(script, "Write-Host hi");
}

#[test]
fn extracts_lowercase_flags() {
    let cmd = words(&["powershell", "-nologo", "-command", "Write-Host hi"]);
    let (_shell, script) = extract_powershell_command(&cmd).expect("extract");
    assert_eq!(script, "Write-Host hi");
}

#[test]
fn extracts_full_path_powershell_command() {
    let cmd = words(&["/usr/local/bin/powershell.exe", "-Command", "Write-Host hi"]);
    let (_shell, script) = extract_powershell_command(&cmd).expect("extract");
    assert_eq!(script, "Write-Host hi");
}

#[test]
fn extracts_with_noprofile_and_alias() {
    let cmd = words(&["pwsh", "-NoProfile", "-c", "Get-ChildItem | Select-String foo"]);
    let (_shell, script) = extract_powershell_command(&cmd).expect("extract");
    assert_eq!(script, "Get-ChildItem | Select-String foo");
}

#[test]
fn exec_policy_parsing_ignores_ordinary_wrapper_flags() {
    let command = words(&[
        "powershell.exe",
        "-Version",
        "5.1",
        "-NoExit",
        "-Command",
        "Get-Content 'foo bar'",
    ]);
    let parsed = try_parse_powershell_command_sequence(
        &command,
        PowershellCommandSequenceParseMode::ExecPolicy,
    )
    .expect("a script");
    assert_eq!(parsed.executable, "powershell.exe");
    assert_eq!(parsed.script, "Get-Content 'foo bar'");
}

#[test]
fn commands_of_other_shells_are_not_extracted() {
    assert!(extract_powershell_command(&words(&["bash", "-c", "ls"])).is_none());
    assert!(extract_powershell_command(&words(&["pwsh", "-Command"])).is_none());
    assert!(extract_powershell_command(&[]).is_none());
}

#[test]
fn encoded_commands_are_rejected() {
    for flag in ["-EncodedCommand", "-File"] {
        assert!(try_parse_powershell_command_sequence(
            &words(&["pwsh", flag, "x"]),
            PowershellCommandSequenceParseMode::SafeCommand,
        )
        .is_none());
    }
}

#[test]
fn scripts_get_the_encoding_prefix_once() {
    let once = prefix_powershell_script_with_utf8(&words(&["pwsh", "-Command", "ls"]));
    assert_eq!(once[2], format!("{UTF8_OUTPUT_PREFIX}ls"));
    assert_eq!(prefix_powershell_script_with_utf8(&once), once);
    let other = words(&["bash", "-c", "ls"]);
    assert_eq!(prefix_powershell_script_with_utf8(&other), other);
}

#[test]
fn home_is_what_powershell_printed() {
    assert_eq!(
        powershell_home(true, b"  C:\\pwsh\r\n"),
        Some("C:\\pwsh".to_string())
    );
    assert_eq!(powershell_home(true, b"\xFFx\n"), Some("\u{FFFD}x".to_string()));
    assert_eq!(powershell_home(true, b" \n"), None);
    assert_eq!(powershell_home(false, b"C:\\pwsh"), None);
}

#[test]
fn first_place_that_runs_is_used() {
    let candidate = |path: Option<&str>, runs: bool| ExecutableCandidate {
        path: path.map(str::to_string),
        runs,
    };
    let found = first_usable_executable(&[
        candidate(None, true),
        candidate(Some("a"), false),
        candidate(Some("b"), true),
        candidate(Some("c"), true),
    ]);
    assert_eq!(found, Some("b".to_string()));
    assert_eq!(first_usable_executable(&[]), None);
}

/// What a policy that preserves `.git`, `.agents` and `.codex` in `/repo/sub` says.
fn reason_under_policy(commands: &[&[&str]], redirections: &[&str]) -> Option<String> {
    let cwd = "/repo/sub";
    let commands: Vec<Vec<String>> = commands.iter().map(|command| words(command)).collect();
    let targets: Vec<WriteTarget> =
        preserved_path_write_targets(&commands, &words(redirections), cwd);
    let forbidden: Vec<Option<String>> = targets
        .iter()
        .map(|target| {
            let path = if target.path.starts_with('/') {
                target.path.clone()
            } else {
                format!("{}/{}", target.cwd, target.path)
            };
            [".git", ".agents", ".codex"]
                .iter()
                .find(|name| path == format!("{cwd}/{name}"))
                .map(|name| name.to_string())
        })
        .collect();
    preserved_path_write_forbidden_reason(&forbidden)
}

#[test]
fn preserved_path_detector_blocks_git_init_under_parent_repo() {
    let reason = reason_under_policy(&[&["git", "init"]], &[]);

    assert_eq!(
        reason,
        Some("command targets preserved workspace metadata path `.git`".to_string())
    );
}

#[test]
fn preserved_path_detector_allows_normal_git_under_parent_repo() {
    let reason = reason_under_policy(&[&["git", "status", "--short"]], &[]);

    assert_eq!(reason, None);
}

#[test]
fn preserved_path_detector_blocks_direct_preserved_path_writes() {
    let reason = reason_under_policy(&[&["touch", ".git"], &["mkdir", "-p", ".codex"]], &[]);

    assert_eq!(
        reason,
        Some("command targets preserved workspace metadata path `.git`".to_string())
    );
}

#[test]
fn preserved_path_detector_blocks_preserved_path_redirections() {
    let reason = reason_under_policy(&[&["printf", "pwned"]], &[".git"]);

    assert_eq!(
        reason,
        Some("command targets preserved workspace metadata path `.git`".to_string())
    );
}

#[test]
fn preserved_path_detector_blocks_git_init_inside_complex_script() {
    let reason = reason_under_policy(&[&["set", "-e"], &["git", "init", "-q"], &["exit", "22"]], &[]);

    assert_eq!(
        reason,
        Some("command targets preserved workspace metadata path `.git`".to_string())
    );
}

#[test]
fn git_init_follows_directory_options() {
    let reason = |command: &[&str]| reason_under_policy(&[command], &[]);
    assert!(reason(&["git", "-C", "/repo", "init", "sub"]).is_some());
    assert!(reason(&["git", "-C"]).is_none());
    assert!(reason(&["/usr/bin/git", "--bare", "init", "/repo/sub"]).is_some());
    assert!(reason(&["git", "--", "init"]).is_some());
}

#[test]
fn commands_are_read_as_plainly_as_they_can_be() {
    let command = words(&["bash", "-lc", "touch a"]);
    let plain = Some(vec![words(&["touch", "a"])]);
    let prefixes = Some(vec![words(&["touch"])]);
    assert_eq!(
        simple_commands(&command, plain.clone(), prefixes.clone()),
        vec![words(&["touch", "a"])]
    );
    assert_eq!(simple_commands(&command, None, prefixes), vec![words(&["touch"])]);
    assert_eq!(simple_commands(&command, None, None), vec![command.clone()]);
    let targets = command_write_targets(&command, plain, None, Some(words(&["out"])), "/repo");
    let paths: Vec<&str> = targets.iter().map(|target| target.path.as_str()).collect();
    assert_eq!(paths, ["a", "out"]);
    assert!(command_write_targets(&command, None, None, None, "/repo").is_empty());
}
