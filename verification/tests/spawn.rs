use host_bridge_mcp::platform::RuntimePlatform;
use host_bridge_mcp::spawn::{
    build_windows_spawn_plan, escape_cmd_argument, escape_cmd_command, executable_candidates,
    executable_lookup, extension_suffixes, ExecutableLookup,
    is_node_cmd_shim, quote_windows_argument, windows_path_extensions, windows_relative_segments,
    ResolvedExecutable, RuntimeEnvironment, SpawnPlanner,
};

#[test]
fn windows_path_extensions_falls_back_to_default_when_missing() {
    let runtime_environment = RuntimeEnvironment::new(RuntimePlatform::Windows, Vec::new());
    let extensions = windows_path_extensions(&Vec::new(), &runtime_environment);
    assert!(extensions
        .iter()
        .any(|extension| extension.eq_ignore_ascii_case(".cmd")));
    assert!(extensions
        .iter()
        .any(|extension| extension.eq_ignore_ascii_case(".exe")));
}

#[test]
fn windows_path_extensions_prefixes_dots_and_skips_empty_entries() {
    let runtime_environment = RuntimeEnvironment::new(RuntimePlatform::Windows, Vec::new());
    let environment = vec![("PATHEXT".to_string(), " exe ;;.Cmd".to_string())];
    let extensions = windows_path_extensions(&environment, &runtime_environment);
    assert_eq!(extensions, vec![".exe".to_string(), ".Cmd".to_string()]);
}

#[test]
fn build_windows_spawn_plan_uses_cmd_for_batch_shims() {
    let shim = r"C:\sandbox\npm.cmd";
    let runtime_environment = RuntimeEnvironment::new(
        RuntimePlatform::Windows,
        vec![(
            "COMSPEC".to_string(),
            r"C:\Windows\System32\cmd.exe".to_string(),
        )],
    );
    let resolved = ResolvedExecutable {
        path: shim.to_string(),
        extension: Some("cmd".to_string()),
        node_cmd_shim: false,
    };
    let plan = build_windows_spawn_plan(
        "npm",
        None,
        &vec!["-v".to_string()],
        Some(&resolved),
        "powershell.exe",
        &runtime_environment,
    );
    assert_eq!(plan.program.to_ascii_lowercase(), r"c:\windows\system32\cmd.exe");
    assert_eq!(plan.args, vec!["/D".to_string(), "/S".to_string(), "/C".to_string()]);
    let expected_tail = format!(
        "\"{} {}\"",
        escape_cmd_command(shim),
        escape_cmd_argument("-v", false)
    );
    assert_eq!(
        plan.windows_raw_tail.map(|value| value.to_ascii_lowercase()),
        Some(expected_tail.to_ascii_lowercase())
    );
}

#[test]
fn build_windows_spawn_plan_uses_direct_spawn_for_executables() {
    let tool = r"C:\sandbox\cargo.exe";
    let runtime_environment = RuntimeEnvironment::new(RuntimePlatform::Windows, Vec::new());
    let resolved = ResolvedExecutable {
        path: tool.to_string(),
        extension: Some("exe".to_string()),
        node_cmd_shim: false,
    };
    let plan = build_windows_spawn_plan(
        "cargo",
        None,
        &vec!["build".to_string()],
        Some(&resolved),
        "powershell.exe",
        &runtime_environment,
    );
    assert_eq!(plan.program.to_ascii_lowercase(), tool.to_ascii_lowercase());
    assert_eq!(plan.args, vec!["build".to_string()]);
    assert!(plan.windows_raw_tail.is_none());
}

#[test]
fn powershell_scripts_run_through_the_host() {
    let runtime_environment = RuntimeEnvironment::new(RuntimePlatform::Windows, Vec::new());
    let resolved = ResolvedExecutable {
        path: r"C:\scripts\deploy.ps1".to_string(),
        extension: Some("ps1".to_string()),
        node_cmd_shim: false,
    };
    let plan = build_windows_spawn_plan(
        "deploy",
        None,
        &vec!["prod".to_string()],
        Some(&resolved),
        "pwsh.exe",
        &runtime_environment,
    );
    assert_eq!(plan.program, "pwsh.exe");
    assert_eq!(
        plan.args,
        vec![
            "-NoLogo".to_string(),
            "-NoProfile".to_string(),
            "-NonInteractive".to_string(),
            "-File".to_string(),
            r"C:\scripts\deploy.ps1".to_string(),
            "prod".to_string(),
        ]
    );
}

#[test]
fn quoting_windows_arguments_follows_msvc_rules() {
    assert_eq!(quote_windows_argument("plain"), "\"plain\"");
    assert_eq!(quote_windows_argument(""), "\"\"");
    assert_eq!(quote_windows_argument("a b"), "\"a b\"");
    assert_eq!(quote_windows_argument("say \"hi\""), "\"say \\\"hi\\\"\"");
    assert_eq!(quote_windows_argument("dir\\ x\\"), "\"dir\\ x\\\\\"");
}

#[test]
fn posix_plan_runs_the_executable_directly() {
    let planner = SpawnPlanner::new(RuntimeEnvironment::new(RuntimePlatform::Linux, Vec::new()));
    let plan = planner.build_posix("ls", &vec!["-la".to_string()]);
    assert_eq!(plan.program, "ls");
    assert_eq!(plan.args, vec!["-la".to_string()]);
    assert!(plan.windows_raw_tail.is_none());
}

#[test]
fn extension_suffixes_try_written_lower_and_upper_forms() {
    assert_eq!(extension_suffixes(".Cmd"), vec![".Cmd", ".cmd", ".CMD"]);
    assert_eq!(extension_suffixes(".EXE"), vec![".EXE", ".exe"]);
    assert_eq!(extension_suffixes(".bat"), vec![".bat", ".BAT"]);
    assert_eq!(extension_suffixes(".1"), vec![".1"]);
}

#[test]
fn relative_windows_paths_split_on_both_separators() {
    assert_eq!(
        windows_relative_segments(r".\node_modules/.bin\\tool"),
        vec![".", "node_modules", ".bin", "tool"]
    );
    assert!(windows_relative_segments("//").is_empty());
}

#[test]
fn node_cmd_shims_are_recognised() {
    assert!(is_node_cmd_shim(r"C:\work\project\node_modules\.bin\tool.cmd"));
    assert!(is_node_cmd_shim(r"C:\work\Node_Modules\.BIN\tool.CMD"));
    assert!(is_node_cmd_shim("project/node_modules/./.bin/tool.cmd"));
    assert!(!is_node_cmd_shim(r"C:\work\node_modules\.bin\tool.exe"));
    assert!(!is_node_cmd_shim(r"C:\work\node_modules\tool.cmd"));
    assert!(!is_node_cmd_shim(r"C:\work\node_modules\.bin\.cmd"));
}

#[test]
fn executable_candidates_try_pathext_suffixes_then_the_bare_path() {
    let extensions = vec![".Cmd".to_string(), ".exe".to_string()];
    assert_eq!(
        executable_candidates("C:\\tools\\npm", false, &extensions),
        vec![
            "C:\\tools\\npm.Cmd",
            "C:\\tools\\npm.cmd",
            "C:\\tools\\npm.CMD",
            "C:\\tools\\npm.exe",
            "C:\\tools\\npm.EXE",
            "C:\\tools\\npm",
        ]
    );
    assert_eq!(
        executable_candidates("C:\\tools\\npm.cmd", true, &extensions),
        vec!["C:\\tools\\npm.cmd"]
    );
}

#[test]
fn executable_lookup_tells_paths_from_bare_names() {
    assert_eq!(
        executable_lookup("C:\\tools\\npm", false, false),
        ExecutableLookup::Path { absolute: true }
    );
    assert_eq!(
        executable_lookup("scripts/build", false, false),
        ExecutableLookup::Path { absolute: false }
    );
    assert_eq!(
        executable_lookup("/usr/bin/env", true, false),
        ExecutableLookup::Path { absolute: true }
    );
    assert_eq!(executable_lookup("npm.cmd", false, true), ExecutableLookup::AsGiven);
    assert_eq!(executable_lookup("npm", false, false), ExecutableLookup::SearchPath);
}
