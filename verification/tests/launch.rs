use vp_trampoline::launch::{
    call_failure_message, child_command_line, env_changes, env_failure_is_benign,
    env_failure_message, exit_code_from_status, forwards_std_handles, module_path_step,
    nul_terminated, runs_as_vp, shim_path_error_message, shim_paths, spawn_failure_message,
    EnvVar, ModulePathStep, ShimPathError,
};

fn wide(s: &str) -> Vec<u16> {
    s.encode_utf16().collect()
}

#[test]
fn resolves_tool_home_and_vp_exe() {
    let exe = wide(r"C:\Users\me\.vite-plus\bin\node.exe");
    let paths = shim_paths(&exe).ok().unwrap();
    assert_eq!(paths.tool, wide("node"));
    assert_eq!(paths.vp_home, wide(r"C:\Users\me\.vite-plus"));
    let mut expected = wide(r"C:\Users\me\.vite-plus\current\bin\vp.exe");
    expected.push(0);
    assert_eq!(paths.vp_exe, expected);
}

#[test]
fn forward_slashes_separate_too() {
    let exe = wide("/home/me/bin/npm.cmd.exe");
    let paths = shim_paths(&exe).ok().unwrap();
    assert_eq!(paths.tool, wide("npm.cmd"));
    assert_eq!(paths.vp_home, wide("/home/me"));
}

#[test]
fn path_without_separator_has_no_shim_directory() {
    assert_eq!(shim_paths(&wide("node.exe")).err(), Some(ShimPathError::NoShimDirectory));
}

#[test]
fn path_with_one_separator_has_no_home() {
    assert_eq!(shim_paths(&wide(r"bin\node.exe")).err(), Some(ShimPathError::NoHome));
}

#[test]
fn home_may_be_empty() {
    let paths = shim_paths(&wide(r"\bin\vp.exe")).ok().unwrap();
    assert_eq!(paths.vp_home, wide(""));
    assert_eq!(paths.tool, wide("vp"));
}

#[test]
fn child_command_line_quotes_vp_and_keeps_tail() {
    let vp_exe = nul_terminated(&wide(r"C:\Program Files\vp\current\bin\vp.exe"));
    let cl = wide(r#""C:\x y\node.exe" -e "1 + 1""#);
    let mut expected = wide(r#""C:\Program Files\vp\current\bin\vp.exe" -e "1 + 1""#);
    expected.push(0);
    assert_eq!(child_command_line(&vp_exe, &cl), expected);
}

#[test]
fn child_command_line_without_arguments() {
    let vp_exe = nul_terminated(&wide(r"C:\vp.exe"));
    let mut expected = wide(r#""C:\vp.exe""#);
    expected.push(0);
    assert_eq!(child_command_line(&vp_exe, &wide("node")), expected);
}

#[test]
fn child_sees_the_same_arguments() {
    let vp_exe = nul_terminated(&wide(r"C:\Program Files\vp.exe"));
    let cl = wide(r#"npx "a  b\" literal" --flag"#);
    let child = child_command_line(&vp_exe, &cl);
    let child = &child[..child.len() - 1];
    let parent_tail = &cl[vp_trampoline::cmdline::skip_program_argument(&cl)..];
    let child_tail = &child[vp_trampoline::cmdline::skip_program_argument(child)..];
    assert_eq!(child_tail, parent_tail);
}

#[test]
fn nul_terminated_appends_nul() {
    assert_eq!(nul_terminated(&wide("ab")), vec![0x61, 0x62, 0]);
    assert_eq!(nul_terminated(&[]), vec![0]);
}

#[test]
fn vp_runs_in_cli_mode() {
    assert!(runs_as_vp(&wide("vp")));
    assert!(!runs_as_vp(&wide("VP")));
    assert!(!runs_as_vp(&wide("node")));
}

#[test]
fn env_changes_for_vp() {
    let changes = env_changes(&wide("vp"), &wide(r"C:\h"));
    assert_eq!(changes.len(), 1);
    assert_eq!(changes[0].var, EnvVar::VpHome);
    assert_eq!(changes[0].value, Some(nul_terminated(&wide(r"C:\h"))));
}

#[test]
fn env_changes_for_other_tools() {
    let changes = env_changes(&wide("node"), &wide(r"C:\h"));
    assert_eq!(changes.len(), 3);
    assert_eq!(changes[0].var, EnvVar::VpHome);
    assert_eq!(changes[0].value, Some(nul_terminated(&wide(r"C:\h"))));
    assert_eq!(changes[1].var, EnvVar::VpShimTool);
    assert_eq!(changes[1].value, Some(nul_terminated(&wide("node"))));
    assert_eq!(changes[2].var, EnvVar::VpToolRecursion);
    assert_eq!(changes[2].value, None);
}

#[test]
fn env_var_names() {
    assert_eq!(EnvVar::VpHome.name(), "VP_HOME");
    assert_eq!(EnvVar::VpShimTool.name(), "VP_SHIM_TOOL");
    assert_eq!(EnvVar::VpToolRecursion.name(), "VP_TOOL_RECURSION");
}

#[test]
fn removing_an_unset_variable_is_benign() {
    assert!(env_failure_is_benign(true, 203));
    assert!(!env_failure_is_benign(false, 203));
    assert!(!env_failure_is_benign(true, 5));
}

#[test]
fn call_failure_report() {
    assert_eq!(
        call_failure_message(b"WaitForSingleObject", 6),
        b"vite-plus shim: WaitForSingleObject failed (Windows error 6)\n".to_vec()
    );
    assert_eq!(
        call_failure_message(b"warning: SetConsoleCtrlHandler", 4294967295),
        b"vite-plus shim: warning: SetConsoleCtrlHandler failed (Windows error 4294967295)\n".to_vec()
    );
}

#[test]
fn env_failure_report() {
    assert_eq!(
        env_failure_message(EnvVar::VpShimTool, 8),
        b"vite-plus shim: SetEnvironmentVariableW(VP_SHIM_TOOL) failed (Windows error 8)\n".to_vec()
    );
}

#[test]
fn spawn_failure_report_with_hint() {
    assert_eq!(
        spawn_failure_message(br"C:\h\current\bin\vp.exe", 2),
        br#"vite-plus: failed to execute "C:\h\current\bin\vp.exe" (Windows error 2): vp.exe is missing; reinstall vite-plus or run `vp env setup`
"#
        .to_vec()
    );
    assert!(spawn_failure_message(b"x", 3).ends_with(b"run `vp env setup`\n"));
}

#[test]
fn spawn_failure_report_without_hint() {
    assert_eq!(
        spawn_failure_message(b"vp.exe", 5),
        b"vite-plus: failed to execute \"vp.exe\" (Windows error 5)\n".to_vec()
    );
}

#[test]
fn shim_path_error_reports() {
    assert_eq!(
        shim_path_error_message(ShimPathError::NoShimDirectory, b"node.exe"),
        b"vite-plus shim: cannot resolve the shim directory from \"node.exe\"\n".to_vec()
    );
    assert_eq!(
        shim_path_error_message(ShimPathError::NoHome, br"bin\node.exe"),
        br#"vite-plus shim: cannot resolve VP_HOME from "bin\node.exe"
"#
        .to_vec()
    );
}

#[test]
fn exit_codes() {
    assert_eq!(exit_code_from_status(Some(4), None), 132);
    assert_eq!(exit_code_from_status(Some(9), Some(3)), 137);
    assert_eq!(exit_code_from_status(None, Some(3)), 3);
    assert_eq!(exit_code_from_status(None, Some(-1)), -1);
    assert_eq!(exit_code_from_status(None, None), 1);
}

#[test]
fn module_path_steps() {
    assert_eq!(module_path_step(0, 512), ModulePathStep::Failed);
    assert_eq!(module_path_step(40, 512), ModulePathStep::Done(40));
    assert_eq!(module_path_step(512, 512), ModulePathStep::Grow(1024));
}

#[test]
fn std_handles_follow_the_startup_flag() {
    assert!(forwards_std_handles(0x100));
    assert!(forwards_std_handles(0x101));
    assert!(!forwards_std_handles(0x001));
}
