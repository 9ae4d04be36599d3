use core_utilities_mcp::sys_ops::{
    command_outcome, exceeds_output_budget, plan_command, resolve_timeout, system_context,
    timeout_error, DEFAULT_TIMEOUT_SECS, MAX_TIMEOUT_SECS,
};
use core_utilities_mcp::CoreError;

#[test]
fn test_resolve_timeout_defaults_and_clamps() {
    assert_eq!(resolve_timeout(None, None), DEFAULT_TIMEOUT_SECS);
    assert_eq!(resolve_timeout(Some(5), None), 5);
    assert_eq!(resolve_timeout(Some(9999), None), MAX_TIMEOUT_SECS);
    assert_eq!(resolve_timeout(Some(0), None), 1);
    assert_eq!(resolve_timeout(None, Some("60")), 60);
}

#[test]
fn explicit_timeouts_win_over_the_setting() {
    assert_eq!(resolve_timeout(Some(7), Some("60")), 7);
    assert_eq!(resolve_timeout(None, Some("junk")), 30);
    assert_eq!(resolve_timeout(None, Some("100000")), 300);
}

#[test]
fn test_execute_command_timeout() {
    let message = timeout_error(1).message();
    assert!(message.contains("timed out after 1s"));
    assert!(message.contains("timeout_seconds"));
    assert!(matches!(timeout_error(30), CoreError::Command(_)));
}

#[test]
fn commands_run_through_the_shell() {
    let plan = plan_command("echo hi", None, Some("/srv/ws"), Some(3), None, false);
    assert_eq!(plan.program, "sh");
    assert_eq!(plan.args, vec!["-c".to_string(), "echo hi".to_string()]);
    assert_eq!(plan.working_directory.as_deref(), Some("/srv/ws"));
    assert_eq!(plan.timeout_secs, 3);
    let plan = plan_command("pwd", Some("/tmp"), Some("/srv/ws"), None, Some("45"), false);
    assert_eq!(plan.working_directory.as_deref(), Some("/tmp"));
    assert_eq!(plan.timeout_secs, 45);
    assert_eq!(plan_command("pwd", None, None, None, None, false).working_directory, None);
}

#[test]
fn output_budget_is_four_times_the_limit() {
    assert!(!exceeds_output_budget(400, 100));
    assert!(exceeds_output_budget(401, 100));
    assert!(!exceeds_output_budget(usize::MAX, usize::MAX));
}

#[test]
fn outcomes_truncate_stdout_only() {
    let out = command_outcome(Some(0), b"hello\nworld\n", b"warn\n", 8);
    assert_eq!(out.exit_code, 0);
    assert_eq!(out.stdout, "hello\n");
    assert_eq!(out.status, "truncated");
    assert_eq!(out.next_offset, Some(6));
    assert_eq!(out.stderr, "warn\n");
    let killed = command_outcome(None, &[0x66, 0xff], b"", 100);
    assert_eq!(killed.exit_code, -1);
    assert_eq!(killed.stdout, "f\u{fffd}");
    assert_eq!(killed.status, "success");
}

#[test]
fn test_get_system_context() {
    let sys = sysinfo::System::new_all().unwrap();
    let ctx = system_context(
        sysinfo::System::name().ok(),
        sysinfo::System::host_name().ok(),
        sys.cpus().len(),
        &[1, 2, 3],
        None,
        Some("100".to_string()),
    );
    assert!(!ctx.os.is_empty());
    assert!(ctx.cpu_cores > 0);
    assert_eq!(ctx.disk_free_bytes, 6);
    assert_eq!(ctx.uid, "N/A");
    assert_eq!(ctx.gid, "100");
    let blank = system_context(None, None, 2, &[], None, None);
    assert_eq!(blank.os, "Unknown");
    assert_eq!(blank.hostname, "Unknown");
    assert_eq!(blank.disk_free_bytes, 0);
}

#[test]
fn windows_commands_run_under_cmd() {
    let plan = plan_command("dir", None, None, None, None, true);
    assert_eq!(plan.program, "cmd");
    assert_eq!(plan.args, vec!["/C".to_string(), "dir".to_string()]);
}
