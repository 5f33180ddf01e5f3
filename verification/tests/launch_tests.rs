use channel_store::launch::{
    balance_request, build_launch_plan, check_terminal_available, resolve_dir, sq_escape,
    SpawnSpec,
};
use channel_store::response::ApiResponse;

fn args(spec: &SpawnSpec) -> Vec<&str> {
    spec.args.iter().map(|s| s.as_str()).collect()
}

#[test]
fn a_missing_directory_falls_back_to_home() {
    assert_eq!(resolve_dir("/gone", false, "/home/me"), "/home/me");
    assert_eq!(resolve_dir("/there", true, "/home/me"), "/there");
    // The plan for a stale path is the plan for the home directory.
    let stale = build_launch_plan("mycli", "wt", "/gone", false, "/home/me", true, true);
    let home = build_launch_plan("mycli", "wt", "/home/me", true, "/home/me", true, true);
    assert_eq!(stale.len(), home.len());
    for (a, b) in stale.iter().zip(home.iter()) {
        assert_eq!(a.program, b.program);
        assert_eq!(a.args, b.args);
        assert_eq!(a.current_dir, b.current_dir);
    }
}

#[test]
fn posix_plan_spawns_the_shell_directly() {
    let plan = build_launch_plan("mycli", "bash", "/w", true, "/home/me", false, false);
    assert_eq!(plan.len(), 1);
    assert_eq!(plan[0].program, "bash");
    assert_eq!(args(&plan[0]), vec!["-c", "cd '/w' && mycli"]);
}

#[test]
fn emulator_plan_has_a_fallback() {
    let plan = build_launch_plan("mycli", "wt", "/w", true, "/home/me", true, true);
    assert_eq!(plan.len(), 2, "the emulator first, the direct shell second");
    assert_eq!(plan[0].program, "wt");
    assert_eq!(
        args(&plan[0]),
        vec!["-d", "/w", "pwsh", "-NoExit", "-Command", "mycli"]
    );
    assert_eq!(plan[1].program, "cmd");
    assert_eq!(
        args(&plan[1]),
        vec!["/C", "start", "\"\"", "pwsh", "-NoExit", "-Command", "Set-Location '/w'; mycli"]
    );
}

#[test]
fn absent_emulator_goes_straight_to_the_shell() {
    let plan = build_launch_plan("droid", "wt", "/w", true, "/home/me", true, false);
    assert_eq!(plan.len(), 1);
    assert_eq!(plan[0].program, "cmd");
    assert_eq!(
        args(&plan[0]),
        vec!["/C", "start", "\"\"", "pwsh", "-NoExit", "-Command", "Set-Location '/w'; droid"]
    );
}

#[test]
fn named_shells_get_their_own_windows() {
    let plan = build_launch_plan("mycli", "powershell", "/it's", true, "/h", true, false);
    assert_eq!(plan.len(), 1);
    assert_eq!(
        args(&plan[0]),
        vec![
            "/C",
            "start",
            "\"\"",
            "powershell",
            "-NoExit",
            "-Command",
            "Set-Location '/it''s'; mycli"
        ]
    );
    let cmd_plan = build_launch_plan("mycli", "cmd", "/w", true, "/h", true, false);
    assert_eq!(
        args(&cmd_plan[0]),
        vec!["/C", "start", "\"\"", "cmd", "/k", "cd /d \"/w\" && mycli"]
    );
}

#[test]
fn quoting_doubles_single_quotes() {
    assert_eq!(sq_escape("a'b''c"), "a''b''''c");
    assert_eq!(sq_escape(""), "");
}

#[test]
fn terminal_availability_trusts_everything_but_the_emulator() {
    assert!(!check_terminal_available("wt", false));
    assert!(check_terminal_available("wt", true));
    assert!(check_terminal_available("cmd", false));
    assert!(check_terminal_available("zsh", false));
}

#[test]
fn balance_request_substitutes_the_token() {
    let r = balance_request("https://x/{apikey}/q?k={apikey}", "get", "tok-42");
    assert_eq!(r.url, "https://x/tok-42/q?k=tok-42");
    assert!(r.use_get);
    let p = balance_request("https://x/q", "POST", "t");
    assert_eq!(p.url, "https://x/q");
    assert!(!p.use_get);
    assert!(!balance_request("u", "GETX", "t").use_get);
    assert!(balance_request("u", "GeT", "t").use_get);
}

#[test]
fn responses_carry_exactly_one_payload() {
    let ok = ApiResponse::success();
    assert!(ok.success && ok.error.is_none() && ok.channels.is_none() && ok.config.is_none());
    let failed = ApiResponse::error("boom".to_string());
    assert!(!failed.success);
    assert_eq!(failed.error.as_deref(), Some("boom"));
    let listed = ApiResponse::success_with_channels(vec![]);
    assert!(listed.success && listed.channels.is_some());
    let with_data = ApiResponse::success_with_data(true);
    assert_eq!(with_data.data, Some(true));
}
