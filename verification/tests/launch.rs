use vigil_tui::launch::{is_browser_target, plan_launch, LaunchPlan};

#[test]
fn http_is_browser() {
    assert!(is_browser_target("http://example.com", None));
}

#[test]
fn https_is_browser() {
    assert!(is_browser_target("https://example.com", None));
}

#[test]
fn mode_browser_forces_browser() {
    assert!(is_browser_target("wttr.in", Some("browser")));
}

#[test]
fn plain_command_is_terminal() {
    assert!(!is_browser_target("htop", None));
}

#[test]
fn other_mode_does_not_force_browser() {
    assert!(!is_browser_target("htop", Some("terminal")));
    assert!(!is_browser_target("wttr.in", Some("Browser")));
    assert!(is_browser_target("https://wttr.in", Some("terminal")));
}

#[test]
fn plan_keeps_web_address() {
    match plan_launch("https://example.com/x", None) {
        LaunchPlan::Browser(url) => assert_eq!(url, "https://example.com/x"),
        LaunchPlan::Terminal(_) => panic!("expected browser"),
    }
    match plan_launch("http://example.com", Some("browser")) {
        LaunchPlan::Browser(url) => assert_eq!(url, "http://example.com"),
        LaunchPlan::Terminal(_) => panic!("expected browser"),
    }
}

#[test]
fn plan_prefixes_https_when_forced() {
    match plan_launch("wttr.in", Some("browser")) {
        LaunchPlan::Browser(url) => {
            assert_eq!(url, "https://wttr.in");
            assert!(url.starts_with("http://") || url.starts_with("https://"));
        }
        LaunchPlan::Terminal(_) => panic!("expected browser"),
    }
}

#[test]
fn plan_runs_command_in_terminal() {
    match plan_launch("htop -d 10", None) {
        LaunchPlan::Terminal(cmd) => assert_eq!(cmd, "htop -d 10"),
        LaunchPlan::Browser(_) => panic!("expected terminal"),
    }
}
