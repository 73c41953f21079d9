use kiyoctl::service::{
    arguments, domain, flag_value, installed_binary, launchctl_failure, parse_agent, plist,
    plist_flag, plist_path, reload, restart, start, status_lines, stop, target, xml_escape,
    xml_unescape, Agent,
};

fn args_of(xml: &str) -> Vec<String> {
    xml.split("<array>")
        .nth(1)
        .and_then(|s| s.split("</array>").next())
        .unwrap()
        .split("<string>")
        .skip(1)
        .filter_map(|s| s.split_once("</string>").map(|(v, _)| v.to_string()))
        .collect()
}

#[test]
fn an_unpinned_agent_names_no_profile_so_it_follows_the_one_in_use() {
    let xml = plist("/bin/kiyoctl", None, None, 2, "/tmp/kiyoctl.log");
    let args = args_of(&xml);
    assert_eq!(args, ["/bin/kiyoctl", "daemon", "--interval", "2"]);
}

#[test]
fn a_pinned_agent_carries_the_profile_and_device() {
    let xml = plist("/bin/kiyoctl", Some("night"), Some("1532:0e05"), 5, "/tmp/kiyoctl.log");
    let args = args_of(&xml);
    assert_eq!(
        args,
        ["/bin/kiyoctl", "daemon", "--interval", "5", "--profile", "night", "--device", "1532:0e05"]
    );
    assert_eq!(flag_value(&args, "--profile").as_deref(), Some("night"));
}

#[test]
fn the_arguments_block_of_launchctl_print_is_read_back() {
    let text = "\tstate = running\n\targuments = {\n\t\t/bin/kiyoctl\n\t\tdaemon\n\t\t--profile\n\t\tnight\n\t}\n\tpid = 42\n";
    let args = arguments(text);
    assert_eq!(flag_value(&args, "--profile").as_deref(), Some("night"));
    assert_eq!(flag_value(&args, "--device"), None);
}

#[test]
fn launchctl_print_is_read_into_an_agent() {
    let text = "\tstate = running\n\targuments = {\n\t\t/bin/kiyoctl\n\t\tdaemon\n\t\t--interval\n\t\t3\n\t}\n\tpid = 42\n";
    let a = parse_agent(text);
    assert_eq!(a.state, "running");
    assert_eq!(a.pid, Some(42));
    assert!(a.running());
    assert_eq!(a.profile, None);
    assert_eq!(a.interval.as_deref(), Some("3"));
    let idle = parse_agent("\targuments = {\n\t}\n");
    assert_eq!(idle.state, "loaded", "a state launchd does not name is 'loaded'");
    assert_eq!(idle.pid, None);
    assert!(!idle.running());
}

#[test]
fn a_flag_at_the_end_has_no_value() {
    let args = vec!["daemon".to_string(), "--profile".to_string()];
    assert_eq!(flag_value(&args, "--profile"), None);
}

#[test]
fn the_installed_plist_is_read_back() {
    let xml = plist("/bin/kiyo<ctl>", Some("a&b"), None, 7, "/tmp/x.log");
    assert!(xml.contains("<string>/bin/kiyo&lt;ctl&gt;</string>"));
    assert_eq!(plist_flag(&xml, "--profile").as_deref(), Some("a&b"));
    assert_eq!(plist_flag(&xml, "--interval").as_deref(), Some("7"));
    assert_eq!(plist_flag(&xml, "--device"), None);
    assert!(xml.contains("<string>local.kiyoctl</string>"));
    assert!(xml.contains("<key>StandardErrorPath</key>\n  <string>/tmp/x.log</string>"));
}

#[test]
fn xml_text_escapes_and_reads_back() {
    assert_eq!(xml_escape("a<b>&c"), "a&lt;b&gt;&amp;c");
    assert_eq!(xml_unescape("a&lt;b&gt;&amp;c"), "a<b>&c");
    assert_eq!(xml_unescape(&xml_escape("&lt; is not <")), "&lt; is not <");
}

#[test]
fn launchctl_targets_the_users_gui_domain() {
    assert_eq!(domain(501), "gui/501");
    assert_eq!(target(501), "gui/501/local.kiyoctl");
}

#[test]
fn starting_loads_or_kicks_the_agent() {
    assert_eq!(
        start("/p.plist", true, false, 501),
        Ok(vec!["bootstrap".to_string(), "gui/501".to_string(), "/p.plist".to_string()])
    );
    assert_eq!(
        start("/p.plist", true, true, 501),
        Ok(vec!["kickstart".to_string(), "gui/501/local.kiyoctl".to_string()])
    );
    assert_eq!(
        start("/p.plist", false, false, 501),
        Err("the login agent is not installed (/p.plist does not exist) — run `kiyoctl install` first"
            .to_string())
    );
}

#[test]
fn stopping_needs_a_loaded_agent() {
    assert_eq!(stop(false, 501), Err("the login agent is not loaded".to_string()));
    assert_eq!(
        stop(true, 501),
        Ok(vec!["bootout".to_string(), "gui/501/local.kiyoctl".to_string()])
    );
}

#[test]
fn restarting_forces_a_kickstart_or_starts() {
    assert_eq!(
        restart("/p.plist", true, true, 501),
        Ok(vec!["kickstart".to_string(), "-k".to_string(), "gui/501/local.kiyoctl".to_string()])
    );
    assert_eq!(restart("/p.plist", true, false, 501), start("/p.plist", true, false, 501));
}

#[test]
fn reloading_signals_only_a_running_agent() {
    let running = Agent {
        state: "running".to_string(),
        pid: Some(9),
        profile: None,
        device: None,
        interval: None,
    };
    assert_eq!(
        reload(Some(&running), 501),
        Ok(vec!["kill".to_string(), "SIGHUP".to_string(), "gui/501/local.kiyoctl".to_string()])
    );
    let idle = Agent { pid: None, ..running };
    assert_eq!(
        reload(Some(&idle), 501),
        Err("the login agent is loaded but not running — try `kiyoctl daemon start`".to_string())
    );
    assert_eq!(
        reload(None, 501),
        Err("the login agent is not running — use `kiyoctl apply` to apply the profile once".to_string())
    );
}

#[test]
fn a_failed_launchctl_says_what_failed() {
    let args = vec!["bootout".to_string(), "gui/501/local.kiyoctl".to_string()];
    assert_eq!(launchctl_failure(&args, "  \n"), "launchctl bootout gui/501/local.kiyoctl failed");
    assert_eq!(launchctl_failure(&args, "Boot-out failed: 3\n"), "Boot-out failed: 3");
}

#[test]
fn the_agent_lives_under_the_home_directory() {
    assert_eq!(plist_path(Some("/Users/me")), "/Users/me/Library/LaunchAgents/local.kiyoctl.plist");
    assert_eq!(plist_path(None), "/tmp/Library/LaunchAgents/local.kiyoctl.plist");
    assert_eq!(installed_binary(Some("/Users/me/")), "/Users/me/.local/bin/kiyoctl");
}

#[test]
fn status_reports_a_running_agent_and_what_it_watches() {
    let agent = Agent {
        state: "running".to_string(),
        pid: Some(4242),
        profile: Some("night".to_string()),
        device: Some("1532:0e05".to_string()),
        interval: Some("5".to_string()),
    };
    assert_eq!(
        status_lines(Some(&agent), true, None, "default", "/p.plist", "/k.log"),
        vec![
            "Login agent: running (pid 4242)".to_string(),
            "  profile:  night (pinned at install)".to_string(),
            "  device:   1532:0e05".to_string(),
            "  interval: 5s".to_string(),
            "  plist:    /p.plist".to_string(),
            "  log:      /k.log".to_string(),
        ]
    );
}

#[test]
fn status_reads_a_stopped_agent_from_its_plist() {
    let xml = plist("/bin/kiyoctl", None, Some("Kiyo"), 7, "/tmp/kiyoctl.log");
    assert_eq!(
        status_lines(None, true, Some(&xml), "day", "/p.plist", "/k.log"),
        vec![
            "Login agent: stopped. Start it with `kiyoctl daemon start`.".to_string(),
            "  profile:  day (whichever profile is in use)".to_string(),
            "  device:   Kiyo".to_string(),
            "  interval: 7s".to_string(),
            "  plist:    /p.plist".to_string(),
            "  log:      /k.log".to_string(),
        ]
    );
    let idle = Agent { state: "waiting".to_string(), pid: None, profile: None, device: None, interval: None };
    assert_eq!(
        status_lines(Some(&idle), true, None, "day", "/p", "/l")[..4].to_vec(),
        vec![
            "Login agent: loaded but not running (waiting)".to_string(),
            "  profile:  day (whichever profile is in use)".to_string(),
            "  interval: 2s".to_string(),
            "  plist:    /p".to_string(),
        ]
    );
    assert_eq!(
        status_lines(None, false, None, "day", "/p", "/l"),
        vec!["Login agent: not installed. Install it with `kiyoctl install`.".to_string()]
    );
}
