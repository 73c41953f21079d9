use kiyoctl::cli::{
    apply_log, civil_from_days, controls_listing, foreign_note, get_target, parse_assignments, profile_summary, save_note,
    set_target, show_detail, show_lines, timestamp, unknown_control, watch_banner, Watch,
};
use kiyoctl::controls::{find, Reading};
use kiyoctl::profile::{ApplyReport, Profile, Setting};
use kiyoctl::usb::{parse_extra, Cam, ParsedUnits};

fn strings(v: &[&str]) -> Vec<String> {
    v.iter().map(|s| s.to_string()).collect()
}

#[test]
fn a_name_and_a_value_is_one_assignment() {
    assert_eq!(
        parse_assignments(&strings(&["HDR", "on"])),
        Ok(vec![("hdr".to_string(), "on".to_string())])
    );
}

#[test]
fn name_equals_value_pairs_scale_up() {
    assert_eq!(
        parse_assignments(&strings(&["hdr=on", " Brightness = 140 "])),
        Ok(vec![("hdr".to_string(), "on".to_string()), ("brightness".to_string(), "140".to_string())])
    );
    assert_eq!(
        parse_assignments(&strings(&["hdr=on", "fov"])),
        Err("expected name=value, got 'fov'".to_string())
    );
    assert_eq!(parse_assignments(&strings(&["a=b=c"])), Ok(vec![("a".to_string(), "b=c".to_string())]));
}

#[test]
fn an_unknown_control_lists_the_known_ones() {
    let msg = unknown_control("sparkle");
    assert!(msg.starts_with("unknown control 'sparkle'. Known controls: brightness, contrast"));
    assert!(msg.ends_with("fov, af_mode"));
}

#[test]
fn days_since_the_epoch_become_dates() {
    assert_eq!(civil_from_days(0), (1970, 1, 1));
    assert_eq!(civil_from_days(-1), (1969, 12, 31));
    assert_eq!(civil_from_days(11016), (2000, 2, 29));
    assert_eq!(civil_from_days(11017), (2000, 3, 1));
    assert_eq!(civil_from_days(19723), (2024, 1, 1));
    assert_eq!(civil_from_days(-719468), (0, 3, 1));
}

#[test]
fn log_timestamps_are_utc() {
    assert_eq!(timestamp(0), "1970-01-01 00:00:00Z");
    assert_eq!(timestamp(951_782_400 + 3_723), "2000-02-29 01:02:03Z");
}

#[test]
fn show_describes_range_default_and_access() {
    let b = find("brightness").unwrap();
    let r = Reading {
        value: "140".to_string(),
        range: Some((0, 255)),
        step: Some(1),
        default: Some("128".to_string()),
        writable: true,
    };
    assert_eq!(show_detail(b, &r), "0..255, default 128");
    let wb = find("white_balance").unwrap();
    let r = Reading {
        value: "4500".to_string(),
        range: Some((2800, 6500)),
        step: Some(10),
        default: None,
        writable: false,
    };
    assert_eq!(show_detail(wb, &r), "2800..6500 step 10 (read-only)");
    let awb = find("white_balance_auto").unwrap();
    let r = Reading { value: "on".to_string(), range: None, step: None, default: Some("on".to_string()), writable: true };
    assert_eq!(show_detail(awb, &r), "off|on, default on");
}

#[test]
fn show_aligns_its_columns() {
    let rows = vec![
        ("brightness".to_string(), "140".to_string(), "0..255".to_string()),
        ("gain".to_string(), "3".to_string(), "".to_string()),
    ];
    let hdr = find("hdr").unwrap();
    let lines = show_lines(&rows, &vec![hdr], true, true).unwrap();
    assert_eq!(lines[0], "  brightness  140   0..255");
    assert_eq!(lines[1], "  gain          3   ");
    assert_eq!(lines[2], "");
    assert!(lines[3].starts_with("Razer extension unit"));
    assert_eq!(lines[4], "  hdr           ?   off|on");
    assert_eq!(show_lines(&rows, &vec![hdr], false, true).unwrap().len(), 2);
    assert!(show_lines(&vec![], &vec![], false, false).is_err(), "a silent camera is a fault");
    assert_eq!(show_lines(&vec![], &vec![], false, true).unwrap().len(), 0);
}

#[test]
fn the_daemon_logs_each_pass() {
    let report = ApplyReport {
        applied: strings(&["brightness = 140"]),
        skipped: vec![("hdr".to_string(), "not available on this camera".to_string())],
    };
    assert_eq!(
        apply_log("C920", &report),
        strings(&["C920 present; applied 1 settings, skipped 1", "  skipped hdr: not available on this camera"])
    );
    let clean = ApplyReport { applied: vec![], skipped: vec![] };
    assert_eq!(apply_log("C920", &clean), strings(&["C920 present; applied 0 settings"]));
    assert_eq!(watch_banner(2, "night", true), "watching for camera every 2s, profile 'night' (pinned)");
    assert_eq!(watch_banner(5, "default", false), "watching for camera every 5s, profile 'default'");
}

#[test]
fn the_daemon_applies_when_cameras_change_or_on_reload() {
    let mut w = Watch::new("default".to_string(), false);
    let t = w.tick("1532:0e05@1.4", false, Some("default".to_string()));
    assert!(t.apply && t.settle, "a fresh camera is applied to after settling");
    assert!(t.logs.is_empty());
    let t = w.tick("1532:0e05@1.4", false, Some("default".to_string()));
    assert!(!t.apply, "nothing changed");
    let t = w.tick("1532:0e05@1.4", true, Some("night".to_string()));
    assert!(t.apply && !t.settle, "a reload applies at once");
    assert_eq!(t.logs, strings(&["reload requested", "now following profile 'night'"]));
    assert_eq!(w.wanted, "night");
    let t = w.tick("", false, Some("night".to_string()));
    assert!(!t.apply);
    assert_eq!(t.logs, strings(&["no camera attached"]));
}

#[test]
fn a_pinned_daemon_does_not_follow_the_ui() {
    let mut w = Watch::new("night".to_string(), true);
    let t = w.tick("x", false, Some("default".to_string()));
    assert_eq!(w.wanted, "night");
    assert!(t.logs.is_empty());
}

fn kiyo() -> Cam {
    let mut extra = vec![6u8, 0x24, 0x02, 1, 0x01, 0x02, 4, 0x24, 0x05, 2];
    let mut eu = vec![20u8, 0x24, 0x06, 3];
    eu.extend_from_slice(&kiyoctl::models::razer_kiyo_pro::EU1_GUID);
    extra.extend_from_slice(&eu);
    Cam::new("Razer Kiyo Pro".to_string(), 0x1532, 0x0e05, true, 0, parse_extra(&extra))
}

fn plain_cam() -> Cam {
    Cam::new(
        "Webcam C920".to_string(),
        0x046d,
        0x082d,
        true,
        0,
        ParsedUnits { camera_id: Some(1), processing_id: Some(2), extensions: Vec::new() },
    )
}

#[test]
fn the_control_listing_describes_every_control() {
    let lines = controls_listing();
    let pad = " ".repeat(22);
    assert_eq!(lines[0], format!("  {:<22}  image brightness", "brightness"));
    assert_eq!(lines[1], format!("  {pad}  values: a number (range depends on the camera)"));
    assert_eq!(lines[2], "");
    let heading: Vec<usize> = lines
        .iter()
        .enumerate()
        .filter(|(_, l)| l.as_str() == "  -- Razer Kiyo Pro only, and write-only --")
        .map(|(i, _)| i)
        .collect();
    assert_eq!(heading.len(), 1, "one heading before the run of write-only controls");
    let h = heading[0];
    assert_eq!(lines[h - 1], "");
    assert_eq!(lines[h - 2], "");
    assert_eq!(lines[h + 1], format!("  {:<22}  high dynamic range", "hdr"));
    assert_eq!(lines[h + 2], format!("  {pad}  values: off | on"));
    let n = lines.len();
    assert_eq!(lines[n - 2], "");
    assert_eq!(lines[n - 1], "Not every camera implements every control; `kiyoctl show` lists what yours does.");
}

#[test]
fn the_profile_listing_shows_each_portable_value() {
    let mut p = Profile::default();
    p.name = Some("Razer Kiyo Pro".to_string());
    p.controls.insert("brightness".to_string(), Setting::Number(140));
    p.controls.insert("auto_exposure".to_string(), Setting::Text("manual".to_string()));
    assert_eq!(
        profile_summary("night", &p, "night"),
        vec![
            "night  (Razer Kiyo Pro, 2 settings) * in use".to_string(),
            "    auto_exposure = manual".to_string(),
            "    brightness = 140".to_string(),
        ]
    );
    assert_eq!(
        profile_summary("day", &Profile::default(), "night"),
        vec!["day  (unknown camera, 0 settings)".to_string()]
    );
}

#[test]
fn set_refuses_what_the_camera_cannot_take() {
    assert_eq!(set_target(&kiyo(), "hdr").map(|c| c.name), Ok("hdr"));
    assert_eq!(set_target(&plain_cam(), "brightness").map(|c| c.name), Ok("brightness"));
    assert_eq!(
        set_target(&plain_cam(), "hdr").map(|c| c.name),
        Err("Webcam C920 has no Razer extension unit, so hdr is unavailable".to_string())
    );
    assert_eq!(set_target(&kiyo(), "sparkle").map(|c| c.name), Err(unknown_control("sparkle")));
}

#[test]
fn save_says_which_write_only_values_are_remembered() {
    let mut p = Profile::default();
    assert_eq!(save_note(&plain_cam(), &p), None);
    assert_eq!(
        save_note(&kiyo(), &p),
        Some(
            "Note: HDR and other Razer settings cannot be read back. Set them once with `kiyoctl set hdr on` and they will be remembered from then on."
                .to_string()
        )
    );
    p.home_to(&kiyo());
    p.set("hdr", "on");
    p.set("fov", "wide");
    assert_eq!(save_note(&kiyo(), &p), Some("Remembered Razer settings: hdr, fov".to_string()));
}

#[test]
fn get_refuses_what_the_camera_cannot_report() {
    assert_eq!(get_target("brightness").map(|c| c.name), Ok("brightness"));
    assert_eq!(
        get_target("hdr").map(|c| c.name),
        Err("hdr is write-only; the camera cannot report it. Its last value is in the profile — see `kiyoctl profiles`."
            .to_string())
    );
    assert_eq!(get_target("sparkle").map(|c| c.name), Err(unknown_control("sparkle")));
}

#[test]
fn capturing_onto_another_cameras_profile_is_announced() {
    assert_eq!(
        foreign_note("046d:085e", &kiyo()),
        "Note: this profile was last captured from camera 046d:085e, not 1532:0e05; that camera's own settings are kept in their own section."
    );
}
