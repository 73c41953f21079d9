use kiyoctl::profile::{
    active_path, apply, capture, config_dir, parse_key, profile_path, recorded_profile, render,
    Profile, Setting, DEFAULT,
};
use kiyoctl::table::Table;
use kiyoctl::usb::{parse_extra, Cam};
use kiyoctl::controls::Reading;

/// What kiyoctl 0.2.0 wrote: a flat map with hdr and fov in it, naming the
/// Kiyo Pro as its camera.
fn old_format() -> Profile {
    let mut p = Profile::default();
    p.camera = Some("1532:0e05".to_string());
    p.name = Some("Razer Kiyo Pro".to_string());
    p.controls.insert("brightness".to_string(), Setting::Number(129));
    p.controls.insert("hdr".to_string(), Setting::Text("on".to_string()));
    p.controls.insert("fov".to_string(), Setting::Text("wide".to_string()));
    p
}

fn text(s: &str) -> Setting {
    Setting::Text(s.to_string())
}

#[test]
fn migration_moves_model_controls_into_their_camera_section() {
    let mut p = old_format();
    p.migrate();
    assert!(!p.controls.contains_key("hdr"), "hdr must leave the flat map");
    assert!(p.controls.contains_key("brightness"), "standard controls stay flat");
    let section = p.per_camera.get("1532:0e05").expect("a section for the Kiyo Pro");
    assert_eq!(section.get("hdr"), Some(&text("on")));
    assert_eq!(section.get("fov"), Some(&text("wide")));
}

/// An upgraded profile must produce the same set of values to apply as
/// 0.2.0 did.
#[test]
fn migration_does_not_change_what_gets_applied() {
    let mut p = old_format();
    p.migrate();
    let values = p.values_for(0x1532, 0x0e05);
    assert_eq!(values.get("brightness"), Some(&Setting::Number(129)));
    assert_eq!(values.get("hdr"), Some(&text("on")));
    assert_eq!(values.get("fov"), Some(&text("wide")));
    assert_eq!(values.len(), 3, "nothing gained, nothing lost");
}

#[test]
fn a_profile_with_no_recorded_camera_keeps_its_values_flat() {
    let mut p = Profile::default();
    p.controls.insert("brightness".to_string(), Setting::Number(129));
    p.controls.insert("hdr".to_string(), text("on"));
    p.migrate();
    assert!(
        p.controls.contains_key("hdr"),
        "with no camera recorded, guessing which section to use is worse than leaving it"
    );
    assert!(p.per_camera.is_empty());
    // And it must still be applied, to whatever camera declares it.
    assert_eq!(p.values_for(0x1532, 0x0e05).get("hdr"), Some(&text("on")));
}

#[test]
fn another_cameras_section_is_not_applied() {
    let mut p = Profile::default();
    p.controls.insert("brightness".to_string(), Setting::Number(129));
    let mut section = Table::new();
    section.insert("hdr".to_string(), text("on"));
    p.per_camera.insert("1532:0e05".to_string(), section);
    let values = p.values_for(0x046d, 0x085e);
    assert!(values.contains_key("brightness"), "standard controls are portable");
    assert!(!values.contains_key("hdr"), "another camera's section must not apply");
}

/// 0.2.0's `set` overwrote the recorded camera on every camera it touched,
/// so a profile can name camera B while carrying camera A's hdr.
#[test]
fn a_value_the_recorded_camera_does_not_have_is_left_where_it_still_applies() {
    let mut p = Profile::default();
    p.camera = Some("046d:085e".to_string());
    p.controls.insert("brightness".to_string(), Setting::Number(129));
    p.controls.insert("hdr".to_string(), text("on"));
    p.migrate();
    assert!(p.controls.contains_key("hdr"), "the Logitech has no hdr to home it to");
    assert!(p.per_camera.is_empty());
    assert_eq!(p.values_for(0x1532, 0x0e05).get("hdr"), Some(&text("on")), "still reaches the Kiyo Pro");
}

/// Two copies of one name: the section is what `values_for` would have
/// applied, so migration must not let the flat one overwrite it.
#[test]
fn migration_keeps_the_section_value_when_both_maps_hold_a_name() {
    let mut p = Profile::default();
    p.camera = Some("1532:0e05".to_string());
    p.controls.insert("hdr".to_string(), text("off"));
    let mut section = Table::new();
    section.insert("hdr".to_string(), text("on"));
    p.per_camera.insert("1532:0e05".to_string(), section);
    p.migrate();
    assert!(!p.controls.contains_key("hdr"), "the flat duplicate goes");
    assert_eq!(
        p.values_for(0x1532, 0x0e05).get("hdr"),
        Some(&text("on")),
        "the section wins, as it does in values_for"
    );
}

#[test]
fn migration_is_idempotent() {
    let mut p = old_format();
    p.migrate();
    let once = p.values_for(0x1532, 0x0e05);
    p.migrate();
    assert_eq!(p.values_for(0x1532, 0x0e05), once);
}

#[test]
fn set_routes_a_model_control_into_the_current_cameras_section() {
    let mut p = Profile::default();
    p.camera = Some("1532:0e05".to_string());
    p.set("hdr", "on");
    p.set("brightness", "129");
    assert!(!p.controls.contains_key("hdr"), "a Model control does not go in the flat map");
    assert_eq!(p.per_camera.get("1532:0e05").unwrap().get("hdr"), Some(&text("on")));
    assert_eq!(p.controls.get("brightness"), Some(&Setting::Number(129)), "Int controls keep their JSON type");
}

/// The chimera bug: capturing from a second camera used to overwrite the
/// profile's identity while keeping the first camera's opaque values.
#[test]
fn re_homing_a_profile_does_not_strand_the_first_cameras_values() {
    let mut p = Profile::default();
    p.camera = Some("1532:0e05".to_string());
    p.set("hdr", "on");
    // Now capture from a different camera, as `capture` does: identity first.
    p.camera = Some("046d:085e".to_string());
    p.set("brightness", "140");
    assert_eq!(
        p.per_camera.get("1532:0e05").unwrap().get("hdr"),
        Some(&text("on")),
        "the first camera's value must survive"
    );
    assert!(!p.values_for(0x046d, 0x085e).contains_key("hdr"));
    assert_eq!(p.values_for(0x1532, 0x0e05).get("hdr"), Some(&text("on")));
}

#[test]
fn a_profile_from_another_camera_is_flagged() {
    let mut p = Profile::default();
    p.camera = Some("1532:0e05".to_string());
    assert_eq!(p.foreign_to(0x046d, 0x085e).as_deref(), Some("1532:0e05"));
    assert_eq!(p.foreign_to(0x1532, 0x0e05), None, "its own camera is not foreign");
}

#[test]
fn a_profile_with_no_recorded_camera_is_never_foreign() {
    assert_eq!(Profile::default().foreign_to(0x046d, 0x085e), None);
}

#[test]
fn the_section_key_reads_back_as_the_camera() {
    assert_eq!(Profile::key(0x1532, 0x0e05), "1532:0e05");
    assert_eq!(parse_key(&Profile::key(0x1532, 0x0e05)), Some((0x1532, 0x0e05)));
    assert_eq!(parse_key(&Profile::key(0, 0xffff)), Some((0, 0xffff)));
    assert_eq!(parse_key("1532:0E05"), Some((0x1532, 0x0e05)), "hex digits in either case");
    assert_eq!(parse_key("1532-0e05"), None);
    assert_eq!(parse_key("1532:"), None);
    assert_eq!(parse_key("10000:1"), None, "beyond a u16");
}

#[test]
fn get_renders_what_set_recorded() {
    let mut p = Profile::default();
    p.camera = Some("1532:0e05".to_string());
    p.set("brightness", "0140");
    p.set("hdr", "on");
    p.set("zoom_absolute", "x");
    assert_eq!(p.get("brightness").as_deref(), Some("140"), "a number is stored as a number");
    assert_eq!(p.get("hdr").as_deref(), Some("on"));
    assert_eq!(p.get("zoom_absolute").as_deref(), Some("x"), "not a number, kept as text");
    assert_eq!(p.get("contrast"), None);
}

#[test]
fn stored_values_render_the_way_the_cli_accepts_them() {
    assert_eq!(render(&Setting::Number(-3)), "-3");
    assert_eq!(render(&text("wide")), "wide");
    assert_eq!(render(&Setting::Other("true".to_string())), "true");
}

#[test]
fn homing_records_the_camera_and_its_name() {
    let cam = Cam::new("Razer Kiyo Pro".to_string(), 0x1532, 0x0e05, true, 0, parse_extra(&[]));
    let mut p = old_format();
    p.camera = Some("046d:085e".to_string());
    p.home_to(&cam);
    assert_eq!(p.camera.as_deref(), Some("1532:0e05"));
    assert_eq!(p.name.as_deref(), Some("Razer Kiyo Pro"));
    assert_eq!(p.foreign_to(0x1532, 0x0e05), None);
}

#[test]
fn profiles_live_under_the_config_directory() {
    let dir = config_dir(Some("/home/me"));
    assert_eq!(dir, "/home/me/.config/kiyoctl");
    assert_eq!(config_dir(None), "/tmp/.config/kiyoctl");
    assert_eq!(profile_path(&dir, "night"), "/home/me/.config/kiyoctl/profiles/night.json");
    assert_eq!(active_path(&dir), "/home/me/.config/kiyoctl/active");
    assert_eq!(recorded_profile("night\n").as_deref(), Some("night"));
    assert_eq!(recorded_profile("  \n"), None);
    assert_eq!(DEFAULT, "default");
}

fn sample_cam(vid: u16, pid: u16) -> Cam {
    let mut extra = vec![6u8, 0x24, 0x02, 1, 0x01, 0x02, 4, 0x24, 0x05, 2];
    let mut eu = vec![20u8, 0x24, 0x06, 3];
    eu.extend_from_slice(&kiyoctl::models::razer_kiyo_pro::EU1_GUID);
    extra.extend_from_slice(&eu);
    Cam::new("cam".to_string(), vid, pid, true, 0, parse_extra(&extra))
}

#[test]
fn applying_orders_gating_controls_first_and_reports_what_cannot_be_written() {
    let cam = sample_cam(0x1532, 0x0e05);
    let mut p = Profile::default();
    p.controls.insert("white_balance".to_string(), Setting::Number(4500));
    p.controls.insert("white_balance_auto".to_string(), text("off"));
    p.controls.insert("sparkle".to_string(), text("on"));
    p.controls.insert("hdr".to_string(), text("on"));
    let run = apply(&cam, &p);
    let order: Vec<&str> = run.planned.iter().map(|(c, _)| c.name).collect();
    assert_eq!(order[0], "white_balance_auto", "a control that gates another lands first");
    assert!(order.contains(&"white_balance") && order.contains(&"hdr"));
    assert_eq!(run.report.skipped, vec![("sparkle".to_string(), "unknown control".to_string())]);

    let plain = sample_cam(0x046d, 0x085e);
    let run = apply(&plain, &p);
    assert!(run
        .report
        .skipped
        .contains(&("hdr".to_string(), "not available on this camera".to_string())));
}

#[test]
fn a_write_whose_prerequisite_does_not_hold_is_skipped() {
    let cam = sample_cam(0x1532, 0x0e05);
    let mut p = Profile::default();
    p.controls.insert("white_balance".to_string(), Setting::Number(4500));
    let mut run = apply(&cam, &p);
    assert_eq!(run.planned.len(), 1);
    let dep = run.dependency_to_read().expect("the camera must say whether auto white balance is on");
    assert_eq!(dep.name, "white_balance_auto");
    assert!(run.gate(Some("on".to_string())).is_none());
    assert!(run.done());
    let (report, touched) = run.finish();
    assert_eq!(
        report.skipped,
        vec![("white_balance".to_string(), "requires white_balance_auto=off, but it is on".to_string())]
    );
    assert!(!touched);
}

#[test]
fn a_written_extension_control_asks_the_camera_to_keep_it() {
    let cam = sample_cam(0x1532, 0x0e05);
    let mut p = Profile::default();
    p.camera = Some("1532:0e05".to_string());
    p.set("hdr", "on");
    p.set("white_balance_auto", "off");
    p.set("white_balance", "4500");
    let mut run = apply(&cam, &p);
    while !run.done() {
        assert!(run.dependency_to_read().is_none(), "the profile sets every prerequisite itself");
        if let Some((ctrl, value)) = run.gate(None) {
            run.record(ctrl, &value, Ok(()));
        }
    }
    let (report, touched) = run.finish();
    assert_eq!(report.applied, vec!["white_balance_auto = off", "white_balance = 4500", "hdr = on"]);
    assert!(report.skipped.is_empty());
    assert!(touched);
}

#[test]
fn a_failed_write_is_reported_with_its_reason() {
    let cam = sample_cam(0x1532, 0x0e05);
    let mut p = Profile::default();
    p.controls.insert("brightness".to_string(), Setting::Number(300));
    let mut run = apply(&cam, &p);
    let (ctrl, value) = run.gate(None).expect("brightness has no prerequisite");
    run.record(ctrl, &value, Err("300 is out of range".to_string()));
    let (report, touched) = run.finish();
    assert!(report.applied.is_empty());
    assert_eq!(report.skipped, vec![("brightness".to_string(), "300 is out of range".to_string())]);
    assert!(!touched);
}

#[test]
fn capture_records_what_the_camera_reports_and_keeps_write_only_values() {
    let cam = sample_cam(0x1532, 0x0e05);
    let mut p = Profile::default();
    p.camera = Some("046d:085e".to_string());
    p.set("brightness", "1");
    p.camera = Some("1532:0e05".to_string());
    p.set("hdr", "on");
    let controls = cam.controls();
    let readings: Vec<Option<Reading>> = controls
        .iter()
        .map(|c| match c.name {
            "brightness" => Some(Reading {
                value: "140".to_string(),
                range: Some((0, 255)),
                step: Some(1),
                default: Some("128".to_string()),
                writable: true,
            }),
            "gain" => Some(Reading {
                value: "3".to_string(),
                range: None,
                step: None,
                default: None,
                writable: false,
            }),
            _ => None,
        })
        .collect();
    let (captured, previous) = capture(&cam, &mut p, &readings);
    assert_eq!(captured, vec!["brightness".to_string()], "read-only controls are not recorded");
    assert_eq!(previous, None, "the profile already named this camera");
    assert_eq!(p.camera.as_deref(), Some("1532:0e05"));
    assert_eq!(p.controls.get("brightness"), Some(&Setting::Number(140)));
    assert_eq!(p.per_camera.get("1532:0e05").unwrap().get("hdr"), Some(&text("on")), "write-only values stay");
}

#[test]
fn a_copied_profile_is_independent() {
    let source = old_format();
    let mut copy = source.dup();
    assert_eq!(copy.get("brightness"), Some("129".to_string()));
    assert_eq!(copy.camera, source.camera);
    copy.set("brightness", "10");
    assert_eq!(copy.get("brightness"), Some("10".to_string()));
    assert_eq!(source.get("brightness"), Some("129".to_string()));
}

#[test]
fn capturing_leaves_other_cameras_and_unread_values_alone() {
    let cam = sample_cam(0x1532, 0x0e05);
    let mut p = Profile::default();
    p.camera = Some("046d:085e".to_string());
    p.per_camera.insert("046d:085e".to_string(), {
        let mut t = Table::new();
        t.insert("hdr".to_string(), text("off"));
        t
    });
    p.controls.insert("contrast".to_string(), Setting::Number(90));
    p.controls.insert("fov".to_string(), text("narrow"));
    let readings: Vec<Option<Reading>> = cam.controls().iter().map(|_| None).collect();
    let (captured, previous) = capture(&cam, &mut p, &readings);
    assert!(captured.is_empty());
    assert_eq!(previous.as_deref(), Some("046d:085e"), "capturing from another camera is flagged");
    assert_eq!(p.camera.as_deref(), Some("1532:0e05"));
    assert_eq!(p.per_camera.get("046d:085e").unwrap().get("hdr"), Some(&text("off")));
    assert_eq!(p.controls.get("contrast"), Some(&Setting::Number(90)));
    assert_eq!(p.controls.get("fov"), Some(&text("narrow")));
}

#[test]
fn applying_accounts_for_every_value() {
    let cam = sample_cam(0x046d, 0x085e);
    let mut p = Profile::default();
    p.controls.insert("brightness".to_string(), Setting::Number(120));
    p.controls.insert("hdr".to_string(), text("on"));
    p.controls.insert("sparkle".to_string(), text("on"));
    let run = apply(&cam, &p);
    assert_eq!(run.planned.len() + run.report.skipped.len(), 3);
    assert_eq!(
        run.report.skipped,
        vec![
            ("hdr".to_string(), "not available on this camera".to_string()),
            ("sparkle".to_string(), "unknown control".to_string()),
        ]
    );
}

#[test]
fn a_whole_run_reports_every_value_exactly_once() {
    let cam = sample_cam(0x1532, 0x0e05);
    let mut p = Profile::default();
    p.controls.insert("white_balance".to_string(), Setting::Number(4500));
    p.controls.insert("white_balance_auto".to_string(), text("on"));
    p.controls.insert("brightness".to_string(), Setting::Number(300));
    p.controls.insert("contrast".to_string(), Setting::Number(20));
    p.controls.insert("sparkle".to_string(), text("on"));
    let mut run = apply(&cam, &p);
    let mut steps = 0;
    while !run.done() {
        steps += 1;
        if let Some((ctrl, value)) = run.gate(None) {
            let outcome = if ctrl.name == "brightness" { Err("300 is out of range".to_string()) } else { Ok(()) };
            run.record(ctrl, &value, outcome);
        }
    }
    assert_eq!(steps, 4);
    let (report, _) = run.finish();
    assert_eq!(report.applied, vec!["white_balance_auto = on", "contrast = 20"]);
    let mut named: Vec<&str> = report.applied.iter().map(|l| l.split(" = ").next().unwrap()).collect();
    named.extend(report.skipped.iter().map(|(n, _)| n.as_str()));
    named.sort();
    assert_eq!(named, vec!["brightness", "contrast", "sparkle", "white_balance", "white_balance_auto"]);
}
