use kiyoctl::controls::{find, Reading};
use kiyoctl::profile::ApplyReport;
use kiyoctl::tui::{
    applied_status, bar, centred, columns, dialog_rows, help_box, keys_hint, list_hits, unclaimed_lines, picker_width, place_hits, reset_plan, row_hit,
    Action, Key, KeyCode, Mode, Mouse, MouseButton, MouseKind, Row, Ui, NEW_PROFILE,
};

fn row(name: &str, value: Option<&str>, range: Option<(i64, i64)>, step: i64) -> Row {
    Row {
        ctrl: find(name).expect("known control"),
        value: value.map(str::to_string),
        range,
        step,
        default: Some("128".into()),
        writable: true,
    }
}

/// A fixed camera-shaped state, so nothing depends on hardware.
fn ui() -> Ui {
    Ui {
        device_name: "Razer Kiyo Pro".into(),
        vid: 0x1532,
        pid: 0x0e05,
        profile_name: "default".into(),
        rows: vec![
            row("brightness", Some("129"), Some((0, 255)), 1),
            row("contrast", Some("163"), Some((0, 255)), 1),
            row("white_balance_auto", Some("on"), None, 1),
            // Locked: white balance needs auto white balance off.
            row("white_balance", Some("4430"), Some((2000, 7500)), 10),
            row("hdr", Some("on"), None, 1),
            row("hdr_mode", None, None, 1),
            row("fov", Some("wide"), None, 1),
        ],
        selected: 0,
        mode: Mode::Browse,
        status: "Profile 'default'. Press ? for keys.".into(),
        dirty: false,
        hits: Vec::new(),
        profile_hit: None,
        menu_hits: Vec::new(),
        unclaimed: Vec::new(),
    }
}

/// Where a 100x22 terminal draws everything a click can land on: the header
/// at the top, the list's inner area at (1, 4) and 13 lines tall, and the
/// profile picker centred on the whole screen.
fn draw(ui: &mut Ui) {
    ui.profile_hit = Some(ui.profile_hit_at(0, 0));
    let cols = columns(&ui.rows, 100);
    let layout = list_hits(&ui.rows, &cols);
    ui.hits = place_hits(&layout, 0, 1, 4, 13);
    ui.menu_hits.clear();
    if let Mode::Profiles { names, .. } = &ui.mode {
        let (_, py, _, ph) = centred(0, 0, 100, 22, picker_width(names), names.len() as u16 + 4);
        ui.menu_hits = dialog_rows(names.len(), py + 1, ph - 2);
    }
}

/// Mouse handling needs real geometry, so lay the screen out first.
fn laid_out() -> Ui {
    let mut ui = ui();
    draw(&mut ui);
    ui
}

fn no_profiles() -> Vec<String> {
    Vec::new()
}

fn click_at(ui: &mut Ui, x: u16, y: u16) -> Action {
    ui.on_mouse(Mouse { kind: MouseKind::Down(MouseButton::Left), column: x, row: y }, &no_profiles())
}

fn scroll(ui: &mut Ui, up: bool) -> Action {
    ui.on_mouse(
        Mouse { kind: if up { MouseKind::ScrollUp } else { MouseKind::ScrollDown }, column: 10, row: 5 },
        &no_profiles(),
    )
}

/// The row for a control, as drawn.
fn hit_of(ui: &Ui, name: &str) -> (usize, u16, Option<(u16, u16)>, Vec<(u16, u16, &'static str)>) {
    let index = ui.rows.iter().position(|r| r.ctrl.name == name).expect("row");
    let h = ui.hits.iter().find(|h| h.index == index).expect("drawn");
    (h.index, h.y, h.bar, h.choices.clone())
}

fn press(ui: &mut Ui, code: KeyCode) -> Action {
    ui.on_key(Key { code, shift: false, control: false }, &no_profiles())
}

fn written(a: &Action) -> Option<&str> {
    match a {
        Action::Write { value, .. } => Some(value.as_str()),
        _ => None,
    }
}

// --- behaviour ---

#[test]
fn arrows_step_numeric_controls_and_clamp() {
    let mut ui = ui();
    // brightness 129 +1
    match press(&mut ui, KeyCode::Right) {
        Action::Write { row, value } => {
            assert_eq!(row, 0);
            assert_eq!(value, "130");
        }
        _ => panic!("expected a write"),
    }
    // Shift steps by ten times the resolution.
    let big = ui.on_key(Key { code: KeyCode::Right, shift: true, control: false }, &no_profiles());
    assert!(matches!(big, Action::Write { value, .. } if value == "139"));

    // At the ceiling it refuses rather than sending a doomed write.
    ui.rows[0].value = Some("255".into());
    assert!(matches!(press(&mut ui, KeyCode::Right), Action::Nothing));
    assert!(ui.status.contains("maximum"));
}

#[test]
fn choices_cycle_in_both_directions() {
    let mut ui = ui();
    ui.move_by(6); // fov = wide
    assert_eq!(written(&press(&mut ui, KeyCode::Right)), Some("medium"));
    assert_eq!(written(&press(&mut ui, KeyCode::Left)), Some("narrow"));
}

#[test]
fn write_only_control_starts_from_an_end() {
    let mut ui = ui();
    ui.move_by(5); // hdr_mode, never read back
    assert_eq!(written(&press(&mut ui, KeyCode::Right)), Some("dark"));
}

#[test]
fn locked_control_is_refused_with_a_reason() {
    let mut ui = ui();
    ui.move_by(3); // white_balance, while auto white balance is on
    assert!(matches!(press(&mut ui, KeyCode::Right), Action::Nothing));
    assert!(ui.status.contains("white_balance_auto is on"));
}

#[test]
fn typed_value_is_written_on_enter() {
    let mut ui = ui();
    press(&mut ui, KeyCode::Enter);
    for c in "200".chars() {
        press(&mut ui, KeyCode::Char(c));
    }
    assert_eq!(written(&press(&mut ui, KeyCode::Enter)), Some("200"));
}

#[test]
fn escape_cancels_an_edit_without_writing() {
    let mut ui = ui();
    press(&mut ui, KeyCode::Enter);
    press(&mut ui, KeyCode::Char('9'));
    assert!(matches!(press(&mut ui, KeyCode::Esc), Action::Nothing));
    assert!(matches!(ui.mode, Mode::Browse));
    assert_eq!(ui.rows[0].value.as_deref(), Some("129"));
}

#[test]
fn navigation_wraps_around() {
    let mut ui = ui();
    press(&mut ui, KeyCode::Up);
    assert_eq!(ui.selected(), 6);
    press(&mut ui, KeyCode::Down);
    assert_eq!(ui.selected(), 0);
}

// --- profile dialog ---

#[test]
fn clicking_the_profile_name_opens_the_picker() {
    let mut ui = laid_out();
    let (x0, _, y) = ui.profile_hit.expect("profile name is clickable");
    click_at(&mut ui, x0, y);
    assert!(matches!(ui.mode, Mode::Profiles { .. }));
}

#[test]
fn the_clickable_region_covers_the_name_and_no_more() {
    let mut ui = laid_out();
    let (x0, x1, y) = ui.profile_hit.expect("hit");
    // Width matches the name that is drawn.
    assert_eq!((x1 - x0) as usize, ui.profile_name.chars().count());
    // Just before the name is the label, which must not open the dialog.
    click_at(&mut ui, x0 - 1, y);
    assert!(matches!(ui.mode, Mode::Browse));
    click_at(&mut ui, x1 - 1, y);
    assert!(matches!(ui.mode, Mode::Profiles { .. }));
}

#[test]
fn p_opens_the_picker_and_esc_closes_it() {
    let mut ui = laid_out();
    press(&mut ui, KeyCode::Char('p'));
    assert!(matches!(ui.mode, Mode::Profiles { .. }));
    press(&mut ui, KeyCode::Esc);
    assert!(matches!(ui.mode, Mode::Browse));
}

/// The picker must start on the profile in use, whatever the order of the
/// saved profiles.
#[test]
fn picker_starts_on_the_current_profile() {
    let mut ui = ui();
    ui.profile_name = "beta".into();
    ui.mode = Mode::Profiles { names: vec!["alpha".into(), "beta".into(), NEW_PROFILE.into()], selected: 0 };
    // Re-open the way the UI does, to exercise the lookup.
    ui.open_profiles(&no_profiles());
    if let Mode::Profiles { names, selected } = &ui.mode {
        // Only meaningful when "beta" is actually saved; otherwise the
        // fallback of 0 applies.
        if let Some(i) = names.iter().position(|n| n == "beta") {
            assert_eq!(*selected, i);
        }
    } else {
        panic!("dialog did not open");
    }
}

#[test]
fn the_picker_opens_on_the_saved_profile_in_use() {
    let mut ui = ui();
    ui.profile_name = "beta".into();
    ui.open_profiles(&vec!["alpha".to_string(), "beta".to_string()]);
    match &ui.mode {
        Mode::Profiles { names, selected } => {
            assert_eq!(names, &vec!["alpha".to_string(), "beta".to_string(), NEW_PROFILE.to_string()]);
            assert_eq!(*selected, 1);
        }
        _ => panic!("dialog did not open"),
    }
}

#[test]
fn choosing_another_profile_switches_to_it() {
    let mut ui = ui();
    ui.mode = Mode::Profiles {
        names: vec!["default".into(), "streaming".into(), NEW_PROFILE.into()],
        selected: 1,
    };
    match ui.choose_profile(1) {
        Action::SwitchProfile(name) => assert_eq!(name, "streaming"),
        _ => panic!("expected a switch"),
    }
    assert!(matches!(ui.mode, Mode::Browse));
}

#[test]
fn choosing_the_current_profile_does_nothing() {
    let mut ui = ui(); // profile_name is "default"
    ui.mode = Mode::Profiles { names: vec!["default".into(), NEW_PROFILE.into()], selected: 0 };
    assert!(matches!(ui.choose_profile(0), Action::Nothing));
    assert!(ui.status.contains("Already using"));
}

#[test]
fn the_new_entry_asks_for_a_name() {
    let mut ui = ui();
    ui.mode = Mode::Profiles { names: vec!["default".into(), NEW_PROFILE.into()], selected: 1 };
    assert!(matches!(ui.choose_profile(1), Action::Nothing));
    assert!(matches!(ui.mode, Mode::NewProfile { .. }));

    for c in "night-shoot".chars() {
        press(&mut ui, KeyCode::Char(c));
    }
    match press(&mut ui, KeyCode::Enter) {
        Action::CreateProfile(name) => assert_eq!(name, "night-shoot"),
        _ => panic!("expected a create"),
    }
}

#[test]
fn new_profile_names_reject_path_characters() {
    let mut ui = ui();
    ui.mode = Mode::NewProfile { buffer: String::new() };
    for c in "../etc/pw n".chars() {
        press(&mut ui, KeyCode::Char(c));
    }
    match press(&mut ui, KeyCode::Enter) {
        // Only the safe characters survive.
        Action::CreateProfile(name) => assert_eq!(name, "etcpwn"),
        _ => panic!("expected a create"),
    }
}

#[test]
fn an_empty_new_name_is_cancelled() {
    let mut ui = ui();
    ui.mode = Mode::NewProfile { buffer: String::new() };
    assert!(matches!(press(&mut ui, KeyCode::Enter), Action::Nothing));
    assert!(matches!(ui.mode, Mode::Browse));
}

#[test]
fn backspace_edits_a_new_name() {
    let mut ui = ui();
    ui.mode = Mode::NewProfile { buffer: "ab".to_string() };
    press(&mut ui, KeyCode::Backspace);
    assert!(matches!(&ui.mode, Mode::NewProfile { buffer } if buffer == "a"));
}

#[test]
fn clicking_a_picker_entry_chooses_it() {
    let mut ui = ui();
    ui.mode = Mode::Profiles {
        names: vec!["default".into(), "streaming".into(), NEW_PROFILE.into()],
        selected: 0,
    };
    draw(&mut ui);
    let (y, _) = ui.menu_hits[1];
    match click_at(&mut ui, 20, y) {
        Action::SwitchProfile(name) => assert_eq!(name, "streaming"),
        _ => panic!("expected a switch"),
    }
}

#[test]
fn clicking_away_closes_the_picker() {
    let mut ui = ui();
    ui.mode = Mode::Profiles { names: vec!["default".into(), NEW_PROFILE.into()], selected: 0 };
    draw(&mut ui);
    // The very top line is outside the dialog.
    click_at(&mut ui, 1, 0);
    assert!(matches!(ui.mode, Mode::Browse));
}

#[test]
fn picker_navigation_wraps() {
    let mut ui = ui();
    ui.mode = Mode::Profiles { names: vec!["a".into(), "b".into(), NEW_PROFILE.into()], selected: 0 };
    press(&mut ui, KeyCode::Up);
    assert!(matches!(&ui.mode, Mode::Profiles { selected, .. } if *selected == 2));
    press(&mut ui, KeyCode::Down);
    assert!(matches!(&ui.mode, Mode::Profiles { selected, .. } if *selected == 0));
}

// --- mouse ---

#[test]
fn clicking_a_row_selects_it() {
    let mut ui = laid_out();
    let (_, y, _, _) = hit_of(&ui, "fov");
    assert!(matches!(click_at(&mut ui, 4, y), Action::Nothing));
    assert_eq!(ui.rows[ui.selected()].ctrl.name, "fov");
}

#[test]
fn clicking_a_bar_sets_a_proportional_value() {
    let mut ui = laid_out();
    let (_, y, bar_at, _) = hit_of(&ui, "brightness");
    let (x0, x1) = bar_at.expect("brightness draws a bar");

    // Far left is the minimum, far right the maximum.
    assert_eq!(written(&click_at(&mut ui, x0, y)), Some("0"));
    assert_eq!(written(&click_at(&mut ui, x1 - 1, y)), Some("255"));

    // The middle lands near the midpoint of 0..255.
    match click_at(&mut ui, x0 + (x1 - x0) / 2, y) {
        Action::Write { value, .. } => {
            let v: i64 = value.parse().expect("number");
            assert!((120..=136).contains(&v), "midpoint click gave {v}");
        }
        _ => panic!("expected a write"),
    }
}

#[test]
fn bar_clicks_snap_to_the_control_resolution() {
    let mut ui = laid_out();
    // White balance moves in steps of 10, but needs auto white balance off.
    ui.rows[2].value = Some("off".into());
    let (_, y, bar_at, _) = hit_of(&ui, "white_balance");
    let (x0, x1) = bar_at.expect("bar");
    for x in x0..x1 {
        if let Action::Write { value, .. } = click_at(&mut ui, x, y) {
            let v: i64 = value.parse().expect("number");
            assert_eq!(v % 10, 0, "{v} is not a multiple of the step");
            assert!((2000..=7500).contains(&v), "{v} out of range");
        }
    }
}

#[test]
fn clicking_an_option_name_selects_that_option() {
    let mut ui = laid_out();
    let (_, y, _, choices) = hit_of(&ui, "fov");
    let (x0, _, name) = *choices.iter().find(|(_, _, n)| *n == "narrow").expect("narrow");
    assert_eq!(written(&click_at(&mut ui, x0, y)), Some(name));
}

#[test]
fn clicking_the_active_option_does_not_rewrite_it() {
    let mut ui = laid_out();
    let (_, y, _, choices) = hit_of(&ui, "fov"); // already "wide"
    let (x0, _, _) = *choices.iter().find(|(_, _, n)| *n == "wide").expect("wide");
    assert!(matches!(click_at(&mut ui, x0, y), Action::Nothing));
}

#[test]
fn clicking_a_locked_control_is_refused() {
    let mut ui = laid_out();
    let (_, y, bar_at, _) = hit_of(&ui, "white_balance"); // auto white balance is on
    let (x0, x1) = bar_at.expect("bar");
    assert!(matches!(click_at(&mut ui, (x0 + x1) / 2, y), Action::Nothing));
    assert!(ui.status.contains("white_balance_auto is on"));
}

#[test]
fn dragging_stays_on_the_control_it_started_on() {
    let mut ui = laid_out();
    let (b_index, b_y, b_bar, _) = hit_of(&ui, "brightness");
    let (_, c_y, _, _) = hit_of(&ui, "contrast");
    ui.selected = b_index;

    let drag = |ui: &mut Ui, x: u16, y: u16| {
        ui.on_mouse(Mouse { kind: MouseKind::Drag(MouseButton::Left), column: x, row: y }, &no_profiles())
    };
    let (x0, x1) = b_bar.expect("bar");
    assert!(matches!(drag(&mut ui, x1 - 1, b_y), Action::Write { .. }));
    // Straying onto another row must not start changing that one.
    assert!(matches!(drag(&mut ui, (x0 + x1) / 2, c_y), Action::Nothing));
    assert_eq!(ui.selected(), b_index);
}

#[test]
fn clicking_outside_any_control_does_nothing() {
    let mut ui = laid_out();
    // The header, above the list.
    assert!(matches!(click_at(&mut ui, 5, 1), Action::Nothing));
}

#[test]
fn scrolling_moves_the_selection() {
    let mut ui = laid_out();
    scroll(&mut ui, false);
    assert_eq!(ui.selected(), 1);
    scroll(&mut ui, true);
    assert_eq!(ui.selected(), 0);
}

#[test]
fn a_click_dismisses_help() {
    let mut ui = laid_out();
    press(&mut ui, KeyCode::Char('?'));
    assert!(matches!(ui.mode, Mode::Help));
    click_at(&mut ui, 10, 10);
    assert!(matches!(ui.mode, Mode::Browse));
}

#[test]
fn the_mouse_is_ignored_while_typing() {
    let mut ui = laid_out();
    press(&mut ui, KeyCode::Enter); // edit brightness
    let (_, y, _, choices) = hit_of(&ui, "fov");
    assert!(matches!(click_at(&mut ui, choices[1].0, y), Action::Nothing));
    assert!(matches!(ui.mode, Mode::Edit { .. }));
}

#[test]
fn bar_scales_within_range() {
    assert_eq!(bar(0, 0, 10, 4), "····");
    assert_eq!(bar(10, 0, 10, 4), "████");
    assert_eq!(bar(5, 0, 10, 4), "██··");
    // Degenerate input must not panic or divide by zero.
    assert_eq!(bar(5, 5, 5, 4), "");
    assert_eq!(bar(99, 0, 10, 4), "████");
}

// --- more behaviour ---

#[test]
fn keys_ask_for_profile_work_and_quit() {
    let mut ui = ui();
    assert!(matches!(press(&mut ui, KeyCode::Char('s')), Action::SaveProfile));
    assert!(matches!(press(&mut ui, KeyCode::Char('a')), Action::ApplyProfile));
    assert!(matches!(press(&mut ui, KeyCode::Char('R')), Action::ResetDefaults));
    assert!(matches!(press(&mut ui, KeyCode::Char('r')), Action::Reload));
    assert!(matches!(press(&mut ui, KeyCode::Char('q')), Action::Quit));
    let ctrl_c = ui.on_key(Key { code: KeyCode::Char('c'), shift: false, control: true }, &no_profiles());
    assert!(matches!(ctrl_c, Action::Quit));
    assert!(matches!(press(&mut ui, KeyCode::Char('c')), Action::Nothing));
}

#[test]
fn d_writes_the_cameras_default() {
    let mut ui = ui();
    assert_eq!(written(&press(&mut ui, KeyCode::Char('d'))), Some("128"));
    ui.rows[0].default = None;
    assert!(matches!(press(&mut ui, KeyCode::Char('d')), Action::Nothing));
    assert_eq!(ui.status, "brightness has no reported default");
}

#[test]
fn home_end_and_paging_move_the_selection() {
    let mut ui = ui();
    press(&mut ui, KeyCode::End);
    assert_eq!(ui.selected(), 6);
    press(&mut ui, KeyCode::Home);
    assert_eq!(ui.selected(), 0);
    press(&mut ui, KeyCode::PageDown);
    assert_eq!(ui.selected(), 3, "ten rows down wraps round seven");
    press(&mut ui, KeyCode::PageUp);
    assert_eq!(ui.selected(), 0);
}

#[test]
fn a_read_only_control_says_so() {
    let mut ui = ui();
    ui.rows[1].writable = false;
    ui.move_by(1);
    assert!(matches!(press(&mut ui, KeyCode::Left), Action::Nothing));
    assert_eq!(ui.status, "contrast is read-only");
}

#[test]
fn a_number_without_a_reading_cannot_be_stepped() {
    let mut ui = ui();
    ui.rows[0].value = None;
    assert!(matches!(press(&mut ui, KeyCode::Right), Action::Nothing));
    assert_eq!(ui.status, "brightness has no readable value");
    ui.rows[0].value = Some("0".into());
    assert!(matches!(press(&mut ui, KeyCode::Left), Action::Nothing));
    assert_eq!(ui.status, "brightness is already at its minimum");
}

#[test]
fn rows_show_a_question_mark_for_unknown_values() {
    let ui = ui();
    assert_eq!(ui.rows[5].shown(), "?");
    assert_eq!(ui.rows[0].shown(), "129");
    assert!(ui.rows[0].numeric());
    assert!(!ui.rows[6].numeric());
}

#[test]
fn the_profile_entries_end_with_the_new_entry() {
    assert_eq!(
        kiyoctl::tui::profile_entries(&vec!["a".to_string()]),
        vec!["a".to_string(), NEW_PROFILE.to_string()]
    );
}

#[test]
fn the_list_columns_fit_the_longest_name_and_value() {
    let u = ui();
    let cols = columns(&u.rows, 100);
    assert_eq!((cols.name, cols.value, cols.bar, cols.x), (18, 6, 32, 31));
    let narrow = columns(&u.rows, 60);
    assert_eq!(narrow.bar, 12);
    assert_eq!(columns(&u.rows, 40).bar, 0);
    let empty = columns(&Vec::new(), 80);
    assert_eq!((empty.name, empty.value, empty.bar, empty.x), (10, 6, 32, 23));
}

#[test]
fn a_row_is_clicked_on_its_bar_or_its_option_names() {
    let u = ui();
    let h = row_hit(&u.rows[0], 0, 31, 32);
    assert_eq!((h.index, h.y, h.bar), (0, 0, Some((31, 63))));
    assert!(h.choices.is_empty());
    let h = row_hit(&u.rows[2], 2, 31, 32);
    assert_eq!(h.bar, None);
    assert_eq!(h.choices, vec![(31, 34, "off"), (35, 37, "on")]);
    let h = row_hit(&u.rows[5], 5, 31, 32);
    assert_eq!(h.choices, vec![(31, 35, "dark"), (36, 42, "bright")]);
    // No room for a bar: a numeric row has nothing to click.
    let h = row_hit(&u.rows[0], 0, 31, 0);
    assert_eq!(h.bar, None);
    assert!(h.choices.is_empty());
}

#[test]
fn the_key_hint_shrinks_with_the_terminal() {
    assert_eq!(keys_hint(true, 200), "digits · Enter confirm · Esc cancel");
    assert_eq!(
        keys_hint(false, 92),
        "↑↓ move · ←→ adjust · Enter set · p profile · s save · a apply · R reset · ? help · q quit"
    );
    assert_eq!(keys_hint(false, 91), "↑↓ move · ←→ adjust · p profile · s save · ? help · q quit");
    assert_eq!(keys_hint(false, 59), "? help · q quit");
}

#[test]
fn rows_come_from_readings_or_from_the_profile() {
    let ctrl = find("brightness").unwrap();
    let r = Row::read(
        ctrl,
        Reading { value: "129".into(), range: Some((0, 255)), step: Some(0), default: Some("128".into()), writable: false },
    );
    assert_eq!((r.value.as_deref(), r.range, r.step, r.default.as_deref(), r.writable), (Some("129"), Some((0, 255)), 1, Some("128"), false));
    let r = Row::read(ctrl, Reading { value: "7".into(), range: None, step: Some(5), default: None, writable: true });
    assert_eq!(r.step, 5);
    let hdr = Row::remembered(find("hdr").unwrap(), Some("on".into()));
    assert_eq!((hdr.value.as_deref(), hdr.range, hdr.step, hdr.writable), (Some("on"), None, 1, true));
    assert_eq!(Row::remembered(find("hdr").unwrap(), None).shown(), "?");
}

#[test]
fn the_status_after_applying_counts_what_was_written() {
    let report = ApplyReport { applied: vec!["hdr = on".into(), "fov = wide".into()], skipped: Vec::new() };
    assert_eq!(applied_status(&report), "Applied 2 settings");
    let report = ApplyReport { applied: Vec::new(), skipped: vec![("sparkle".into(), "unknown control".into())] };
    assert_eq!(applied_status(&report), "Applied 0 settings, skipped 1");
}

#[test]
fn the_ends_of_a_stepped_bar_are_its_extremes() {
    let mut ui = laid_out();
    ui.rows[2].value = Some("off".into());
    let (_, y, bar_at, _) = hit_of(&ui, "white_balance");
    let (x0, x1) = bar_at.expect("bar");
    assert_eq!(written(&click_at(&mut ui, x0, y)), Some("2000"));
    assert_eq!(written(&click_at(&mut ui, x1 - 1, y)), Some("7500"));
}

#[test]
fn dialogs_are_centred_and_list_what_fits() {
    assert_eq!(centred(0, 0, 100, 22, 44, 5), (28, 8, 44, 5));
    assert_eq!(centred(10, 2, 30, 10, 44, 5), (11, 4, 28, 5));
    assert_eq!(centred(0, 0, 1, 1, 44, 5), (0, 0, 0, 0));
    assert_eq!(dialog_rows(3, 7, 10), vec![(7, 0), (8, 1), (9, 2)]);
    assert_eq!(dialog_rows(5, 7, 3), vec![(7, 0), (8, 1)]);
    assert_eq!(dialog_rows(5, 7, 0), vec![]);
}

#[test]
fn restoring_defaults_writes_only_adjustable_readable_rows() {
    let mut u = ui();
    u.rows[1].writable = false;
    u.rows[3].default = None;
    let plan = reset_plan(&u.rows);
    assert_eq!(plan, vec![(0, "128".to_string()), (2, "128".to_string())]);
}

#[test]
fn the_last_cell_of_a_bar_is_the_maximum_whatever_the_step() {
    let mut u = ui();
    u.rows[0] = row("brightness", Some("100"), Some((0, 254)), 10);
    assert_eq!(u.value_at(0, 25, 0, 26).as_deref(), Some("254"));
    assert_eq!(u.value_at(0, 40, 0, 26).as_deref(), Some("254"));
    assert_eq!(u.value_at(0, 0, 0, 26).as_deref(), Some("0"));
    assert_eq!(u.value_at(0, 24, 0, 26).as_deref(), Some("240"));
}

#[test]
fn the_profile_name_is_clickable_where_the_header_prints_it() {
    let u = ui();
    // "Razer Kiyo Pro  1532:0e05   profile: " is 37 cells after the border.
    assert_eq!(u.profile_hit_at(0, 0), (38, 45, 1));
    assert_eq!(u.profile_hit_at(3, 2), (41, 48, 3));
}

#[test]
fn a_scrolled_list_places_only_the_rows_that_show() {
    let u = ui();
    let cols = columns(&u.rows, 100);
    let layout = list_hits(&u.rows, &cols);
    assert_eq!(layout.len(), u.rows.len());
    let placed = place_hits(&layout, 2, 1, 4, 3);
    assert_eq!(placed.iter().map(|h| (h.index, h.y)).collect::<Vec<_>>(), vec![(2, 4), (3, 5), (4, 6)]);
    let bar = layout[3].bar.expect("white balance has a bar");
    assert_eq!(placed[1].bar, Some((bar.0 + 1, bar.1 + 1)));
    let on = &placed[2].choices;
    assert_eq!(on.iter().map(|c| c.2).collect::<Vec<_>>(), vec!["off", "on"]);
    assert_eq!(on[0].0, layout[4].choices[0].0 + 1);
    assert!(place_hits(&layout, 7, 1, 4, 13).is_empty());
    assert_eq!(place_hits(&layout, 0, 1, 4, 13).len(), 7);
}

#[test]
fn the_profile_picker_is_at_least_thirty_four_cells_wide() {
    assert_eq!(picker_width(&vec!["default".to_string(), NEW_PROFILE.to_string()]), 34);
    assert_eq!(picker_width(&vec!["x".repeat(40)]), 46);
    assert_eq!(picker_width(&Vec::new()), 34);
}

#[test]
fn enter_on_a_numeric_row_opens_the_editor_whatever_its_range() {
    let mut u = ui();
    u.rows[0] = row("brightness", Some("9223372036854775807"), Some((255, 0)), i64::MAX);
    let enter = Key { code: KeyCode::Enter, shift: false, control: false };
    assert!(u.takes_key(&enter));
    let right = Key { code: KeyCode::Right, shift: false, control: false };
    assert!(!u.takes_key(&right));
    assert!(matches!(u.on_key(enter, &no_profiles()), Action::Nothing));
    assert!(matches!(u.mode, Mode::Edit { .. }));
    assert_eq!(u.status, "Type a value for brightness, Enter to confirm");
}

#[test]
fn a_step_is_taken_only_where_it_stays_within_machine_integers() {
    let mut u = ui();
    let right = Key { code: KeyCode::Right, shift: false, control: false };
    let big_left = Key { code: KeyCode::Char('H'), shift: false, control: false };
    assert!(u.takes_key(&right));
    u.rows[0] = row("brightness", Some("-9223372036854775807"), Some((i64::MIN, 0)), 2);
    assert!(u.takes_key(&right));
    assert!(!u.takes_key(&big_left));
    // A read-only row is refused before any arithmetic.
    u.rows[0].writable = false;
    assert!(u.takes_key(&big_left));
}

#[test]
fn the_help_lists_unclaimed_extension_units_only_when_there_are_some() {
    assert!(unclaimed_lines(&Vec::new()).is_empty());
    let lines = unclaimed_lines(&vec!["23e49ed0-1178-4f31-ae52-d2fb8a8d3b48".to_string()]);
    assert_eq!(
        lines,
        vec![
            "".to_string(),
            "This camera has 1 unrecognised extension unit(s):".to_string(),
            "  23e49ed0-1178-4f31-ae52-d2fb8a8d3b48".to_string(),
            "Run `kiyoctl probe`, then see docs/adding-a-camera.md".to_string(),
        ]
    );
}

#[test]
fn the_help_box_is_centred_and_fits_the_screen() {
    assert_eq!(help_box(0, 0, 100, 40, 17), (18, 10, 63, 19));
    assert_eq!(help_box(0, 0, 50, 10, 17), (2, 1, 46, 8));
}
