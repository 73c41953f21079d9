use kiyoctl::usb::camera_matches;
use kiyoctl::models::razer_kiyo_pro::EU1_GUID;
use kiyoctl::usb::{
    find_unit, fingerprint, format_guid, found_line, parse_extra, select_camera, Cam, Found, ParsedUnits, Unit, CS_INTERFACE,
    NOT_RESPONDING, VC_EXTENSION_UNIT, VC_INPUT_TERMINAL, VC_PROCESSING_UNIT,
};

/// A minimal VideoControl class-specific descriptor block: one camera
/// input terminal, one processing unit, two extension units.
fn sample_extra() -> Vec<u8> {
    let mut v = Vec::new();
    // Input terminal, id 1, type ITT_CAMERA (0x0201)
    v.extend_from_slice(&[6, CS_INTERFACE, VC_INPUT_TERMINAL, 1, 0x01, 0x02]);
    // Input terminal, id 9, type 0x0101 (streaming) — must be ignored
    v.extend_from_slice(&[6, CS_INTERFACE, VC_INPUT_TERMINAL, 9, 0x01, 0x01]);
    // Processing unit, id 2
    v.extend_from_slice(&[4, CS_INTERFACE, VC_PROCESSING_UNIT, 2]);
    // Extension unit, id 3, Razer's GUID
    let mut eu = vec![20, CS_INTERFACE, VC_EXTENSION_UNIT, 3];
    eu.extend_from_slice(&EU1_GUID);
    v.extend_from_slice(&eu);
    // Extension unit, id 4, some other GUID
    let mut eu2 = vec![20, CS_INTERFACE, VC_EXTENSION_UNIT, 4];
    eu2.extend_from_slice(&[0xaa; 16]);
    v.extend_from_slice(&eu2);
    v
}

#[test]
fn parses_every_unit_kind() {
    let p = parse_extra(&sample_extra());
    assert_eq!(p.camera_id, Some(1), "streaming terminal must not win");
    assert_eq!(p.processing_id, Some(2));
    assert_eq!(p.extensions.len(), 2, "both extension units must be returned");
    assert_eq!(p.extensions[0], (EU1_GUID, 3));
    assert_eq!(p.extensions[1], ([0xaa; 16], 4));
}

#[test]
fn truncated_descriptor_does_not_panic() {
    let full = sample_extra();
    for cut in 0..full.len() {
        let _ = parse_extra(&full[..cut]);
    }
}

#[test]
fn zero_length_block_does_not_loop_forever() {
    // A malformed block claiming length 0 must terminate the walk.
    let p = parse_extra(&[0, CS_INTERFACE, VC_PROCESSING_UNIT, 7]);
    assert_eq!(p.processing_id, None);
}

#[test]
fn a_control_on_an_absent_unit_resolves_to_no_unit_id() {
    let present = [(EU1_GUID, 3u8)];
    assert_eq!(find_unit(&present, Unit::Extension(&EU1_GUID)), Some(3));
    assert_eq!(
        find_unit(&present, Unit::Extension(&[0xaa; 16])),
        None,
        "an absent GUID must not fall back to unit zero or to another unit"
    );
}

#[test]
fn guid_renders_in_canonical_form() {
    assert_eq!(
        format_guid(&EU1_GUID),
        "23e49ed0-1178-4f31-ae52-d2fb8a8d3b48",
        "first three fields are little-endian in the descriptor"
    );
}

#[test]
fn the_fixed_units_are_not_looked_up_among_extension_units() {
    let present = [(EU1_GUID, 3u8)];
    assert_eq!(find_unit(&present, Unit::Camera), None);
    assert_eq!(find_unit(&present, Unit::Processing), None);
}

fn kiyo() -> Cam {
    Cam::new("Razer Kiyo Pro".to_string(), 0x1532, 0x0e05, true, 0, parse_extra(&sample_extra()))
}

#[test]
fn a_request_packs_the_selector_and_the_unit() {
    let cam = kiyo();
    assert_eq!(cam.request(Unit::Processing, 0x02), Ok((0x0200, 0x0200)));
    assert_eq!(cam.request(Unit::Extension(&EU1_GUID), 0x01), Ok((0x0100, 0x0300)));
    assert_eq!(
        cam.request(Unit::Extension(&[0xaa; 16]), 0x01),
        Ok((0x0100, 0x0400))
    );
    let bare = Cam::new(
        "bare".to_string(),
        0x046d,
        0x085e,
        true,
        1,
        ParsedUnits { camera_id: None, processing_id: Some(5), extensions: Vec::new() },
    );
    assert_eq!(bare.request(Unit::Processing, 0x02), Ok((0x0200, 0x0501)));
    assert!(bare.request(Unit::Camera, 0x04).is_err());
}

#[test]
fn a_camera_finds_the_controls_it_can_carry() {
    let cam = kiyo();
    assert!(cam.find("brightness").is_some());
    assert!(cam.find("hdr").is_some(), "the Kiyo Pro's Model brings hdr");
    let plain = Cam::new("plain".to_string(), 0x046d, 0x085e, true, 0, parse_extra(&sample_extra()));
    assert!(plain.find("hdr").is_none(), "a camera without a Model has no hdr");
    assert!(plain.find("brightness").is_some());
}

#[test]
fn unclaimed_extension_units_are_reported() {
    let cam = kiyo();
    assert_eq!(cam.unclaimed_units(), vec![[0xaa; 16]]);
    assert_eq!(cam.extension_unit_guids(), vec![EU1_GUID, [0xaa; 16]]);
}

#[test]
fn a_silent_camera_explains_itself() {
    let cam = Cam::new("x".to_string(), 1, 2, false, 0, parse_extra(&[]));
    assert_eq!(cam.explain("pipe error".to_string()), NOT_RESPONDING);
    assert_eq!(kiyo().explain("pipe error".to_string()), "pipe error");
}

#[test]
fn a_selector_picks_a_camera_by_id_or_by_name() {
    let ids = vec![(0x1532, 0x0e05), (0x046d, 0x085e)];
    let names = vec!["Razer Kiyo Pro".to_string(), "".to_string()];
    assert_eq!(select_camera(&ids, &names, Some("046D:085E")), Ok(1));
    assert_eq!(select_camera(&ids, &names, Some("kiyo")), Ok(0));
    assert_eq!(
        select_camera(&ids, &names, Some("logitech")),
        Err("no camera matching 'logitech'".to_string())
    );
    assert_eq!(
        select_camera(&ids, &names, None),
        Err("several cameras attached (1532:0e05, 046d:085e); pass --device".to_string())
    );
    assert_eq!(select_camera(&ids[..1].to_vec(), &names[..1].to_vec(), None), Ok(0));
    assert_eq!(select_camera(&vec![], &vec![], None), Err("no UVC camera found".to_string()));
}

#[test]
fn units_are_labelled_for_error_messages() {
    assert_eq!(Unit::Camera.label(), "camera terminal");
    assert_eq!(Unit::Processing.label(), "processing unit");
}

#[test]
fn list_names_each_camera_and_marks_the_razer_unit() {
    let kiyo = Found {
        name: "Razer Kiyo Pro".to_string(),
        vid: 0x1532,
        pid: 0x0e05,
        bus: 2,
        address: 17,
        extension_guids: vec![[0xaa; 16], EU1_GUID],
    };
    assert_eq!(found_line(&kiyo), "Razer Kiyo Pro  1532:0e05  bus 2 addr 17  [Razer extension unit]");
    let plain = Found {
        name: "Webcam".to_string(),
        vid: 0x46d,
        pid: 0x85e,
        bus: 1,
        address: 3,
        extension_guids: vec![[0xaa; 16]],
    };
    assert_eq!(found_line(&plain), "Webcam  046d:085e  bus 1 addr 3");
}

#[test]
fn the_poll_signature_ignores_discovery_order() {
    let a = vec![(0x1532u16, 0x0e05u16, 2u8, 17u8), (0x046d, 0x085e, 1, 3)];
    let b = vec![(0x046d, 0x085e, 1, 3), (0x1532, 0x0e05, 2, 17)];
    assert_eq!(fingerprint(&a), "046d:085e@1.3,1532:0e05@2.17");
    assert_eq!(fingerprint(&a), fingerprint(&b));
    assert_eq!(fingerprint(&Vec::new()), "");
    assert_ne!(fingerprint(&a), fingerprint(&vec![(0x1532, 0x0e05, 2, 18)]));
}

#[test]
fn a_lowered_selector_matches_by_id_or_by_part_of_the_name() {
    assert!(camera_matches("1532:0e05", 0x1532, 0x0e05, ""));
    assert!(camera_matches("kiyo", 0x1532, 0x0e05, "razer kiyo pro"));
    assert!(!camera_matches("kiyo", 0x046d, 0x085e, ""));
    assert!(!camera_matches("1532:0e05", 0x046d, 0x085e, "logitech brio"));
}
