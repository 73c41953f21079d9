use kiyoctl::controls::plan_write;
use kiyoctl::controls::{
    all_controls, bad_value, decode, encode, find, is_model_control, number_payload, parse_write,
    reading, readable, render_raw, standard, Kind, Planned,
};
use kiyoctl::controls::{asks_info, read_requests};
use kiyoctl::usb::{GET_CUR, GET_DEF, GET_MAX, GET_MIN, GET_RES};

#[test]
fn decode_reads_little_endian_values() {
    assert_eq!(decode(&[0x10, 0x27], false), 10000);
    assert_eq!(decode(&[0xff, 0xff], true), -1);
    assert_eq!(decode(&[0xff, 0xff], false), 65535);
    assert_eq!(decode(&[0x80], true), -128);
    assert_eq!(decode(&[], true), 0);
    assert_eq!(decode(&[0xff; 8], false), -1, "eight bytes reinterpret as an i64");
}

#[test]
fn encode_writes_little_endian_values() {
    assert_eq!(encode(10000, 2), vec![0x10, 0x27]);
    assert_eq!(encode(-1, 2), vec![0xff, 0xff]);
    assert_eq!(encode(1, 4), vec![1, 0, 0, 0]);
    assert_eq!(encode(258, 1), vec![2], "only the low bytes fit");
}

#[test]
fn what_encode_writes_decode_reads_back() {
    for v in [-32768i64, -1, 0, 1, 4500, 32767] {
        assert_eq!(decode(&encode(v, 2), true), v);
    }
    for v in [0i64, 255, 65535] {
        assert_eq!(decode(&encode(v, 2), false), v);
    }
}

#[test]
fn find_knows_standard_and_model_controls() {
    assert_eq!(find("brightness").map(|c| c.name), Some("brightness"));
    assert_eq!(find("hdr").map(|c| c.name), Some("hdr"));
    assert!(find("sparkle").is_none());
    assert!(is_model_control("hdr"));
    assert!(!is_model_control("brightness"));
    assert_eq!(all_controls().len(), standard().len() + 4);
}

#[test]
fn write_only_controls_are_the_opaque_ones() {
    assert!(find("hdr").unwrap().is_razer());
    assert!(!find("brightness").unwrap().is_razer());
    assert_eq!(find("hdr").unwrap().choices(), Some(vec!["off", "on"]));
    assert_eq!(find("brightness").unwrap().choices(), None);
}

#[test]
fn a_bad_value_lists_what_is_accepted() {
    let fov = find("fov").unwrap();
    assert_eq!(bad_value(fov, "huge"), "invalid value 'huge' for fov; expected one of: wide, medium, narrow");
    let b = find("brightness").unwrap();
    assert_eq!(bad_value(b, "x"), "invalid value 'x' for brightness; expected a number");
}

#[test]
fn parsing_a_write_gives_payloads_or_a_number() {
    let hdr = find("hdr").unwrap();
    match parse_write(hdr, " On ").expect("on is an hdr option") {
        Planned::Payloads(p) => assert_eq!(p, vec![vec![0xff, 0x02, 0x01, 0, 0, 0, 0, 0]]),
        Planned::Number(_) => panic!("hdr is not numeric"),
    }
    let fov = find("fov").unwrap();
    match parse_write(fov, "medium").unwrap() {
        Planned::Payloads(p) => assert_eq!(p.len(), 2, "medium needs a priming write first"),
        Planned::Number(_) => panic!("fov is not numeric"),
    }
    let b = find("brightness").unwrap();
    assert!(matches!(parse_write(b, "140"), Ok(Planned::Number(140))));
    assert_eq!(
        parse_write(b, "bright").err(),
        Some("invalid value 'bright' for brightness; expected a number".to_string())
    );
}

#[test]
fn numbers_outside_the_cameras_range_are_refused() {
    let b = find("brightness").unwrap();
    assert_eq!(
        number_payload(b, 300, Some((0, 255))),
        Err("brightness must be between 0 and 255".to_string())
    );
    assert_eq!(number_payload(b, 140, Some((0, 255))), Ok(encode(140, b.len)));
    assert_eq!(number_payload(b, 300, None), Ok(encode(300, b.len)));
}

#[test]
fn readings_render_values_the_way_the_cli_accepts_them() {
    let b = find("brightness").unwrap();
    let r = reading(b, 0x03, &[0x8c, 0x00], Some(vec![0, 0]), Some(vec![0xff, 0]), Some(vec![1, 0]), Some(vec![0x80, 0]));
    assert_eq!(r.value, "140");
    assert_eq!(r.range, Some((0, 255)));
    assert_eq!(r.step, Some(1));
    assert_eq!(r.default.as_deref(), Some("128"));
    assert!(r.writable);
    let awb = find("white_balance_auto").unwrap();
    let r = reading(awb, 0x01, &[1], None, None, None, None);
    assert_eq!(r.value, "on");
    assert!(!r.writable);
    assert!(readable(Some(0x01)));
    assert!(!readable(Some(0x02)));
    assert!(!readable(None));
    assert!(matches!(awb.kind, Kind::Bool));
    assert_eq!(render_raw(&awb.kind, 0), "off");
}

#[test]
fn eight_byte_values_round_trip_signed_or_not() {
    for v in [-5i64, -1, i64::MIN, i64::MAX, 0, 123456789] {
        assert_eq!(decode(&encode(v, 8), false), v);
        assert_eq!(decode(&encode(v, 8), true), v);
    }
    assert_eq!(decode(&[0xff, 0xff], true), -1);
    assert_eq!(decode(&[0xff, 0xff], false), 65535);
}

#[test]
fn reading_asks_only_what_the_control_and_its_capabilities_allow() {
    let brightness = find("brightness").unwrap();
    assert!(asks_info(brightness));
    assert_eq!(read_requests(brightness, Some(0x03)), vec![GET_CUR, GET_MIN, GET_MAX, GET_RES, GET_DEF]);
    assert_eq!(read_requests(brightness, Some(0x02)), Vec::<u8>::new());
    assert_eq!(read_requests(brightness, None), Vec::<u8>::new());
    let plf = find("power_line_frequency").unwrap();
    assert_eq!(read_requests(plf, Some(0x01)), vec![GET_CUR, GET_DEF]);
    let hdr = find("hdr").unwrap();
    assert!(!asks_info(hdr));
    assert_eq!(read_requests(hdr, Some(0x03)), Vec::<u8>::new());
}

#[test]
fn a_write_is_planned_from_the_lowered_text() {
    let hdr = find("hdr").unwrap();
    match plan_write(hdr, " ON ", "on") {
        Ok(Planned::Payloads(p)) => assert_eq!(p, vec![vec![0xff, 0x02, 0x01, 0, 0, 0, 0, 0]]),
        _ => panic!("hdr on is a known option"),
    }
    assert!(plan_write(hdr, "ON", "ON").is_err());
}
