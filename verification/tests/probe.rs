use kiyoctl::probe::{advance, probe_output, query, report, Query, Selector, Walk, PROBE_FOOTER};
use kiyoctl::usb::{GET_CUR, GET_INFO, GET_LEN, SET_CUR};

#[test]
fn a_readable_selector_shows_its_bytes() {
    let found = vec![Selector {
        selector: 0x01,
        info: 0x03,
        len: Some(8),
        current: Some(vec![0xff, 0x02, 0x01, 0x00, 0x00, 0x00, 0x00, 0x00]),
    }];
    let out = report(
        &[0xd0, 0x9e, 0xe4, 0x23, 0x78, 0x11, 0x31, 0x4f, 0xae, 0x52, 0xd2, 0xfb, 0x8a, 0x8d, 0x3b, 0x48],
        0x1532,
        0x0e05,
        &found,
    );
    assert!(out.contains("23e49ed0-1178-4f31-ae52-d2fb8a8d3b48"), "canonical GUID");
    assert!(out.contains("1532:0e05"));
    assert!(out.contains("0x01"));
    assert!(out.contains("ff 02 01 00 00 00 00 00"));
    assert!(out.contains("get set"), "capability bits must be spelled out");
}

#[test]
fn a_write_only_selector_says_so_instead_of_showing_nothing() {
    let found = vec![Selector { selector: 0x02, info: 0x02, len: Some(8), current: None }];
    let out = report(&[0u8; 16], 0x1532, 0x0e05, &found);
    assert!(out.contains("write-only"), "a selector that refuses GET_CUR must be labelled");
    assert!(!out.contains("get set"));
}

#[test]
fn a_unit_that_answers_nothing_says_so() {
    let out = report(&[0u8; 16], 0x1532, 0x0e05, &[]);
    assert!(out.contains("no selector answered"));
}

#[test]
fn hex_spells_each_byte_in_two_digits() {
    assert_eq!(kiyoctl::probe::hex(&[0x00, 0x0a, 0xff]), "00 0a ff");
    assert_eq!(kiyoctl::probe::hex(&[]), "");
}

/// Drive the walk of one selector against canned replies, recording the
/// requests it makes.
fn walk(selector: u8, replies: &[Option<Vec<u8>>]) -> (Vec<(u8, usize)>, Option<Selector>) {
    let mut asked = Vec::new();
    let mut w = Walk::Start;
    let mut replies = replies.iter();
    while let Some(q) = query(&w) {
        asked.push(q.request());
        w = advance(w, selector, replies.next().cloned().flatten());
    }
    match w {
        Walk::Found(s) => (asked, Some(s)),
        _ => (asked, None),
    }
}

#[test]
fn a_readable_selector_is_asked_info_length_and_current_value_only() {
    let (asked, found) = walk(
        0x01,
        &[Some(vec![0x03]), Some(vec![0x08, 0x00]), Some(vec![0xff, 0x02, 0x01, 0, 0, 0, 0, 0])],
    );
    assert_eq!(asked, vec![(GET_INFO, 1), (GET_LEN, 2), (GET_CUR, 8)]);
    assert!(asked.iter().all(|(r, _)| *r != SET_CUR));
    let s = found.unwrap();
    assert_eq!((s.selector, s.info, s.len), (0x01, 0x03, Some(8)));
    assert_eq!(s.current, Some(vec![0xff, 0x02, 0x01, 0, 0, 0, 0, 0]));
}

#[test]
fn a_write_only_selector_is_never_asked_its_current_value() {
    let (asked, found) = walk(0x02, &[Some(vec![0x02]), Some(vec![0x08, 0x00])]);
    assert_eq!(asked, vec![(GET_INFO, 1), (GET_LEN, 2)]);
    let s = found.unwrap();
    assert_eq!((s.info, s.len, s.current), (0x02, Some(8), None));
}

#[test]
fn a_selector_with_no_capabilities_or_no_answer_is_skipped() {
    let (asked, found) = walk(0x03, &[Some(vec![0x00])]);
    assert_eq!(asked, vec![(GET_INFO, 1)]);
    assert!(found.is_none());
    let (asked, found) = walk(0x04, &[None]);
    assert_eq!(asked, vec![(GET_INFO, 1)]);
    assert!(found.is_none());
}

#[test]
fn a_length_reply_of_the_wrong_size_leaves_the_length_unknown() {
    let (asked, found) = walk(0x05, &[Some(vec![0x03]), Some(vec![0x08])]);
    assert_eq!(asked, vec![(GET_INFO, 1), (GET_LEN, 2)]);
    let s = found.unwrap();
    assert_eq!((s.len, s.current), (None, None));
    let (_, found) = walk(0x06, &[Some(vec![0x01]), Some(vec![0x00, 0x01]), None]);
    assert_eq!(found.unwrap().len, Some(256));
    assert!(matches!(Query::Cur(256).request(), (GET_CUR, 256)));
}

#[test]
fn a_camera_without_extension_units_says_so() {
    assert_eq!(probe_output("Cam", 0x046d, 0x085e, &Vec::new()), "Cam has no extension units.\n");
}

#[test]
fn a_probe_reports_each_unit_then_the_closing_note() {
    let a = vec![Selector { selector: 0x01, info: 0x03, len: Some(1), current: Some(vec![0x2a]) }];
    let units = vec![([0u8; 16], a), ([1u8; 16], Vec::new())];
    let out = probe_output("Cam", 0x1532, 0x0e05, &units);
    let first = report(&[0u8; 16], 0x1532, 0x0e05, &units[0].1);
    let second = report(&[1u8; 16], 0x1532, 0x0e05, &[]);
    assert_eq!(out, format!("{first}\n{second}\n{PROBE_FOOTER}"));
    assert!(out.ends_with("See docs/adding-a-camera.md.\n"));
    assert!(out.contains("  selector 0x01  info 0x03 (get set)  len 1  2a\n"));
}
