use kiyoctl::controls::standard;
use kiyoctl::models::{for_camera, models};
use kiyoctl::usb::Unit;
use std::collections::HashSet;

#[test]
fn every_model_declares_at_least_one_usb_id() {
    for m in models() {
        assert!(
            !m.usb_ids.is_empty(),
            "{} declares no usb_ids; matching is by vid:pid only",
            m.name
        );
    }
}

#[test]
fn no_two_models_claim_the_same_camera() {
    let mut seen = HashSet::new();
    for m in models() {
        for id in m.usb_ids {
            assert!(
                seen.insert(*id),
                "{:04x}:{:04x} is claimed by more than one Model, including {}",
                id.0,
                id.1,
                m.name
            );
        }
    }
}

#[test]
fn no_model_repeats_a_control_name() {
    for m in models() {
        let mut seen = HashSet::new();
        for c in m.controls {
            assert!(seen.insert(c.name), "{} declares {} twice", m.name, c.name);
        }
    }
}

#[test]
fn no_model_control_shadows_a_standard_one() {
    let standard: HashSet<&str> = standard().iter().map(|c| c.name).collect();
    for m in models() {
        for c in m.controls {
            assert!(
                !standard.contains(c.name),
                "{} declares {}, which is already a standard UVC control",
                m.name,
                c.name
            );
        }
    }
}

#[test]
fn matching_is_by_usb_id() {
    let kiyo = for_camera(0x1532, 0x0e05).expect("the Kiyo Pro must match");
    assert_eq!(kiyo.name, "Razer Kiyo Pro");
    assert!(for_camera(0x046d, 0x085e).is_none(), "an unlisted camera must not match");
}

#[test]
fn a_colliding_guid_does_not_select_a_model() {
    // The Dell UltraSharp WB7022 carries the byte-identical extension unit
    // GUID to the Kiyo Pro and takes entirely different payloads on it.
    assert!(
        for_camera(0x413c, 0xc015).is_none(),
        "Dell UltraSharp WB7022 must not match the Razer Model"
    );
}

#[test]
fn every_model_control_lives_on_a_unit_the_model_can_address() {
    for m in models() {
        for c in m.controls {
            assert!(
                matches!(c.unit, Unit::Extension(_)),
                "{}'s {} is not on an extension unit; standard units belong in the standard catalogue",
                m.name,
                c.name
            );
        }
    }
}

#[test]
fn the_kiyo_pro_model_can_persist_its_extension_state() {
    let kiyo = for_camera(0x1532, 0x0e05).expect("the Kiyo Pro must match");
    let (unit, selector, payload) = kiyo.persist.expect("the Kiyo Pro keeps its state on request");
    assert!(matches!(unit, Unit::Extension(_)));
    assert_eq!(selector, 0x01);
    assert_eq!(payload, &[0xc0, 0x03, 0xa8, 0x00, 0x00, 0x00, 0x00, 0x00]);
}

#[test]
fn every_gating_control_is_applied_before_the_controls_it_gates() {
    for c in standard() {
        if let Some((dep, _)) = c.requires {
            let d = kiyoctl::controls::find(dep).expect("a prerequisite is a known control");
            assert!(d.order < c.order, "{} must be ordered before {}", d.name, c.name);
        }
    }
}
