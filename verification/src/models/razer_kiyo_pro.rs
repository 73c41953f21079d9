//! Razer Kiyo Pro — 1532:0e05.
//!
//! Provenance: the extension unit GUID, selector and payloads were worked out
//! by kiyoproctrls (https://github.com/soyersoyer/kiyoproctrls), MIT licensed.

use vstd::prelude::*;
use crate::controls::{Control, Kind, RazerOpt};
use crate::models::Model;
use crate::usb::Unit;

verus! {

/// Razer's ISP extension unit, GUID 23e49ed0-1178-4f31-ae52-d2fb8a8d3b48, in
/// descriptor byte order. The Dell UltraSharp WB7022 carries this same GUID
/// and takes entirely different payloads on it, which is why Models match on
/// vid:pid.
pub const EU1_GUID: [u8; 16] = [
    0xd0, 0x9e, 0xe4, 0x23, 0x78, 0x11, 0x31, 0x4f,
    0xae, 0x52, 0xd2, 0xfb, 0x8a, 0x8d, 0x3b, 0x48,
];

/// Every control on this unit uses the one "set ISP" selector.
pub const EU1_SET_ISP: u8 = 0x01;

pub open spec fn model_spec() -> Model {
    Model {
        name: "Razer Kiyo Pro",
        usb_ids: &[(0x1532, 0x0e05)],
        controls: &[
            Control {
                name: "hdr",
                unit: Unit::Extension(&EU1_GUID),
                selector: EU1_SET_ISP,
                len: 8,
                kind: Kind::Razer(&[
                    RazerOpt { name: "off", payload: &[0xff, 0x02, 0x00, 0x00, 0x00, 0x00, 0x00, 0x00], pre: None },
                    RazerOpt { name: "on", payload: &[0xff, 0x02, 0x01, 0x00, 0x00, 0x00, 0x00, 0x00], pre: None },
                ]),
                help: "high dynamic range",
                order: 2,
                requires: None,
            },
            Control {
                name: "hdr_mode",
                unit: Unit::Extension(&EU1_GUID),
                selector: EU1_SET_ISP,
                len: 8,
                kind: Kind::Razer(&[
                    RazerOpt { name: "dark", payload: &[0xff, 0x07, 0x00, 0x00, 0x00, 0x00, 0x00, 0x00], pre: None },
                    RazerOpt { name: "bright", payload: &[0xff, 0x07, 0x01, 0x00, 0x00, 0x00, 0x00, 0x00], pre: None },
                ]),
                help: "HDR tone preference",
                order: 2,
                requires: None,
            },
            Control {
                name: "fov",
                unit: Unit::Extension(&EU1_GUID),
                selector: EU1_SET_ISP,
                len: 8,
                kind: Kind::Razer(&[
                    RazerOpt { name: "wide", payload: &[0xff, 0x01, 0x00, 0x03, 0x00, 0x00, 0x00, 0x00], pre: None },
                    RazerOpt { name: "medium", payload: &[0xff, 0x01, 0x01, 0x03, 0x01, 0x00, 0x00, 0x00], pre: Some(&[0xff, 0x01, 0x00, 0x03, 0x01, 0x00, 0x00, 0x00]) },
                    RazerOpt { name: "narrow", payload: &[0xff, 0x01, 0x01, 0x03, 0x02, 0x00, 0x00, 0x00], pre: Some(&[0xff, 0x01, 0x00, 0x03, 0x02, 0x00, 0x00, 0x00]) },
                ]),
                help: "field of view",
                order: 2,
                requires: None,
            },
            Control {
                name: "af_mode",
                unit: Unit::Extension(&EU1_GUID),
                selector: EU1_SET_ISP,
                len: 8,
                kind: Kind::Razer(&[
                    RazerOpt { name: "responsive", payload: &[0xff, 0x06, 0x00, 0x00, 0x00, 0x00, 0x00, 0x00], pre: None },
                    RazerOpt { name: "passive", payload: &[0xff, 0x06, 0x01, 0x00, 0x00, 0x00, 0x00, 0x00], pre: None },
                ]),
                help: "autofocus responsiveness",
                order: 2,
                requires: None,
            },
        ],
        persist: Some((Unit::Extension(&EU1_GUID), EU1_SET_ISP, &[0xc0, 0x03, 0xa8, 0x00, 0x00, 0x00, 0x00, 0x00])),
    }
}

/// The Kiyo Pro Model.
pub fn model() -> (r: &'static Model)
    ensures
        *r == model_spec(),
{
    &Model {
        name: "Razer Kiyo Pro",
        usb_ids: &[(0x1532, 0x0e05)],
        controls: &[
            Control {
                name: "hdr",
                unit: Unit::Extension(&EU1_GUID),
                selector: EU1_SET_ISP,
                len: 8,
                kind: Kind::Razer(&[
                    RazerOpt { name: "off", payload: &[0xff, 0x02, 0x00, 0x00, 0x00, 0x00, 0x00, 0x00], pre: None },
                    RazerOpt { name: "on", payload: &[0xff, 0x02, 0x01, 0x00, 0x00, 0x00, 0x00, 0x00], pre: None },
                ]),
                help: "high dynamic range",
                order: 2,
                requires: None,
            },
            Control {
                name: "hdr_mode",
                unit: Unit::Extension(&EU1_GUID),
                selector: EU1_SET_ISP,
                len: 8,
                kind: Kind::Razer(&[
                    RazerOpt { name: "dark", payload: &[0xff, 0x07, 0x00, 0x00, 0x00, 0x00, 0x00, 0x00], pre: None },
                    RazerOpt { name: "bright", payload: &[0xff, 0x07, 0x01, 0x00, 0x00, 0x00, 0x00, 0x00], pre: None },
                ]),
                help: "HDR tone preference",
                order: 2,
                requires: None,
            },
            Control {
                name: "fov",
                unit: Unit::Extension(&EU1_GUID),
                selector: EU1_SET_ISP,
                len: 8,
                kind: Kind::Razer(&[
                    RazerOpt { name: "wide", payload: &[0xff, 0x01, 0x00, 0x03, 0x00, 0x00, 0x00, 0x00], pre: None },
                    RazerOpt { name: "medium", payload: &[0xff, 0x01, 0x01, 0x03, 0x01, 0x00, 0x00, 0x00], pre: Some(&[0xff, 0x01, 0x00, 0x03, 0x01, 0x00, 0x00, 0x00]) },
                    RazerOpt { name: "narrow", payload: &[0xff, 0x01, 0x01, 0x03, 0x02, 0x00, 0x00, 0x00], pre: Some(&[0xff, 0x01, 0x00, 0x03, 0x02, 0x00, 0x00, 0x00]) },
                ]),
                help: "field of view",
                order: 2,
                requires: None,
            },
            Control {
                name: "af_mode",
                unit: Unit::Extension(&EU1_GUID),
                selector: EU1_SET_ISP,
                len: 8,
                kind: Kind::Razer(&[
                    RazerOpt { name: "responsive", payload: &[0xff, 0x06, 0x00, 0x00, 0x00, 0x00, 0x00, 0x00], pre: None },
                    RazerOpt { name: "passive", payload: &[0xff, 0x06, 0x01, 0x00, 0x00, 0x00, 0x00, 0x00], pre: None },
                ]),
                help: "autofocus responsiveness",
                order: 2,
                requires: None,
            },
        ],
        persist: Some((Unit::Extension(&EU1_GUID), EU1_SET_ISP, &[0xc0, 0x03, 0xa8, 0x00, 0x00, 0x00, 0x00, 0x00])),
    }
}

} // verus!
