//! USB Video Class descriptor parsing and the plain facts about an attached camera.
//!
//! The transfers themselves happen outside this crate; everything here works on
//! the bytes and numbers they produce.

use vstd::prelude::*;
use crate::text::{
    append_hex, append_str, chars_of, fmt_u64, nat_digits, sort_strings, sorted_le, find_chars, find_from, hex_padded, join_strings, joined, lowercase,
    opt_deref, str_eq, string_views, to_lowercase, lemma_find_from, occurs_at,
};
use crate::profile::{key_text, Profile};
use crate::controls::{find_in, first_named, standard, standard_spec, Control};
use crate::models::{first_claiming, for_camera, models_spec, Model};

verus! {

/// UVC request codes (UVC 1.5 §4.2).
pub const SET_CUR: u8 = 0x01;
pub const GET_CUR: u8 = 0x81;
pub const GET_MIN: u8 = 0x82;
pub const GET_MAX: u8 = 0x83;
pub const GET_RES: u8 = 0x84;
pub const GET_LEN: u8 = 0x85;
pub const GET_INFO: u8 = 0x86;
pub const GET_DEF: u8 = 0x87;

/// GET_INFO capability bits.
pub const INFO_GET: u8 = 0x01;
pub const INFO_SET: u8 = 0x02;

pub const CS_INTERFACE: u8 = 0x24;
pub const VC_INPUT_TERMINAL: u8 = 0x02;
pub const VC_PROCESSING_UNIT: u8 = 0x05;
pub const VC_EXTENSION_UNIT: u8 = 0x06;

/// Which logical unit inside the camera a control lives on.
#[derive(Clone, Copy, Debug)]
pub enum Unit {
    /// Camera terminal: optics — exposure, focus, zoom.
    Camera,
    /// Processing unit: image pipeline — brightness, white balance, gain.
    Processing,
    /// A vendor extension unit, addressed by its GUID.
    Extension(&'static [u8; 16]),
}

/// Shown when the camera is enumerated but will not answer control requests.
pub const NOT_RESPONDING: &'static str =
    "the camera is attached but is not answering USB control requests — unplug it and plug it back in, then try again";

/// The published rendering of a descriptor GUID: the first three fields are
/// stored little-endian, the last two are not.
pub open spec fn guid_text(b: Seq<u8>) -> Seq<char> {
    hex_padded(b[3] as nat, 2) + hex_padded(b[2] as nat, 2) + hex_padded(b[1] as nat, 2)
        + hex_padded(b[0] as nat, 2) + seq!['-'] + hex_padded(b[5] as nat, 2) + hex_padded(
        b[4] as nat,
        2,
    ) + seq!['-'] + hex_padded(b[7] as nat, 2) + hex_padded(b[6] as nat, 2) + seq!['-']
        + hex_padded(b[8] as nat, 2) + hex_padded(b[9] as nat, 2) + seq!['-'] + hex_padded(
        b[10] as nat,
        2,
    ) + hex_padded(b[11] as nat, 2) + hex_padded(b[12] as nat, 2) + hex_padded(b[13] as nat, 2)
        + hex_padded(b[14] as nat, 2) + hex_padded(b[15] as nat, 2)
}

/// Render a descriptor GUID the way vendors publish it.
pub fn format_guid(b: &[u8; 16]) -> (s: String)
    ensures
        s@ == guid_text(b@),
{
    let mut s = String::new();
    append_hex(&mut s, b[3] as u64, 2);
    append_hex(&mut s, b[2] as u64, 2);
    append_hex(&mut s, b[1] as u64, 2);
    append_hex(&mut s, b[0] as u64, 2);
    s.push('-');
    append_hex(&mut s, b[5] as u64, 2);
    append_hex(&mut s, b[4] as u64, 2);
    s.push('-');
    append_hex(&mut s, b[7] as u64, 2);
    append_hex(&mut s, b[6] as u64, 2);
    s.push('-');
    append_hex(&mut s, b[8] as u64, 2);
    append_hex(&mut s, b[9] as u64, 2);
    s.push('-');
    append_hex(&mut s, b[10] as u64, 2);
    append_hex(&mut s, b[11] as u64, 2);
    append_hex(&mut s, b[12] as u64, 2);
    append_hex(&mut s, b[13] as u64, 2);
    append_hex(&mut s, b[14] as u64, 2);
    append_hex(&mut s, b[15] as u64, 2);
    proof {
        assert(s@ =~= guid_text(b@));
    }
    s
}

pub open spec fn unit_label(u: Unit) -> Seq<char> {
    match u {
        Unit::Camera => "camera terminal"@,
        Unit::Processing => "processing unit"@,
        Unit::Extension(g) => "extension unit "@ + guid_text(g@),
    }
}

impl Unit {
    /// For error messages.
    pub fn label(&self) -> (s: String)
        ensures
            s@ == unit_label(*self),
    {
        match self {
            Unit::Camera => String::from_str("camera terminal"),
            Unit::Processing => String::from_str("processing unit"),
            Unit::Extension(g) => {
                let mut s = String::from_str("extension unit ");
                let t = format_guid(g);
                append_str(&mut s, t.as_str());
                s
            },
        }
    }
}


/// What a scan found: enough to identify a camera without opening it.
pub struct Found {
    pub name: String,
    pub vid: u16,
    pub pid: u16,
    pub bus: u8,
    pub address: u8,
    /// Every extension unit GUID this camera carries, in descriptor order.
    pub extension_guids: Vec<[u8; 16]>,
}

/// Whether one of `guids` is the Razer ISP extension unit.
pub open spec fn carries_razer_unit(guids: Seq<[u8; 16]>) -> bool {
    exists|i: int| 0 <= i < guids.len() && guids[i]@ == crate::models::razer_kiyo_pro::EU1_GUID@
}

/// The line `list` prints for a camera: its name, vid:pid, where it sits on
/// the bus, and a mark when it carries the Razer extension unit.
pub open spec fn found_text(f: Found) -> Seq<char> {
    f.name@ + "  "@ + hex_padded(f.vid as nat, 4) + ":"@ + hex_padded(f.pid as nat, 4) + "  bus "@ + nat_digits(f.bus as nat)
        + " addr "@ + nat_digits(f.address as nat) + (if carries_razer_unit(f.extension_guids@) {
        "  [Razer extension unit]"@
    } else {
        Seq::<char>::empty()
    })
}

pub fn found_line(f: &Found) -> (r: String)
    ensures
        r@ == found_text(*f),
{
    let mut r = String::from_str(f.name.as_str());
    append_str(&mut r, "  ");
    append_hex(&mut r, f.vid as u64, 4);
    append_str(&mut r, ":");
    append_hex(&mut r, f.pid as u64, 4);
    append_str(&mut r, "  bus ");
    let b = fmt_u64(f.bus as u64);
    append_str(&mut r, b.as_str());
    append_str(&mut r, " addr ");
    let a = fmt_u64(f.address as u64);
    append_str(&mut r, a.as_str());
    let mut i: usize = 0;
    let mut razer = false;
    while i < f.extension_guids.len()
        invariant
            i <= f.extension_guids@.len(),
            razer == carries_razer_unit(f.extension_guids@.subrange(0, i as int)),
        decreases f.extension_guids.len() - i,
    {
        proof {
            let pre = f.extension_guids@.subrange(0, i + 1);
            if carries_razer_unit(f.extension_guids@.subrange(0, i as int)) {
                let j = choose|j: int| 0 <= j < i && f.extension_guids@.subrange(0, i as int)[j]@ == crate::models::razer_kiyo_pro::EU1_GUID@;
                assert(pre[j] == f.extension_guids@[j]);
            }
            if carries_razer_unit(pre) {
                let j = choose|j: int| 0 <= j < pre.len() && pre[j]@ == crate::models::razer_kiyo_pro::EU1_GUID@;
                if j < i {
                    assert(f.extension_guids@.subrange(0, i as int)[j] == pre[j]);
                }
            }
            assert(pre[i as int] == f.extension_guids@[i as int]);
        }
        if same_guid(&f.extension_guids[i], &crate::models::razer_kiyo_pro::EU1_GUID) {
            razer = true;
        }
        i = i + 1;
    }
    proof {
        assert(f.extension_guids@.subrange(0, f.extension_guids@.len() as int) =~= f.extension_guids@);
    }
    if razer {
        append_str(&mut r, "  [Razer extension unit]");
    }
    r
}

/// How the poll's signature names one attached camera: vid:pid and where
/// it sits on the bus.
pub open spec fn device_text(d: (u16, u16, u8, u8)) -> Seq<char> {
    hex_padded(d.0 as nat, 4) + ":"@ + hex_padded(d.1 as nat, 4) + "@"@ + nat_digits(d.2 as nat) + "."@
        + nat_digits(d.3 as nat)
}

/// A signature of the attached cameras, each given as (vid, pid, bus,
/// address): their names sorted and joined by commas, so it changes exactly
/// when the set of cameras does, whatever order they are found in.
pub fn fingerprint(devices: &Vec<(u16, u16, u8, u8)>) -> (r: String)
    ensures
        exists|s: Seq<Seq<char>>|
            s.to_multiset() == devices@.map_values(|d: (u16, u16, u8, u8)| device_text(d)).to_multiset()
                && sorted_le(s) && r@ == joined(s, ","@),
{
    let mut names: Vec<String> = Vec::new();
    let mut i: usize = 0;
    while i < devices.len()
        invariant
            i <= devices@.len(),
            string_views(names@) == devices@.subrange(0, i as int).map_values(|d: (u16, u16, u8, u8)| device_text(d)),
        decreases devices.len() - i,
    {
        let (vid, pid, bus, address) = devices[i];
        let mut t = String::new();
        append_hex(&mut t, vid as u64, 4);
        append_str(&mut t, ":");
        append_hex(&mut t, pid as u64, 4);
        append_str(&mut t, "@");
        let b = fmt_u64(bus as u64);
        append_str(&mut t, b.as_str());
        append_str(&mut t, ".");
        let a = fmt_u64(address as u64);
        append_str(&mut t, a.as_str());
        let ghost before = string_views(names@);
        names.push(t);
        proof {
            assert(string_views(names@) =~= before.push(device_text(devices@[i as int])));
            assert(devices@.subrange(0, i + 1).map_values(|d: (u16, u16, u8, u8)| device_text(d)) =~= devices@.subrange(
                0,
                i as int,
            ).map_values(|d: (u16, u16, u8, u8)| device_text(d)).push(device_text(devices@[i as int])));
        }
        i = i + 1;
    }
    proof {
        assert(devices@.subrange(0, devices@.len() as int) =~= devices@);
    }
    let sorted = sort_strings(&names);
    join_strings(&sorted, ",")
}

/// Units parsed out of a VideoControl interface descriptor.
pub struct ParsedUnits {
    pub camera_id: Option<u8>,
    pub processing_id: Option<u8>,
    /// Every extension unit present, as (GUID, unit id), in descriptor order.
    pub extensions: Vec<([u8; 16], u8)>,
}

/// The blocks a walk of the class-specific descriptor bytes visits, starting
/// at `i`: each block announces its own length in its first byte, and the walk
/// stops at the first block that is shorter than three bytes or overruns.
pub open spec fn blocks_from(extra: Seq<u8>, i: nat) -> Seq<Seq<u8>>
    decreases extra.len() - i,
{
    if i + 3 <= extra.len() && extra[i as int] >= 3 && i + extra[i as int] <= extra.len() {
        seq![extra.subrange(i as int, i + extra[i as int])] + blocks_from(
            extra,
            (i + extra[i as int]) as nat,
        )
    } else {
        seq![]
    }
}

pub open spec fn blocks(extra: Seq<u8>) -> Seq<Seq<u8>> {
    blocks_from(extra, 0)
}

/// An input terminal whose terminal type is ITT_CAMERA (0x0201).
pub open spec fn is_camera_terminal(b: Seq<u8>) -> bool {
    &&& b.len() >= 6
    &&& b[1] == CS_INTERFACE
    &&& b[2] == VC_INPUT_TERMINAL
    &&& b[4] == 0x01 && b[5] == 0x02
}

pub open spec fn is_processing_unit(b: Seq<u8>) -> bool {
    b.len() >= 4 && b[1] == CS_INTERFACE && b[2] == VC_PROCESSING_UNIT
}

pub open spec fn is_extension_unit(b: Seq<u8>) -> bool {
    b.len() >= 20 && b[1] == CS_INTERFACE && b[2] == VC_EXTENSION_UNIT
}

/// The id (byte 3) of the last camera terminal among `bs`.
pub open spec fn last_camera_id(bs: Seq<Seq<u8>>) -> Option<u8>
    decreases bs.len(),
{
    if bs.len() == 0 {
        None
    } else if is_camera_terminal(bs.last()) {
        Some(bs.last()[3])
    } else {
        last_camera_id(bs.drop_last())
    }
}

/// The id of the last processing unit among `bs`.
pub open spec fn last_processing_id(bs: Seq<Seq<u8>>) -> Option<u8>
    decreases bs.len(),
{
    if bs.len() == 0 {
        None
    } else if is_processing_unit(bs.last()) {
        Some(bs.last()[3])
    } else {
        last_processing_id(bs.drop_last())
    }
}

/// Every extension unit among `bs` as (GUID bytes 4..20, id), in order.
pub open spec fn extension_units(bs: Seq<Seq<u8>>) -> Seq<(Seq<u8>, u8)>
    decreases bs.len(),
{
    if bs.len() == 0 {
        seq![]
    } else if is_extension_unit(bs.last()) {
        extension_units(bs.drop_last()).push((bs.last().subrange(4, 20), bs.last()[3]))
    } else {
        extension_units(bs.drop_last())
    }
}

pub open spec fn ext_view(v: Seq<([u8; 16], u8)>) -> Seq<(Seq<u8>, u8)> {
    v.map_values(|e: ([u8; 16], u8)| (e.0@, e.1))
}

proof fn lemma_blocks_step(extra: Seq<u8>, i: nat)
    requires
        i + 3 <= extra.len(),
        extra[i as int] >= 3,
        i + extra[i as int] <= extra.len(),
    ensures
        blocks_from(extra, i) == seq![extra.subrange(i as int, i + extra[i as int])]
            + blocks_from(extra, (i + extra[i as int]) as nat),
{
}

/// Walk the class-specific descriptor bytes of a VideoControl interface.
pub fn parse_extra(extra: &[u8]) -> (units: ParsedUnits)
    ensures
        units.camera_id == last_camera_id(blocks(extra@)),
        units.processing_id == last_processing_id(blocks(extra@)),
        ext_view(units.extensions@) == extension_units(blocks(extra@)),
{
    let mut units = ParsedUnits { camera_id: None, processing_id: None, extensions: Vec::new() };
    let ghost mut seen: Seq<Seq<u8>> = seq![];
    let mut i: usize = 0;
    while i < extra.len() && extra.len() - i >= 3
        invariant
            i <= extra.len(),
            blocks(extra@) == seen + blocks_from(extra@, i as nat),
            units.camera_id == last_camera_id(seen),
            units.processing_id == last_processing_id(seen),
            ext_view(units.extensions@) == extension_units(seen),
        ensures
            blocks_from(extra@, i as nat) == Seq::<Seq<u8>>::empty(),
        decreases extra.len() - i,
    {
        let len = extra[i] as usize;
        if len < 3 || len > extra.len() - i {
            break;
        }
        let ghost block = extra@.subrange(i as int, i + len);
        proof {
            lemma_blocks_step(extra@, i as nat);
        }
        if extra[i + 1] == CS_INTERFACE {
            let kind = extra[i + 2];
            if kind == VC_INPUT_TERMINAL && len >= 6 {
                if extra[i + 4] == 0x01 && extra[i + 5] == 0x02 {
                    units.camera_id = Some(extra[i + 3]);
                }
            } else if kind == VC_PROCESSING_UNIT && len >= 4 {
                units.processing_id = Some(extra[i + 3]);
            } else if kind == VC_EXTENSION_UNIT && len >= 20 {
                let mut guid = [0u8; 16];
                let mut k: usize = 0;
                while k < 16
                    invariant
                        k <= 16,
                        i + 20 <= extra.len(),
                        forall|j: int| 0 <= j < k ==> guid@[j] == extra@[i + 4 + j],
                    decreases 16 - k,
                {
                    guid[k] = extra[i + 4 + k];
                    k = k + 1;
                }
                proof {
                    assert(guid@ =~= block.subrange(4, 20));
                }
                units.extensions.push((guid, extra[i + 3]));
            }
        }
        proof {
            let next = seen.push(block);
            assert(next.drop_last() =~= seen);
            assert(next.last() == block);
            assert(ext_view(units.extensions@) =~= extension_units(next));
            assert(seen + blocks_from(extra@, i as nat) =~= next + blocks_from(extra@, (i + len) as nat));
            seen = next;
        }
        i = i + len;
    }
    proof {
        assert(seen + blocks_from(extra@, i as nat) =~= seen);
    }
    units
}

/// Whether two GUIDs hold the same bytes.
pub fn same_guid(a: &[u8; 16], b: &[u8; 16]) -> (r: bool)
    ensures
        r == (a@ == b@),
{
    let mut k: usize = 0;
    while k < 16
        invariant
            k <= 16,
            forall|j: int| 0 <= j < k ==> a@[j] == b@[j],
        decreases 16 - k,
    {
        if a[k] != b[k] {
            return false;
        }
        k = k + 1;
    }
    proof {
        assert(a@ =~= b@);
    }
    true
}

/// The unit id of the first present extension unit carrying `guid`.
pub open spec fn first_unit_id(present: Seq<(Seq<u8>, u8)>, guid: Seq<u8>) -> Option<u8>
    decreases present.len(),
{
    if present.len() == 0 {
        None
    } else if present[0].0 == guid {
        Some(present[0].1)
    } else {
        first_unit_id(present.drop_first(), guid)
    }
}

/// Resolve a Unit to the unit id to put in wIndex, among the extension units
/// present. The fixed units are not in that list, and an absent GUID never
/// falls back to another unit.
pub fn find_unit(present: &[([u8; 16], u8)], unit: Unit) -> (r: Option<u8>)
    ensures
        r == (match unit {
            Unit::Extension(g) => first_unit_id(ext_view(present@), g@),
            _ => None,
        }),
{
    match unit {
        Unit::Extension(guid) => {
            let mut i: usize = 0;
            proof {
                assert(ext_view(present@).subrange(0, present@.len() as int) =~= ext_view(present@));
            }
            while i < present.len()
                invariant
                    i <= present.len(),
                    unit == Unit::Extension(guid),
                    first_unit_id(ext_view(present@), guid@) == first_unit_id(
                        ext_view(present@).subrange(i as int, present@.len() as int),
                        guid@,
                    ),
                decreases present.len() - i,
            {
                let ghost rest = ext_view(present@).subrange(i as int, present@.len() as int);
                proof {
                    assert(rest.drop_first() =~= ext_view(present@).subrange(
                        i + 1,
                        present@.len() as int,
                    ));
                }
                proof {
                    assert(rest[0] == (present@[i as int].0@, present@[i as int].1));
                }
                if same_guid(&present[i].0, guid) {
                    proof {
                        assert(rest.len() > 0);
                        assert(rest[0].0 == guid@);
                        assert(first_unit_id(rest, guid@) == Some(present@[i as int].1));

                    }
                    return Some(present[i].1);
                }
                i = i + 1;
            }
            None
        },
        _ => None,
    }
}


/// The plain facts about an opened camera: who it is and where its units sit
/// behind the VideoControl interface.
pub struct Cam {
    pub name: String,
    pub vid: u16,
    pub pid: u16,
    /// False when even a standard descriptor request fails.
    pub responding: bool,
    pub vc_iface: u8,
    pub camera_id: Option<u8>,
    pub processing_id: Option<u8>,
    pub extension_units: Vec<([u8; 16], u8)>,
    /// The Model covering this camera, if any. Selected by vid:pid.
    pub model: Option<&'static Model>,
}

/// Every control this camera can carry: the standard catalogue, then its
/// Model's own.
pub open spec fn cam_controls(model: Option<&'static Model>) -> Seq<Control> {
    match model {
        Some(m) => standard_spec() + m.controls@,
        None => standard_spec(),
    }
}

/// Whether `c` lives on the extension unit `g`.
pub open spec fn on_unit(c: Control, g: Seq<u8>) -> bool {
    match c.unit {
        Unit::Extension(u) => u@ == g,
        _ => false,
    }
}

/// Whether some control among `cs` lives on the extension unit `g`.
pub open spec fn unit_claimed(cs: Seq<Control>, g: Seq<u8>) -> bool {
    exists|i: int| 0 <= i < cs.len() && on_unit(#[trigger] cs[i], g)
}

/// The GUIDs among `units` that no control of `model` lives on.
pub open spec fn unclaimed(units: Seq<(Seq<u8>, u8)>, model: Option<&'static Model>) -> Seq<Seq<u8>>
    decreases units.len(),
{
    if units.len() == 0 {
        seq![]
    } else {
        let rest = unclaimed(units.drop_last(), model);
        let g = units.last().0;
        let claimed = match model {
            Some(m) => unit_claimed(m.controls@, g),
            None => false,
        };
        if claimed {
            rest
        } else {
            rest.push(g)
        }
    }
}

impl Cam {
    /// Assemble a camera's facts from its descriptors; the Model is looked
    /// up by vid:pid.
    pub fn new(name: String, vid: u16, pid: u16, responding: bool, vc_iface: u8, units: ParsedUnits) -> (r: Cam)
        ensures
            r.name@ == name@,
            r.vid == vid,
            r.pid == pid,
            r.responding == responding,
            r.vc_iface == vc_iface,
            r.camera_id == units.camera_id,
            r.processing_id == units.processing_id,
            r.extension_units@ == units.extensions@,
            opt_deref(r.model) == first_claiming(models_spec(), vid, pid),
    {
        Cam {
            name,
            vid,
            pid,
            responding,
            vc_iface,
            camera_id: units.camera_id,
            processing_id: units.processing_id,
            extension_units: units.extensions,
            model: for_camera(vid, pid),
        }
    }

    /// Whether a Model covers this camera.
    pub fn has_razer_unit(&self) -> (r: bool)
        ensures
            r == (self.model is Some),
    {
        self.model.is_some()
    }

    /// Replace a low-level transfer error with something actionable when the
    /// device has stopped answering altogether.
    pub fn explain(&self, e: String) -> (r: String)
        ensures
            r@ == (if self.responding {
                e@
            } else {
                NOT_RESPONDING@
            }),
    {
        if self.responding {
            e
        } else {
            String::from_str(NOT_RESPONDING)
        }
    }

    pub open spec fn unit_id_spec(&self, unit: Unit) -> Option<u8> {
        match unit {
            Unit::Camera => self.camera_id,
            Unit::Processing => self.processing_id,
            Unit::Extension(g) => first_unit_id(ext_view(self.extension_units@), g@),
        }
    }

    /// The id of the unit `unit` names on this camera.
    pub fn unit_id(&self, unit: Unit) -> (r: Option<u8>)
        ensures
            r == self.unit_id_spec(unit),
    {
        match unit {
            Unit::Camera => self.camera_id,
            Unit::Processing => self.processing_id,
            Unit::Extension(_) => find_unit(self.extension_units.as_slice(), unit),
        }
    }

    /// wIndex packs the unit and the interface it lives behind.
    pub fn windex(&self, unit_id: u8) -> (r: u16)
        ensures
            r == unit_id as int * 256 + self.vc_iface as int,
    {
        let a = unit_id;
        let b = self.vc_iface;
        assert(((a as u16) << 8u16) | (b as u16) == a as int * 256 + b as int) by (bit_vector);
        ((a as u16) << 8u16) | (b as u16)
    }

    /// wValue and wIndex for a request to `selector` on `unit`, or why the
    /// camera cannot take one.
    pub fn request(&self, unit: Unit, selector: u8) -> (r: Result<(u16, u16), String>)
        ensures
            match self.unit_id_spec(unit) {
                Some(id) => r == Ok::<(u16, u16), String>(((selector as int * 256) as u16, (id as int * 256 + self.vc_iface as int) as u16)),
                None => r matches Err(e) && e@ == unit_label(unit) + " not present on this camera"@,
            },
    {
        match self.unit_id(unit) {
            Some(id) => {
                let v = selector;
                assert((v as u16) << 8u16 == v as int * 256) by (bit_vector);
                Ok(((selector as u16) << 8u16, self.windex(id)))
            },
            None => {
                let mut e = unit.label();
                append_str(&mut e, " not present on this camera");
                Err(e)
            },
        }
    }

    /// Every control this camera can carry, in display order.
    pub fn controls(&self) -> (r: Vec<&'static Control>)
        ensures
            r@.map_values(|c: &'static Control| *c) == cam_controls(self.model),
    {
        let mut r: Vec<&'static Control> = Vec::new();
        let st = standard();
        let mut i: usize = 0;
        while i < st.len()
            invariant
                i <= st.len(),
                st@ == standard_spec(),
                r@.len() == i,
                forall|j: int| 0 <= j < i ==> *(#[trigger] r@[j]) == st@[j],
            decreases st.len() - i,
        {
            r.push(&st[i]);
            i = i + 1;
        }
        match self.model {
            Some(m) => {
                let cs = m.controls;
                let mut k: usize = 0;
                while k < cs.len()
                    invariant
                        k <= cs.len(),
                        r@.len() == st@.len() + k,
                        forall|j: int| 0 <= j < st@.len() ==> *(#[trigger] r@[j]) == st@[j],
                        forall|j: int| 0 <= j < k ==> *r@[st@.len() + j] == cs@[j],
                    decreases cs.len() - k,
                {
                    r.push(&cs[k]);
                    k = k + 1;
                }
                proof {
                    assert(r@.map_values(|c: &'static Control| *c) =~= cam_controls(self.model));
                }
            },
            None => {
                proof {
                    assert(r@.map_values(|c: &'static Control| *c) =~= cam_controls(self.model));
                }
            },
        }
        r
    }

    /// The control called `name`, if this camera can carry it.
    pub fn find(&self, name: &str) -> (r: Option<&'static Control>)
        ensures
            opt_deref(r) == first_named(cam_controls(self.model), name@),
    {
        proof {
            match self.model {
                Some(m) => crate::controls::lemma_first_named_append(standard_spec(), m.controls@, name@),
                None => {},
            }
        }
        match find_in(standard(), name) {
            Some(c) => Some(c),
            None => match self.model {
                Some(m) => find_in(m.controls, name),
                None => None,
            },
        }
    }

    /// The GUID of every extension unit, in descriptor order.
    pub fn extension_unit_guids(&self) -> (r: Vec<[u8; 16]>)
        ensures
            r@.map_values(|g: [u8; 16]| g@) == ext_view(self.extension_units@).map_values(
                |e: (Seq<u8>, u8)| e.0,
            ),
    {
        let mut r: Vec<[u8; 16]> = Vec::new();
        let mut i: usize = 0;
        while i < self.extension_units.len()
            invariant
                i <= self.extension_units.len(),
                r@.len() == i,
                forall|j: int| 0 <= j < i ==> (#[trigger] r@[j])@ == self.extension_units@[j].0@,
            decreases self.extension_units.len() - i,
        {
            r.push(self.extension_units[i].0);
            i = i + 1;
        }
        proof {
            assert(r@.map_values(|g: [u8; 16]| g@) =~= ext_view(self.extension_units@).map_values(
                |e: (Seq<u8>, u8)| e.0,
            ));
        }
        r
    }

    /// Extension units on this camera that its Model (if any) does not claim.
    pub fn unclaimed_units(&self) -> (r: Vec<[u8; 16]>)
        ensures
            r@.map_values(|g: [u8; 16]| g@) == unclaimed(ext_view(self.extension_units@), self.model),
    {
        let mut r: Vec<[u8; 16]> = Vec::new();
        let mut i: usize = 0;
        while i < self.extension_units.len()
            invariant
                i <= self.extension_units.len(),
                r@.map_values(|g: [u8; 16]| g@) == unclaimed(
                    ext_view(self.extension_units@).subrange(0, i as int),
                    self.model,
                ),
            decreases self.extension_units.len() - i,
        {
            let g = &self.extension_units[i].0;
            let ghost pre = ext_view(self.extension_units@).subrange(0, i + 1);
            proof {
                assert(pre.drop_last() =~= ext_view(self.extension_units@).subrange(0, i as int));
                assert(pre.last().0 == g@);
            }
            let claimed = match self.model {
                Some(m) => claims(m.controls, g),
                None => false,
            };
            if !claimed {
                r.push(*g);
                proof {
                    assert(r@.map_values(|g: [u8; 16]| g@) =~= unclaimed(pre, self.model));
                }
            }
            i = i + 1;
        }
        proof {
            assert(ext_view(self.extension_units@).subrange(0, self.extension_units@.len() as int)
                =~= ext_view(self.extension_units@));
        }
        r
    }

    /// The unit, selector and payload that make this camera keep its
    /// extension-unit state across a power cycle, if its Model has one.
    pub fn persist_request(&self) -> (r: Option<(Unit, u8, &'static [u8])>)
        ensures
            r == (match self.model {
                Some(m) => m.persist,
                None => None,
            }),
    {
        match self.model {
            Some(m) => m.persist,
            None => None,
        }
    }
}

fn claims(cs: &'static [Control], g: &[u8; 16]) -> (r: bool)
    ensures
        r == unit_claimed(cs@, g@),
{
    let mut i: usize = 0;
    while i < cs.len()
        invariant
            i <= cs.len(),
            forall|j: int| 0 <= j < i ==> !on_unit(#[trigger] cs@[j], g@),
        decreases cs.len() - i,
    {
        match cs[i].unit {
            Unit::Extension(u) => {
                if same_guid(u, g) {
                    return true;
                }
            },
            _ => {},
        }
        i = i + 1;
    }
    false
}

/// Whether a camera matches a (lower-cased) selector: its `vvvv:pppp` id
/// exactly, or any substring of its (lower-cased) product name.
pub open spec fn matches_selector(sel: Seq<char>, vid: u16, pid: u16, name: Seq<char>) -> bool {
    key_text(vid, pid) == sel || (name.len() > 0 && find_from(name, sel, 0) is Some)
}

/// A (lower-cased) selector picks a camera exactly when it is the camera's
/// `vvvv:pppp` id, or when it occurs somewhere in the camera's non-empty
/// (lower-cased) product name, the whole name included.
pub proof fn lemma_selector_matches_id_or_part_of_name(sel: Seq<char>, vid: u16, pid: u16, name: Seq<char>, at: int)
    ensures
        key_text(vid, pid) == sel ==> matches_selector(sel, vid, pid, name),
        name.len() > 0 && 0 <= at && at + sel.len() <= name.len() && name.subrange(at, at + sel.len()) == sel
            ==> matches_selector(sel, vid, pid, name),
        name.len() > 0 ==> matches_selector(name, vid, pid, name),
        matches_selector(sel, vid, pid, name) ==> key_text(vid, pid) == sel || (name.len() > 0 && exists|k: int|
            0 <= k && k + sel.len() <= name.len() && #[trigger] name.subrange(k, k + sel.len()) == sel),
{
    lemma_find_from(name, sel, 0);
    if name.len() > 0 && 0 <= at && at + sel.len() <= name.len() && name.subrange(at, at + sel.len()) == sel {
        assert(occurs_at(name, sel, at));
    }
    lemma_find_from(name, name, 0);
    assert(name.subrange(0, name.len() as int) =~= name);
    assert(occurs_at(name, name, 0));
    if matches_selector(sel, vid, pid, name) && key_text(vid, pid) != sel {
        let k = find_from(name, sel, 0)->0;
        assert(occurs_at(name, sel, k));
        assert(name.subrange(k, k + sel.len()) == sel);
    }
}

/// The first camera at or after `i` that matches.
pub open spec fn first_match(sel: Seq<char>, ids: Seq<(u16, u16)>, names: Seq<Seq<char>>, i: int) -> Option<int>
    decreases ids.len() - i,
{
    if i < 0 || i >= ids.len() {
        None
    } else if matches_selector(sel, ids[i].0, ids[i].1, lowercase(names[i])) {
        Some(i)
    } else {
        first_match(sel, ids, names, i + 1)
    }
}

pub open spec fn id_keys(ids: Seq<(u16, u16)>) -> Seq<Seq<char>> {
    ids.map_values(|p: (u16, u16)| key_text(p.0, p.1))
}

/// Which of the attached cameras (`ids`, with their product `names`, empty
/// where unreadable) a command works on. With no selector that is the only
/// camera present; if several are attached the caller must disambiguate.
pub open spec fn select_spec(ids: Seq<(u16, u16)>, names: Seq<Seq<char>>, selector: Option<Seq<char>>) -> Result<int, Seq<char>> {
    if ids.len() == 0 {
        Err("no UVC camera found"@)
    } else {
        match selector {
            None => if ids.len() > 1 {
                Err("several cameras attached ("@ + joined(id_keys(ids), ", "@) + "); pass --device"@)
            } else {
                Ok(0)
            },
            Some(s) => match first_match(lowercase(s), ids, names, 0) {
                Some(i) => Ok(i),
                None => Err("no camera matching '"@ + s + "'"@),
            },
        }
    }
}

/// Whether the camera `vid`:`pid` named `name` matches the selector `sel`,
/// both already lower-cased.
pub fn camera_matches(sel: &str, vid: u16, pid: u16, name: &str) -> (r: bool)
    ensures
        r == matches_selector(sel@, vid, pid, name@),
{
    let id = Profile::key(vid, pid);
    let sv = chars_of(sel);
    let nc = chars_of(name);
    str_eq(id.as_str(), sel) || (nc.len() > 0 && find_any(&nc, &sv))
}

pub fn select_camera(ids: &Vec<(u16, u16)>, names: &Vec<String>, selector: Option<&str>) -> (r: Result<usize, String>)
    requires
        ids@.len() == names@.len(),
    ensures
        match r {
            Ok(i) => select_spec(ids@, string_views(names@), opt_str_ref(selector)) == Ok::<int, Seq<char>>(i as int),
            Err(e) => select_spec(ids@, string_views(names@), opt_str_ref(selector)) == Err::<int, Seq<char>>(e@),
        },
{
    let ghost nv = string_views(names@);
    if ids.len() == 0 {
        return Err(String::from_str("no UVC camera found"));
    }
    match selector {
        None => {
            if ids.len() > 1 {
                let mut keys: Vec<String> = Vec::new();
                let mut i: usize = 0;
                while i < ids.len()
                    invariant
                        i <= ids@.len(),
                        keys@.len() == i,
                        forall|j: int| 0 <= j < i ==> (#[trigger] keys@[j])@ == key_text(ids@[j].0, ids@[j].1),
                    decreases ids.len() - i,
                {
                    keys.push(Profile::key(ids[i].0, ids[i].1));
                    i = i + 1;
                }
                proof {
                    assert(string_views(keys@) =~= id_keys(ids@));
                }
                let mut e = String::from_str("several cameras attached (");
                let j = join_strings(&keys, ", ");
                append_str(&mut e, j.as_str());
                append_str(&mut e, "); pass --device");
                return Err(e);
            }
            Ok(0)
        },
        Some(sel) => {
            let s = to_lowercase(sel);
            let mut i: usize = 0;
            while i < ids.len()
                invariant
                    i <= ids@.len(),
                    ids@.len() == names@.len(),
                    nv == string_views(names@),
                    s@ == lowercase(sel@),
                    opt_str_ref(selector) == Some(sel@),
                    ids@.len() > 0,
                    first_match(lowercase(sel@), ids@, nv, 0) == first_match(lowercase(sel@), ids@, nv, i as int),
                decreases ids.len() - i,
            {
                let name = to_lowercase(names[i].as_str());
                proof {
                    assert(nv[i as int] == names@[i as int]@);
                }
                let hit = camera_matches(s.as_str(), ids[i].0, ids[i].1, name.as_str());
                proof {
                    assert(hit == matches_selector(lowercase(sel@), ids@[i as int].0, ids@[i as int].1, lowercase(nv[i as int])));
                }
                if hit {
                    proof {
                        assert(first_match(lowercase(sel@), ids@, nv, i as int) == Some(i as int));
                        assert(first_match(lowercase(sel@), ids@, nv, 0) == Some(i as int));
                        assert(opt_str_ref(selector) == Some(sel@));
                    }
                    return Ok(i);
                }
                i = i + 1;
            }
            let mut e = String::from_str("no camera matching '");
            append_str(&mut e, sel);
            append_str(&mut e, "'");
            Err(e)
        },
    }
}

pub open spec fn opt_str_ref(o: Option<&str>) -> Option<Seq<char>> {
    match o {
        Some(s) => Some(s@),
        None => None,
    }
}

/// Whether `pat` occurs anywhere in `s`, the empty pattern included.
fn find_any(s: &Vec<char>, pat: &Vec<char>) -> (r: bool)
    ensures
        r == find_from(s@, pat@, 0) is Some,
{
    if pat.len() == 0 {
        proof {
            assert(s@.subrange(0, 0) =~= pat@);
        }
        return true;
    }
    find_chars(s, pat, 0).is_some()
}

} // verus!
