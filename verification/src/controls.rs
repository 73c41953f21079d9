//! The catalogue of controls kiyoctl knows how to read and write.
//!
//! Standard UVC controls live on the camera terminal or processing unit and are
//! readable. Some Model controls are write-only — the camera accepts them but
//! never reports them back — so their state is tracked in the saved profile
//! rather than queried from hardware.

use vstd::prelude::*;
use crate::usb::Unit;
use crate::models::{models, models_spec, deref_models, Model};
use crate::text::{
    append_int, append_str, fmt_int, int_digits, join, joined, lowercase, opt_deref, opt_int,
    parse_i64_chars, parsed_i64, seq_eq, str_eq, to_lowercase, trim, trimmed, chars_of,
};
use crate::usb::INFO_GET;
use crate::usb::{GET_CUR, GET_DEF, GET_MAX, GET_MIN, GET_RES};
use crate::usb::INFO_SET;

verus! {

/// A single named payload of a write-only control.
pub struct RazerOpt {
    pub name: &'static str,
    /// Payload written with SET_CUR.
    pub payload: &'static [u8],
    /// Some options need a priming write first (the field-of-view ones do).
    pub pre: Option<&'static [u8]>,
}

pub enum Kind {
    Int { signed: bool },
    Bool,
    /// Named values over a small integer domain.
    Menu(&'static [(&'static str, i64)]),
    /// Opaque named payloads with no read-back.
    Razer(&'static [RazerOpt]),
}

pub struct Control {
    pub name: &'static str,
    pub unit: Unit,
    pub selector: u8,
    pub len: usize,
    pub kind: Kind,
    pub help: &'static str,
    /// Controls that gate others are applied first.
    pub order: u8,
    /// This control is only writable while `.0` holds one of the values `.1`.
    pub requires: Option<(&'static str, &'static [&'static str])>,
}

/// The shared UVC catalogue, in the order it is shown.
pub open spec fn standard_spec() -> Seq<Control> {
    seq![
        Control {
            name: "brightness",
            unit: Unit::Processing,
            selector: 0x02,
            len: 2,
            kind: Kind::Int { signed: true },
            help: "image brightness",
            order: 1,
            requires: None,
        },
        Control {
            name: "contrast",
            unit: Unit::Processing,
            selector: 0x03,
            len: 2,
            kind: Kind::Int { signed: false },
            help: "image contrast",
            order: 1,
            requires: None,
        },
        Control {
            name: "saturation",
            unit: Unit::Processing,
            selector: 0x07,
            len: 2,
            kind: Kind::Int { signed: false },
            help: "colour saturation",
            order: 1,
            requires: None,
        },
        Control {
            name: "sharpness",
            unit: Unit::Processing,
            selector: 0x08,
            len: 2,
            kind: Kind::Int { signed: false },
            help: "edge sharpening",
            order: 1,
            requires: None,
        },
        Control {
            name: "gamma",
            unit: Unit::Processing,
            selector: 0x09,
            len: 2,
            kind: Kind::Int { signed: false },
            help: "gamma correction",
            order: 1,
            requires: None,
        },
        Control {
            name: "gain",
            unit: Unit::Processing,
            selector: 0x04,
            len: 2,
            kind: Kind::Int { signed: false },
            help: "sensor gain",
            order: 1,
            requires: None,
        },
        Control {
            name: "hue",
            unit: Unit::Processing,
            selector: 0x06,
            len: 2,
            kind: Kind::Int { signed: true },
            help: "colour hue",
            order: 1,
            requires: None,
        },
        Control {
            name: "backlight_compensation",
            unit: Unit::Processing,
            selector: 0x01,
            len: 2,
            kind: Kind::Int { signed: false },
            help: "backlight compensation",
            order: 1,
            requires: None,
        },
        Control {
            name: "power_line_frequency",
            unit: Unit::Processing,
            selector: 0x05,
            len: 1,
            kind: Kind::Menu(&[("disabled", 0), ("50hz", 1), ("60hz", 2), ("auto", 3)]),
            help: "anti-flicker mains frequency",
            order: 1,
            requires: None,
        },
        Control {
            name: "white_balance_auto",
            unit: Unit::Processing,
            selector: 0x0b,
            len: 1,
            kind: Kind::Bool,
            help: "automatic white balance",
            order: 0,
            requires: None,
        },
        Control {
            name: "white_balance",
            unit: Unit::Processing,
            selector: 0x0a,
            len: 2,
            kind: Kind::Int { signed: false },
            help: "white balance temperature (K)",
            order: 1,
            requires: Some(("white_balance_auto", &["off"])),
        },
        Control {
            name: "auto_exposure",
            unit: Unit::Camera,
            selector: 0x02,
            len: 1,
            kind: Kind::Menu(&[("manual", 1), ("auto", 2), ("shutter_priority", 4), ("aperture_priority", 8)]),
            help: "exposure mode",
            order: 0,
            requires: None,
        },
        Control {
            name: "exposure_time",
            unit: Unit::Camera,
            selector: 0x04,
            len: 4,
            kind: Kind::Int { signed: false },
            help: "exposure time (100 us units)",
            order: 1,
            requires: Some(("auto_exposure", &["manual", "shutter_priority"])),
        },
        Control {
            name: "focus_auto",
            unit: Unit::Camera,
            selector: 0x08,
            len: 1,
            kind: Kind::Bool,
            help: "automatic focus",
            order: 0,
            requires: None,
        },
        Control {
            name: "focus",
            unit: Unit::Camera,
            selector: 0x06,
            len: 2,
            kind: Kind::Int { signed: false },
            help: "focus position",
            order: 1,
            requires: Some(("focus_auto", &["off"])),
        },
        Control {
            name: "zoom",
            unit: Unit::Camera,
            selector: 0x0b,
            len: 2,
            kind: Kind::Int { signed: false },
            help: "optical zoom",
            order: 1,
            requires: None,
        },
    ]
}

/// The shared UVC catalogue.
pub fn standard() -> (r: &'static [Control])
    ensures
        r@ == standard_spec(),
{
    &[
        Control {
            name: "brightness",
            unit: Unit::Processing,
            selector: 0x02,
            len: 2,
            kind: Kind::Int { signed: true },
            help: "image brightness",
            order: 1,
            requires: None,
        },
        Control {
            name: "contrast",
            unit: Unit::Processing,
            selector: 0x03,
            len: 2,
            kind: Kind::Int { signed: false },
            help: "image contrast",
            order: 1,
            requires: None,
        },
        Control {
            name: "saturation",
            unit: Unit::Processing,
            selector: 0x07,
            len: 2,
            kind: Kind::Int { signed: false },
            help: "colour saturation",
            order: 1,
            requires: None,
        },
        Control {
            name: "sharpness",
            unit: Unit::Processing,
            selector: 0x08,
            len: 2,
            kind: Kind::Int { signed: false },
            help: "edge sharpening",
            order: 1,
            requires: None,
        },
        Control {
            name: "gamma",
            unit: Unit::Processing,
            selector: 0x09,
            len: 2,
            kind: Kind::Int { signed: false },
            help: "gamma correction",
            order: 1,
            requires: None,
        },
        Control {
            name: "gain",
            unit: Unit::Processing,
            selector: 0x04,
            len: 2,
            kind: Kind::Int { signed: false },
            help: "sensor gain",
            order: 1,
            requires: None,
        },
        Control {
            name: "hue",
            unit: Unit::Processing,
            selector: 0x06,
            len: 2,
            kind: Kind::Int { signed: true },
            help: "colour hue",
            order: 1,
            requires: None,
        },
        Control {
            name: "backlight_compensation",
            unit: Unit::Processing,
            selector: 0x01,
            len: 2,
            kind: Kind::Int { signed: false },
            help: "backlight compensation",
            order: 1,
            requires: None,
        },
        Control {
            name: "power_line_frequency",
            unit: Unit::Processing,
            selector: 0x05,
            len: 1,
            kind: Kind::Menu(&[("disabled", 0), ("50hz", 1), ("60hz", 2), ("auto", 3)]),
            help: "anti-flicker mains frequency",
            order: 1,
            requires: None,
        },
        Control {
            name: "white_balance_auto",
            unit: Unit::Processing,
            selector: 0x0b,
            len: 1,
            kind: Kind::Bool,
            help: "automatic white balance",
            order: 0,
            requires: None,
        },
        Control {
            name: "white_balance",
            unit: Unit::Processing,
            selector: 0x0a,
            len: 2,
            kind: Kind::Int { signed: false },
            help: "white balance temperature (K)",
            order: 1,
            requires: Some(("white_balance_auto", &["off"])),
        },
        Control {
            name: "auto_exposure",
            unit: Unit::Camera,
            selector: 0x02,
            len: 1,
            kind: Kind::Menu(&[("manual", 1), ("auto", 2), ("shutter_priority", 4), ("aperture_priority", 8)]),
            help: "exposure mode",
            order: 0,
            requires: None,
        },
        Control {
            name: "exposure_time",
            unit: Unit::Camera,
            selector: 0x04,
            len: 4,
            kind: Kind::Int { signed: false },
            help: "exposure time (100 us units)",
            order: 1,
            requires: Some(("auto_exposure", &["manual", "shutter_priority"])),
        },
        Control {
            name: "focus_auto",
            unit: Unit::Camera,
            selector: 0x08,
            len: 1,
            kind: Kind::Bool,
            help: "automatic focus",
            order: 0,
            requires: None,
        },
        Control {
            name: "focus",
            unit: Unit::Camera,
            selector: 0x06,
            len: 2,
            kind: Kind::Int { signed: false },
            help: "focus position",
            order: 1,
            requires: Some(("focus_auto", &["off"])),
        },
        Control {
            name: "zoom",
            unit: Unit::Camera,
            selector: 0x0b,
            len: 2,
            kind: Kind::Int { signed: false },
            help: "optical zoom",
            order: 1,
            requires: None,
        },
    ]
}

/// The first control among `cs` called `name`.
pub open spec fn first_named(cs: Seq<Control>, name: Seq<char>) -> Option<Control>
    decreases cs.len(),
{
    if cs.len() == 0 {
        None
    } else if cs[0].name@ == name {
        Some(cs[0])
    } else {
        first_named(cs.drop_first(), name)
    }
}

/// Every Model's controls, in registry order.
pub open spec fn model_controls(ms: Seq<Model>) -> Seq<Control>
    decreases ms.len(),
{
    if ms.len() == 0 {
        seq![]
    } else {
        ms[0].controls@ + model_controls(ms.drop_first())
    }
}

/// The standard catalogue followed by every registered Model's controls.
pub open spec fn every_spec() -> Seq<Control> {
    standard_spec() + model_controls(models_spec())
}

pub proof fn lemma_first_named_append(a: Seq<Control>, b: Seq<Control>, name: Seq<char>)
    ensures
        first_named(a + b, name) == (match first_named(a, name) {
            Some(c) => Some(c),
            None => first_named(b, name),
        }),
    decreases a.len(),
{
    if a.len() == 0 {
        assert(a + b =~= b);
    } else {
        assert((a + b).drop_first() =~= a.drop_first() + b);
        lemma_first_named_append(a.drop_first(), b, name);
    }
}

/// The first of `cs` called `name`.
pub fn find_in(cs: &'static [Control], name: &str) -> (r: Option<&'static Control>)
    ensures
        opt_deref(r) == first_named(cs@, name@),
{
    let mut i: usize = 0;
    proof {
        assert(cs@.subrange(0, cs@.len() as int) =~= cs@);
    }
    while i < cs.len()
        invariant
            i <= cs.len(),
            first_named(cs@, name@) == first_named(cs@.subrange(i as int, cs@.len() as int), name@),
        decreases cs.len() - i,
    {
        let ghost rest = cs@.subrange(i as int, cs@.len() as int);
        proof {
            assert(rest.drop_first() =~= cs@.subrange(i + 1, cs@.len() as int));
            assert(rest[0] == cs@[i as int]);
        }
        if str_eq(cs[i].name, name) {
            return Some(&cs[i]);
        }
        i = i + 1;
    }
    None
}

/// Look a control up by name among every control kiyoctl knows: the standard
/// catalogue first, then each Model's own.
pub fn find(name: &str) -> (r: Option<&'static Control>)
    ensures
        opt_deref(r) == first_named(every_spec(), name@),
{
    proof {
        lemma_first_named_append(standard_spec(), model_controls(models_spec()), name@);
    }
    if let Some(c) = find_in(standard(), name) {
        return Some(c);
    }
    let ms = models();
    let mut i: usize = 0;
    proof {
        assert(deref_models(ms@).subrange(0, ms@.len() as int) =~= deref_models(ms@));
    }
    while i < ms.len()
        invariant
            i <= ms.len(),
            deref_models(ms@) == models_spec(),
            first_named(standard_spec(), name@) is None,
            first_named(every_spec(), name@) == first_named(model_controls(models_spec()), name@),
            first_named(model_controls(models_spec()), name@) == first_named(
                model_controls(deref_models(ms@).subrange(i as int, ms@.len() as int)),
                name@,
            ),
        decreases ms.len() - i,
    {
        let ghost rest = deref_models(ms@).subrange(i as int, ms@.len() as int);
        proof {
            assert(rest.drop_first() =~= deref_models(ms@).subrange(i + 1, ms@.len() as int));
            assert(rest[0] == *ms@[i as int]);
            assert(model_controls(rest) == rest[0].controls@ + model_controls(rest.drop_first()));
            lemma_first_named_append(rest[0].controls@, model_controls(rest.drop_first()), name@);
        }
        if let Some(c) = find_in(ms[i].controls, name) {
            return Some(c);
        }
        i = i + 1;
    }
    None
}

pub open spec fn deref_controls(v: Seq<&'static Control>) -> Seq<Control> {
    v.map_values(|c: &'static Control| *c)
}

/// Every control the library knows, in catalogue order: the standard ones,
/// then each Model's own.
pub fn all_controls() -> (r: Vec<&'static Control>)
    ensures
        deref_controls(r@) == every_spec(),
{
    let mut r: Vec<&'static Control> = Vec::new();
    let st = standard();
    let mut i: usize = 0;
    while i < st.len()
        invariant
            i <= st@.len(),
            r@.len() == i,
            forall|j: int| 0 <= j < i ==> *(#[trigger] r@[j]) == st@[j],
        decreases st.len() - i,
    {
        r.push(&st[i]);
        i = i + 1;
    }
    proof {
        assert(deref_controls(r@) =~= st@);
    }
    let ms = models();
    let mut k: usize = 0;
    proof {
        assert(model_controls(deref_models(ms@).subrange(0, 0)) =~= Seq::<Control>::empty());
        assert(deref_controls(r@) =~= standard_spec() + model_controls(deref_models(ms@).subrange(0, 0)));
    }
    while k < ms.len()
        invariant
            k <= ms@.len(),
            deref_models(ms@) == models_spec(),
            deref_controls(r@) == standard_spec() + model_controls(deref_models(ms@).subrange(0, k as int)),
        decreases ms.len() - k,
    {
        let cs = ms[k].controls;
        let ghost before = deref_controls(r@);
        let ghost n0 = r@.len();
        let mut j: usize = 0;
        while j < cs.len()
            invariant
                j <= cs@.len(),
                r@.len() == n0 + j,
                before.len() == n0,
                forall|t: int| 0 <= t < n0 ==> *(#[trigger] r@[t]) == before[t],
                forall|t: int| 0 <= t < j ==> *r@[n0 + t] == cs@[t],
            decreases cs.len() - j,
        {
            r.push(&cs[j]);
            j = j + 1;
        }
        proof {
            assert(deref_controls(r@) =~= before + cs@);
            lemma_model_controls_push(deref_models(ms@).subrange(0, k as int), *ms@[k as int]);
            assert(deref_models(ms@).subrange(0, k + 1) =~= deref_models(ms@).subrange(0, k as int).push(*ms@[k as int]));
            assert(deref_controls(r@) =~= standard_spec() + model_controls(deref_models(ms@).subrange(0, k + 1)));
        }
        k = k + 1;
    }
    proof {
        assert(deref_models(ms@).subrange(0, ms@.len() as int) =~= deref_models(ms@));
    }
    r
}

proof fn lemma_model_controls_push(ms: Seq<Model>, m: Model)
    ensures
        model_controls(ms.push(m)) == model_controls(ms) + m.controls@,
    decreases ms.len(),
{
    if ms.len() == 0 {
        assert(ms.push(m).drop_first() =~= Seq::<Model>::empty());
        assert(model_controls(Seq::<Model>::empty()) == Seq::<Control>::empty());
        assert(ms.push(m)[0] == m);
        assert(model_controls(ms.push(m)) =~= m.controls@ + Seq::<Control>::empty());
        assert(model_controls(ms) + m.controls@ =~= m.controls@);
    } else {
        assert(ms.push(m).drop_first() =~= ms.drop_first().push(m));
        lemma_model_controls_push(ms.drop_first(), m);
        assert(model_controls(ms.push(m)) =~= ms[0].controls@ + (model_controls(ms.drop_first()) + m.controls@));
    }
}

/// Whether some registered Model declares a control called `name`.
pub open spec fn is_model_control_spec(name: Seq<char>) -> bool {
    first_named(model_controls(models_spec()), name) is Some
}

/// Whether `name` is a control some Model declares (and so lives in a
/// per-camera section of a profile).
pub fn is_model_control(name: &str) -> (r: bool)
    ensures
        r == is_model_control_spec(name@),
{
    let ms = models();
    let mut i: usize = 0;
    proof {
        assert(deref_models(ms@).subrange(0, ms@.len() as int) =~= deref_models(ms@));
    }
    while i < ms.len()
        invariant
            i <= ms.len(),
            deref_models(ms@) == models_spec(),
            first_named(model_controls(models_spec()), name@) == first_named(
                model_controls(deref_models(ms@).subrange(i as int, ms@.len() as int)),
                name@,
            ),
        decreases ms.len() - i,
    {
        let ghost rest = deref_models(ms@).subrange(i as int, ms@.len() as int);
        proof {
            assert(rest.drop_first() =~= deref_models(ms@).subrange(i + 1, ms@.len() as int));
            assert(rest[0] == *ms@[i as int]);
            assert(model_controls(rest) == rest[0].controls@ + model_controls(rest.drop_first()));
            lemma_first_named_append(rest[0].controls@, model_controls(rest.drop_first()), name@);
        }
        if find_in(ms[i].controls, name).is_some() {
            return true;
        }
        i = i + 1;
    }
    proof {
        assert(deref_models(ms@).subrange(i as int, ms@.len() as int) =~= Seq::<Model>::empty());
    }
    false
}

pub open spec fn is_opaque(k: Kind) -> bool {
    k is Razer
}

/// The legal values of a control, when it has named ones.
pub open spec fn choices_spec(k: Kind) -> Option<Seq<Seq<char>>> {
    match k {
        Kind::Bool => Some(seq!["off"@, "on"@]),
        Kind::Menu(m) => Some(m@.map_values(|e: (&'static str, i64)| e.0@)),
        Kind::Razer(o) => Some(o@.map_values(|e: RazerOpt| e.name@)),
        Kind::Int { .. } => None,
    }
}

impl Control {
    /// Write-only: named payloads the camera never reports back.
    pub fn is_razer(&self) -> (r: bool)
        ensures
            r == is_opaque(self.kind),
    {
        match self.kind {
            Kind::Razer(_) => true,
            _ => false,
        }
    }

    /// Whether the value is a plain number.
    pub fn is_numeric(&self) -> (r: bool)
        ensures
            r == (self.kind is Int),
    {
        match self.kind {
            Kind::Int { .. } => true,
            _ => false,
        }
    }

    /// Legal values, for help text and error messages.
    pub fn choices(&self) -> (r: Option<Vec<&'static str>>)
        ensures
            choices_spec(self.kind) == (match r {
                Some(v) => Some(v@.map_values(|s: &'static str| s@)),
                None => None,
            }),
    {
        match &self.kind {
            Kind::Bool => {
                let v = vec!["off", "on"];
                proof {
                    assert(v@.map_values(|s: &'static str| s@) =~= seq!["off"@, "on"@]);
                }
                Some(v)
            },
            Kind::Menu(m) => {
                let mut v: Vec<&'static str> = Vec::new();
                let mut i: usize = 0;
                while i < m.len()
                    invariant
                        i <= m.len(),
                        v@.len() == i,
                        forall|j: int| 0 <= j < i ==> v@[j]@ == m@[j].0@,
                    decreases m.len() - i,
                {
                    v.push(m[i].0);
                    i = i + 1;
                }
                proof {
                    assert(v@.map_values(|s: &'static str| s@) =~= m@.map_values(
                        |e: (&'static str, i64)| e.0@,
                    ));
                }
                Some(v)
            },
            Kind::Razer(o) => {
                let mut v: Vec<&'static str> = Vec::new();
                let mut i: usize = 0;
                while i < o.len()
                    invariant
                        i <= o.len(),
                        v@.len() == i,
                        forall|j: int| 0 <= j < i ==> v@[j]@ == o@[j].name@,
                    decreases o.len() - i,
                {
                    v.push(o[i].name);
                    i = i + 1;
                }
                proof {
                    assert(v@.map_values(|s: &'static str| s@) =~= o@.map_values(
                        |e: RazerOpt| e.name@,
                    ));
                }
                Some(v)
            },
            Kind::Int { .. } => None,
        }
    }
}


pub open spec fn pow256(n: nat) -> nat
    decreases n,
{
    if n == 0 {
        1
    } else {
        256 * pow256((n - 1) as nat)
    }
}

/// The unsigned little-endian value of `bytes`.
pub open spec fn le_value(bytes: Seq<u8>) -> nat
    decreases bytes.len(),
{
    if bytes.len() == 0 {
        0
    } else {
        bytes[0] as nat + 256 * le_value(bytes.drop_first())
    }
}

/// A little-endian control value: two's complement over the bytes present
/// when `signed`, and reinterpreted as an i64 in any case.
pub open spec fn decoded(bytes: Seq<u8>, signed: bool) -> int {
    let v = le_value(bytes);
    if signed && bytes.len() > 0 && 2 * v >= pow256(bytes.len()) {
        v - pow256(bytes.len())
    } else if v > i64::MAX {
        v - pow256(8)
    } else {
        v as int
    }
}

/// The `len` little-endian bytes of `n`.
pub open spec fn le_bytes(n: nat, len: nat) -> Seq<u8>
    decreases len,
{
    if len == 0 {
        seq![]
    } else {
        seq![(n % 256) as u8] + le_bytes(n / 256, (len - 1) as nat)
    }
}

/// `v` reinterpreted as an unsigned 64-bit value.
pub open spec fn as_u64(v: int) -> nat {
    if v < 0 {
        (v + pow256(8)) as nat
    } else {
        v as nat
    }
}

proof fn lemma_le_value_bound(bytes: Seq<u8>)
    ensures
        le_value(bytes) < pow256(bytes.len()),
    decreases bytes.len(),
{
    if bytes.len() > 0 {
        lemma_le_value_bound(bytes.drop_first());
    }
}

proof fn lemma_pow256_8()
    ensures
        pow256(8) == 0x1_0000_0000_0000_0000,
{
    reveal_with_fuel(pow256, 9);
}

proof fn lemma_pow256_mono(a: nat, b: nat)
    requires
        a <= b,
    ensures
        pow256(a) <= pow256(b),
    decreases b,
{
    if a < b {
        lemma_pow256_mono(a, (b - 1) as nat);
    }
}

proof fn lemma_le_bytes_value(n: nat, len: nat)
    ensures
        le_value(le_bytes(n, len)) == n % pow256(len),
        le_bytes(n, len).len() == len,
    decreases len,
{
    if len > 0 {
        lemma_le_bytes_value(n / 256, (len - 1) as nat);
        let b = le_bytes(n, len);
        assert(b.drop_first() =~= le_bytes(n / 256, (len - 1) as nat));
        lemma_pow256_mono(0, (len - 1) as nat);
        vstd::arithmetic::div_mod::lemma_mod_breakdown(n as int, 256, pow256((len - 1) as nat) as int);
        assert(pow256(len) == 256 * pow256((len - 1) as nat));
    } else {
        assert(n % 1 == 0);
    }
}

proof fn lemma_pow256_split(len: nat)
    requires
        len <= 8,
    ensures
        pow256(8) == pow256(len) * pow256((8 - len) as nat),
    decreases len,
{
    if len > 0 {
        lemma_pow256_split((len - 1) as nat);
        let a = pow256((len - 1) as nat);
        let b = pow256((8 - len) as nat);
        assert(pow256((9 - len) as nat) == 256 * b);
        assert(a * (256 * b) == (256 * a) * b) by (nonlinear_arith);
    } else {
        assert(pow256(8) == 1 * pow256(8));
    }
}

/// What `encode` writes, `decode` reads back: any value that fits in `len`
/// bytes (as two's complement when `signed`) survives the round trip, and
/// over eight bytes every value does, signed or not, since the bits wrap
/// both ways.
pub proof fn lemma_decode_encode(v: i64, len: nat, signed: bool)
    requires
        1 <= len <= 8,
        signed ==> -pow256(len) <= 2 * v < pow256(len),
        !signed ==> len == 8 || 0 <= v < pow256(len),
    ensures
        decoded(le_bytes(as_u64(v as int), len), signed) == v,
{
    let p = pow256(len);
    lemma_le_bytes_value(as_u64(v as int), len);
    lemma_pow256_8();
    lemma_pow256_split(len);
    lemma_pow256_mono(1, len);
    assert(pow256(1) == 256) by {
        reveal_with_fuel(pow256, 2);
    }
    let q = pow256((8 - len) as nat);
    if v >= 0 {
        vstd::arithmetic::div_mod::lemma_small_mod(v as nat, p);
    } else {
        let w = v + p;
        assert(as_u64(v as int) == w + (q - 1) * p) by (nonlinear_arith)
            requires
                as_u64(v as int) == v + pow256(8),
                pow256(8) == p * q,
                w == v + p,
        ;
        assert(0 <= w < p);
        assert(q >= 1) by {
            lemma_pow256_mono(0, (8 - len) as nat);
        }
        vstd::arithmetic::div_mod::lemma_mod_multiples_vanish((q - 1) as int, w as int, p as int);
        assert((q - 1) * p == p * (q - 1)) by (nonlinear_arith);
        vstd::arithmetic::div_mod::lemma_small_mod(w as nat, p);
    }
}

fn pow256_exec(n: usize) -> (r: u64)
    requires
        n < 8,
    ensures
        r as nat == pow256(n as nat),
        r <= 0x1_0000_0000_0000_00,
{
    let mut r: u64 = 1;
    let mut k: usize = 0;
    while k < n
        invariant
            k <= n,
            n < 8,
            r as nat == pow256(k as nat),
        decreases n - k,
    {
        proof {
            lemma_pow256_mono(k as nat, 6);
            assert(pow256(6) == 0x1_0000_0000_0000) by {
                reveal_with_fuel(pow256, 7);
            }
        }
        r = r * 256;
        k = k + 1;
    }
    proof {
        lemma_pow256_mono(n as nat, 7);
        assert(pow256(7) == 0x1_0000_0000_0000_00) by {
            reveal_with_fuel(pow256, 8);
        }
    }
    r
}

/// Decode a little-endian control value of at most eight bytes.
pub fn decode(bytes: &[u8], signed: bool) -> (r: i64)
    requires
        bytes@.len() <= 8,
    ensures
        r as int == decoded(bytes@, signed),
{
    let n = bytes.len();
    let mut v: u64 = 0;
    let mut i: usize = n;
    proof {
        assert(bytes@.subrange(n as int, n as int) =~= Seq::<u8>::empty());
        lemma_pow256_8();
    }
    while i > 0
        invariant
            n == bytes@.len(),
            n <= 8,
            i <= n,
            v as nat == le_value(bytes@.subrange(i as int, n as int)),
            pow256(8) == 0x1_0000_0000_0000_0000,
        decreases i,
    {
        proof {
            let tail = bytes@.subrange(i - 1, n as int);
            assert(tail.drop_first() =~= bytes@.subrange(i as int, n as int));
            lemma_le_value_bound(bytes@.subrange(i as int, n as int));
            lemma_pow256_mono((n - i) as nat, 7);
            assert(pow256(7) == 0x1_0000_0000_0000_00) by {
                reveal_with_fuel(pow256, 8);
            }
        }
        i = i - 1;
        v = v * 256 + bytes[i] as u64;
    }
    proof {
        assert(bytes@.subrange(0, n as int) =~= bytes@);
        lemma_le_value_bound(bytes@);
    }
    if signed && n > 0 && n < 8 {
        let full = pow256_exec(n);
        if v >= full - v {
            return (v as i64) - (full as i64);
        }
    }
    if v > 0x7fff_ffff_ffff_ffffu64 {
        let low = (v - 0x8000_0000_0000_0000u64) as i64;
        low - 0x7fff_ffff_ffff_ffffi64 - 1
    } else {
        v as i64
    }
}

/// Encode `v` little-endian into `len` (at most eight) bytes.
pub fn encode(v: i64, len: usize) -> (r: Vec<u8>)
    requires
        len <= 8,
    ensures
        r@ == le_bytes(as_u64(v as int), len as nat),
{
    proof {
        lemma_pow256_8();
    }
    let mut u: u64 = if v < 0 {
        ((v + 0x7fff_ffff_ffff_ffffi64 + 1) as u64) + 0x8000_0000_0000_0000u64
    } else {
        v as u64
    };
    let ghost u0 = u as nat;
    let mut out: Vec<u8> = Vec::new();
    let mut i: usize = 0;
    while i < len
        invariant
            i <= len,
            le_bytes(u0, len as nat) == out@ + le_bytes(u as nat, (len - i) as nat),
        decreases len - i,
    {
        proof {
            assert(out@.push((u % 256) as u8) + le_bytes((u / 256) as nat, (len - i - 1) as nat)
                =~= out@ + le_bytes(u as nat, (len - i) as nat));
        }
        out.push((u % 256) as u8);
        u = u / 256;
        i = i + 1;
    }
    proof {
        assert(out@ + le_bytes(u as nat, 0) =~= out@);
    }
    out
}


pub open spec fn choices_text(cs: Seq<Seq<char>>) -> Seq<char> {
    joined(cs, ", "@)
}

/// The message for a value a control does not accept.
pub open spec fn bad_value_text(c: Control, value: Seq<char>) -> Seq<char> {
    match choices_spec(c.kind) {
        Some(cs) => "invalid value '"@ + value + "' for "@ + c.name@ + "; expected one of: "@
            + choices_text(cs),
        None => "invalid value '"@ + value + "' for "@ + c.name@ + "; expected a number"@,
    }
}

/// Why `value` is not a legal value of `ctrl`, for error messages.
pub fn bad_value(ctrl: &Control, value: &str) -> (r: String)
    ensures
        r@ == bad_value_text(*ctrl, value@),
{
    let mut r = String::from_str("invalid value '");
    append_str(&mut r, value);
    append_str(&mut r, "' for ");
    append_str(&mut r, ctrl.name);
    match ctrl.choices() {
        Some(c) => {
            append_str(&mut r, "; expected one of: ");
            let j = join(&c, ", ");
            append_str(&mut r, j.as_str());
        },
        None => {
            append_str(&mut r, "; expected a number");
        },
    }
    proof {
        reveal_strlit(", ");
    }
    r
}

/// The name a menu gives `raw`: its first entry with that value.
pub open spec fn menu_name(m: Seq<(&'static str, i64)>, raw: int) -> Option<Seq<char>>
    decreases m.len(),
{
    if m.len() == 0 {
        None
    } else if m[0].1 == raw {
        Some(m[0].0@)
    } else {
        menu_name(m.drop_first(), raw)
    }
}

/// A raw control value in human form.
pub open spec fn rendered(k: Kind, raw: int) -> Seq<char> {
    match k {
        Kind::Bool => if raw != 0 {
            "on"@
        } else {
            "off"@
        },
        Kind::Menu(m) => match menu_name(m@, raw) {
            Some(n) => n,
            None => int_digits(raw),
        },
        _ => int_digits(raw),
    }
}

/// Render a raw control value the way the CLI shows and accepts it.
pub fn render_raw(kind: &Kind, raw: i64) -> (r: String)
    ensures
        r@ == rendered(*kind, raw as int),
{
    match kind {
        Kind::Bool => if raw != 0 {
            String::from_str("on")
        } else {
            String::from_str("off")
        },
        Kind::Menu(m) => {
            let mut i: usize = 0;
            proof {
                assert(m@.subrange(0, m@.len() as int) =~= m@);
            }
            while i < m.len()
                invariant
                    i <= m.len(),
                    *kind == Kind::Menu(m),
                    menu_name(m@, raw as int) == menu_name(
                        m@.subrange(i as int, m@.len() as int),
                        raw as int,
                    ),
                decreases m.len() - i,
            {
                proof {
                    let rest = m@.subrange(i as int, m@.len() as int);
                    assert(rest.drop_first() =~= m@.subrange(i + 1, m@.len() as int));
                    assert(rest[0] == m@[i as int]);
                }
                if m[i].1 == raw {
                    return String::from_str(m[i].0);
                }
                i = i + 1;
            }
            fmt_int(raw)
        },
        _ => fmt_int(raw),
    }
}

/// A control's current value plus, for numeric controls, its valid range.
pub struct Reading {
    pub value: String,
    pub range: Option<(i64, i64)>,
    pub step: Option<i64>,
    pub default: Option<String>,
    pub writable: bool,
}

/// Whether the capability bits of a GET_INFO reply allow reading.
pub fn readable(info: Option<u8>) -> (r: bool)
    ensures
        r == (match info {
            Some(i) => i & INFO_GET != 0,
            None => false,
        }),
{
    match info {
        Some(i) => i & INFO_GET != 0,
        None => false,
    }
}

pub open spec fn is_signed(k: Kind) -> bool {
    k matches Kind::Int { signed } && signed
}

pub open spec fn opt_decoded(b: Option<Vec<u8>>, signed: bool) -> Option<int> {
    match b {
        Some(v) => Some(decoded(v@, signed)),
        None => None,
    }
}

pub open spec fn opt_len_ok(b: Option<Vec<u8>>) -> bool {
    match b {
        Some(v) => v@.len() <= 8,
        None => true,
    }
}

fn decode_opt(b: &Option<Vec<u8>>, signed: bool) -> (r: Option<i64>)
    requires
        opt_len_ok(*b),
    ensures
        opt_int(r) == opt_decoded(*b, signed),
{
    match b {
        Some(v) => Some(decode(v.as_slice(), signed)),
        None => None,
    }
}

/// What a control holds, from the replies the camera gave: `info` to GET_INFO,
/// `cur` to GET_CUR, and to GET_MIN, GET_MAX, GET_RES and GET_DEF whatever it
/// answered (those are asked for numeric controls only, except GET_DEF).
pub fn reading(
    ctrl: &Control,
    info: u8,
    cur: &[u8],
    min: Option<Vec<u8>>,
    max: Option<Vec<u8>>,
    res: Option<Vec<u8>>,
    def: Option<Vec<u8>>,
) -> (r: Reading)
    requires
        cur@.len() <= 8,
        opt_len_ok(min),
        opt_len_ok(max),
        opt_len_ok(res),
        opt_len_ok(def),
    ensures
        r.value@ == rendered(ctrl.kind, decoded(cur@, is_signed(ctrl.kind))),
        r.writable == (info & INFO_SET != 0),
        r.range == (match (ctrl.kind is Int, opt_decoded(min, is_signed(ctrl.kind)), opt_decoded(max, is_signed(ctrl.kind))) {
            (true, Some(lo), Some(hi)) => Some((lo as i64, hi as i64)),
            _ => None,
        }),
        opt_int(r.step) == (if ctrl.kind is Int {
            opt_decoded(res, is_signed(ctrl.kind))
        } else {
            None
        }),
        (match (r.default, opt_decoded(def, is_signed(ctrl.kind))) {
            (Some(d), Some(raw)) => d@ == rendered(ctrl.kind, raw),
            (None, None) => true,
            _ => false,
        }),
{
    let signed = match ctrl.kind {
        Kind::Int { signed } => signed,
        _ => false,
    };
    let value = render_raw(&ctrl.kind, decode(cur, signed));
    let writable = info & INFO_SET != 0;
    let numeric = ctrl.is_numeric();
    let (range, step) = if numeric {
        let lo = decode_opt(&min, signed);
        let hi = decode_opt(&max, signed);
        let step = decode_opt(&res, signed);
        let range = match (lo, hi) {
            (Some(a), Some(b)) => Some((a, b)),
            _ => None,
        };
        (range, step)
    } else {
        (None, None)
    };
    let default = match decode_opt(&def, signed) {
        Some(raw) => Some(render_raw(&ctrl.kind, raw)),
        None => None,
    };
    Reading { value, range, step, default, writable }
}


/// The GET requests that reading a control issues after GET_INFO, in order
/// (`info` is the reply to GET_INFO, `None` when the camera refused it). A
/// write-only control is asked nothing at all, and a control whose reply
/// lacks the GET bit nothing more; otherwise GET_CUR comes first, then
/// GET_MIN, GET_MAX and GET_RES for a numeric control, then GET_DEF.
pub open spec fn read_requests_spec(kind: Kind, info: Option<u8>) -> Seq<u8> {
    if kind is Razer {
        seq![]
    } else {
        match info {
            Some(i) => if i & INFO_GET == 0 {
                seq![]
            } else if kind is Int {
                seq![GET_CUR, GET_MIN, GET_MAX, GET_RES, GET_DEF]
            } else {
                seq![GET_CUR, GET_DEF]
            },
            None => seq![],
        }
    }
}

/// Whether reading `ctrl` asks the camera anything: a write-only control,
/// whose value the camera never reports, is not even asked GET_INFO.
pub fn asks_info(ctrl: &Control) -> (r: bool)
    ensures
        r == !(ctrl.kind is Razer),
{
    !ctrl.is_razer()
}

/// The requests that reading `ctrl` makes once GET_INFO answered `info`.
/// Empty means the control reads as absent.
pub fn read_requests(ctrl: &Control, info: Option<u8>) -> (r: Vec<u8>)
    ensures
        r@ == read_requests_spec(ctrl.kind, info),
{
    if ctrl.is_razer() || !readable(info) {
        return Vec::new();
    }
    if ctrl.is_numeric() {
        vec![GET_CUR, GET_MIN, GET_MAX, GET_RES, GET_DEF]
    } else {
        vec![GET_CUR, GET_DEF]
    }
}

proof fn lemma_le_bytes_small(n: nat, len: nat)
    requires
        n < 256,
    ensures
        le_bytes(n, len) == Seq::new(len, |i: int| if i == 0 { n as u8 } else { 0u8 }),
    decreases len,
{
    if len > 0 {
        lemma_le_bytes_small(0, (len - 1) as nat);
        assert(n % 256 == n && n / 256 == 0);
        assert(le_bytes(n, len) =~= Seq::new(len, |i: int| if i == 0 { n as u8 } else { 0u8 }));
    }
}

/// Writing an on/off control: after trimming and lower-casing (`v`), the
/// words on, true, 1 and yes send a single payload whose first byte is 1, and
/// off, false, 0 and no a single payload of zero bytes, `len` bytes either
/// way; so "on" and "off" never send the same thing to a control that has a
/// byte to send.
pub proof fn lemma_bool_words_write_one_and_zero(c: Control, value: Seq<char>, v: Seq<char>)
    requires
        c.kind is Bool,
    ensures
        (v == "on"@ || v == "true"@ || v == "1"@ || v == "yes"@) ==> write_plan_lowered(c, value, v)
            == Ok::<PlannedSpec, Seq<char>>(PlannedSpec::Payloads(seq![
                Seq::new(c.len as nat, |i: int| if i == 0 { 1u8 } else { 0u8 }),
            ])),
        (v == "off"@ || v == "false"@ || v == "0"@ || v == "no"@) ==> write_plan_lowered(c, value, v)
            == Ok::<PlannedSpec, Seq<char>>(PlannedSpec::Payloads(seq![Seq::new(c.len as nat, |i: int| 0u8)])),
        c.len >= 1 ==> write_plan_lowered(c, value, "on"@) != write_plan_lowered(c, value, "off"@),
{
    reveal_strlit("on");
    reveal_strlit("true");
    reveal_strlit("1");
    reveal_strlit("yes");
    reveal_strlit("off");
    reveal_strlit("false");
    reveal_strlit("0");
    reveal_strlit("no");
    lemma_le_bytes_small(1, c.len as nat);
    lemma_le_bytes_small(0, c.len as nat);
    assert(as_u64(1) == 1 && as_u64(0) == 0);
    assert(Seq::new(c.len as nat, |i: int| if i == 0 { 0u8 } else { 0u8 }) =~= Seq::new(c.len as nat, |i: int| 0u8));
    if c.len >= 1 {
        let on = Seq::new(c.len as nat, |i: int| if i == 0 { 1u8 } else { 0u8 });
        let off = Seq::new(c.len as nat, |i: int| 0u8);
        assert(on[0] != off[0]);
        assert(seq![on][0] != seq![off][0]);
    }
}

proof fn lemma_menu_name_first(m: Seq<(&'static str, i64)>, raw: int, j: int)
    ensures
        0 <= j < m.len() && m[j].1 == raw && (forall|k: int| 0 <= k < j ==> m[k].1 != raw)
            ==> menu_name(m, raw) == Some(m[j].0@),
        (forall|k: int| 0 <= k < m.len() ==> m[k].1 != raw) ==> menu_name(m, raw) is None,
    decreases m.len(),
{
    if m.len() > 0 {
        let rest = m.drop_first();
        lemma_menu_name_first(rest, raw, j - 1);
        if 0 < j < m.len() && m[j].1 == raw && (forall|k: int| 0 <= k < j ==> m[k].1 != raw) {
            assert(m[0].1 != raw);
            assert(rest[j - 1] == m[j]);
            assert forall|k: int| 0 <= k < j - 1 implies rest[k].1 != raw by {
                assert(rest[k] == m[k + 1]);
            }
        }
        if forall|k: int| 0 <= k < m.len() ==> m[k].1 != raw {
            assert(m[0].1 != raw);
            assert forall|k: int| 0 <= k < rest.len() implies rest[k].1 != raw by {
                assert(rest[k] == m[k + 1]);
            }
        }
    }
}

proof fn lemma_menu_value_unique(m: Seq<(&'static str, i64)>, j: int)
    requires
        0 <= j < m.len(),
        forall|a: int, b: int| 0 <= a < b < m.len() ==> m[a].0@ != m[b].0@,
    ensures
        menu_value(m, m[j].0@) == Some(m[j].1 as int),
    decreases m.len(),
{
    if j > 0 {
        let rest = m.drop_first();
        assert(m[0].0@ != m[j].0@);
        assert(rest[j - 1] == m[j]);
        assert forall|a: int, b: int| 0 <= a < b < rest.len() implies rest[a].0@ != rest[b].0@ by {
            assert(rest[a] == m[a + 1] && rest[b] == m[b + 1]);
        }
        lemma_menu_value_unique(rest, j - 1);
    }
}

/// A menu control shows a raw value as the name of the first menu entry
/// holding that value, and as the number itself when no entry holds it. When
/// the menu's names are all different, writing back the name shown sends
/// that same raw value again.
pub proof fn lemma_menu_shows_the_entry_name(c: Control, m: &'static [(&'static str, i64)], raw: int, j: int)
    requires
        c.kind == Kind::Menu(m),
    ensures
        0 <= j < m@.len() && m@[j].1 == raw && (forall|k: int| 0 <= k < j ==> m@[k].1 != raw) ==> {
            &&& rendered(c.kind, raw) == m@[j].0@
            &&& (forall|a: int, b: int| 0 <= a < b < m@.len() ==> m@[a].0@ != m@[b].0@) ==> write_plan_lowered(
                c,
                m@[j].0@,
                rendered(c.kind, raw),
            ) == Ok::<PlannedSpec, Seq<char>>(PlannedSpec::Payloads(seq![le_bytes(as_u64(raw), c.len as nat)]))
        },
        (forall|k: int| 0 <= k < m@.len() ==> m@[k].1 != raw) ==> rendered(c.kind, raw) == int_digits(raw),
{
    lemma_menu_name_first(m@, raw, j);
    if 0 <= j < m@.len() && (forall|a: int, b: int| 0 <= a < b < m@.len() ==> m@[a].0@ != m@[b].0@) {
        lemma_menu_value_unique(m@, j);
    }
}

/// What writing a value amounts to, before any range check.
pub enum Planned {
    /// SET_CUR payloads to send, in order.
    Payloads(Vec<Vec<u8>>),
    /// A number for a numeric control; its range still has to be checked.
    Number(i64),
}

/// The meaning of a [`Planned`] value.
pub enum PlannedSpec {
    Payloads(Seq<Seq<u8>>),
    Number(int),
}

pub open spec fn planned_view(p: Planned) -> PlannedSpec {
    match p {
        Planned::Payloads(ps) => PlannedSpec::Payloads(ps@.map_values(|v: Vec<u8>| v@)),
        Planned::Number(n) => PlannedSpec::Number(n as int),
    }
}

/// The first option among `o` called `name`.
pub open spec fn opt_named(o: Seq<RazerOpt>, name: Seq<char>) -> Option<RazerOpt>
    decreases o.len(),
{
    if o.len() == 0 {
        None
    } else if o[0].name@ == name {
        Some(o[0])
    } else {
        opt_named(o.drop_first(), name)
    }
}

/// The value of the first menu entry called `name`.
pub open spec fn menu_value(m: Seq<(&'static str, i64)>, name: Seq<char>) -> Option<int>
    decreases m.len(),
{
    if m.len() == 0 {
        None
    } else if m[0].0@ == name {
        Some(m[0].1 as int)
    } else {
        menu_value(m.drop_first(), name)
    }
}

pub open spec fn bool_word(v: Seq<char>) -> Option<int> {
    if v == "on"@ || v == "true"@ || v == "1"@ || v == "yes"@ {
        Some(1)
    } else if v == "off"@ || v == "false"@ || v == "0"@ || v == "no"@ {
        Some(0)
    } else {
        None
    }
}

pub open spec fn opt_payloads(o: RazerOpt) -> Seq<Seq<u8>> {
    match o.pre {
        Some(p) => seq![p@, o.payload@],
        None => seq![o.payload@],
    }
}

/// What writing `value` (the human-facing form: a number, `on`/`off`, or an
/// option name, compared after trimming and lower-casing) to `c` means.
pub open spec fn write_plan(c: Control, value: Seq<char>) -> Result<PlannedSpec, Seq<char>> {
    write_plan_lowered(c, value, lowercase(trimmed(value)))
}

/// What writing `value` to `c` amounts to, read from `v`: the value trimmed
/// and lower-cased.
pub open spec fn write_plan_lowered(c: Control, value: Seq<char>, v: Seq<char>) -> Result<PlannedSpec, Seq<char>> {
    let bad = bad_value_text(c, value);
    match c.kind {
        Kind::Razer(o) => match opt_named(o@, v) {
            Some(opt) => Ok(PlannedSpec::Payloads(opt_payloads(opt))),
            None => Err(bad),
        },
        Kind::Bool => match bool_word(v) {
            Some(raw) => Ok(PlannedSpec::Payloads(seq![le_bytes(as_u64(raw), c.len as nat)])),
            None => Err(bad),
        },
        Kind::Menu(m) => match menu_value(m@, v) {
            Some(raw) => Ok(PlannedSpec::Payloads(seq![le_bytes(as_u64(raw), c.len as nat)])),
            None => match parsed_i64(v) {
                Some(raw) => Ok(PlannedSpec::Payloads(seq![le_bytes(as_u64(raw), c.len as nat)])),
                None => Err(bad),
            },
        },
        Kind::Int { .. } => match parsed_i64(v) {
            Some(raw) => Ok(PlannedSpec::Number(raw)),
            None => Err(bad),
        },
    }
}

fn copy_bytes(b: &[u8]) -> (r: Vec<u8>)
    ensures
        r@ == b@,
{
    let mut r: Vec<u8> = Vec::new();
    let mut i: usize = 0;
    while i < b.len()
        invariant
            i <= b.len(),
            r@ == b@.subrange(0, i as int),
        decreases b.len() - i,
    {
        r.push(b[i]);
        i = i + 1;
        proof {
            assert(r@ =~= b@.subrange(0, i as int));
        }
    }
    proof {
        assert(b@.subrange(0, b@.len() as int) =~= b@);
    }
    r
}

fn is_word(v: &Vec<char>, w: &str) -> (r: bool)
    ensures
        r == (v@ == w@),
{
    let c = chars_of(w);
    seq_eq(v, &c)
}

fn single_payload(raw: i64, len: usize) -> (r: Planned)
    requires
        len <= 8,
    ensures
        planned_view(r) == PlannedSpec::Payloads(seq![le_bytes(as_u64(raw as int), len as nat)]),
{
    let mut ps: Vec<Vec<u8>> = Vec::new();
    ps.push(encode(raw, len));
    proof {
        assert(ps@.map_values(|v: Vec<u8>| v@) =~= seq![le_bytes(as_u64(raw as int), len as nat)]);
    }
    Planned::Payloads(ps)
}

/// Parse the human-facing form of a value for `ctrl` into what to send.
pub fn parse_write(ctrl: &Control, value: &str) -> (r: Result<Planned, String>)
    requires
        ctrl.len <= 8,
    ensures
        match r {
            Ok(p) => write_plan(*ctrl, value@) == Ok::<PlannedSpec, Seq<char>>(planned_view(p)),
            Err(e) => write_plan(*ctrl, value@) == Err::<PlannedSpec, Seq<char>>(e@),
        },
{
    let t = trim(value);
    let low = to_lowercase(t.as_str());
    plan_write(ctrl, value, low.as_str())
}

/// What writing `value` to `ctrl` amounts to, read from `low`: the value
/// trimmed and lower-cased.
pub fn plan_write(ctrl: &Control, value: &str, low: &str) -> (r: Result<Planned, String>)
    requires
        ctrl.len <= 8,
    ensures
        match r {
            Ok(p) => write_plan_lowered(*ctrl, value@, low@) == Ok::<PlannedSpec, Seq<char>>(planned_view(p)),
            Err(e) => write_plan_lowered(*ctrl, value@, low@) == Err::<PlannedSpec, Seq<char>>(e@),
        },
{
    let v = chars_of(low);
    match &ctrl.kind {
        Kind::Razer(opts) => {
            let mut i: usize = 0;
            proof {
                assert(opts@.subrange(0, opts@.len() as int) =~= opts@);
            }
            while i < opts.len()
                invariant
                    i <= opts.len(),
                    ctrl.kind == Kind::Razer(*opts),
                    ctrl.len <= 8,
                    v@ == low@,
                    opt_named(opts@, v@) == opt_named(opts@.subrange(i as int, opts@.len() as int), v@),
                decreases opts.len() - i,
            {
                proof {
                    let rest = opts@.subrange(i as int, opts@.len() as int);
                    assert(rest.drop_first() =~= opts@.subrange(i + 1, opts@.len() as int));
                    assert(rest[0] == opts@[i as int]);
                }
                let o = &opts[i];
                let name = chars_of(o.name);
                if seq_eq(&name, &v) {
                    let mut ps: Vec<Vec<u8>> = Vec::new();
                    match o.pre {
                        Some(p) => {
                            ps.push(copy_bytes(p));
                        },
                        None => {},
                    }
                    ps.push(copy_bytes(o.payload));
                    proof {
                        assert(ps@.map_values(|v: Vec<u8>| v@) =~= opt_payloads(*o));
                    }
                    return Ok(Planned::Payloads(ps));
                }
                i = i + 1;
            }
            Err(bad_value(ctrl, value))
        },
        Kind::Bool => {
            if is_word(&v, "on") || is_word(&v, "true") || is_word(&v, "1") || is_word(&v, "yes") {
                Ok(single_payload(1, ctrl.len))
            } else if is_word(&v, "off") || is_word(&v, "false") || is_word(&v, "0") || is_word(&v, "no") {
                Ok(single_payload(0, ctrl.len))
            } else {
                Err(bad_value(ctrl, value))
            }
        },
        Kind::Menu(m) => {
            let mut i: usize = 0;
            proof {
                assert(m@.subrange(0, m@.len() as int) =~= m@);
            }
            while i < m.len()
                invariant
                    i <= m.len(),
                    ctrl.kind == Kind::Menu(*m),
                    ctrl.len <= 8,
                    v@ == low@,
                    menu_value(m@, v@) == menu_value(m@.subrange(i as int, m@.len() as int), v@),
                decreases m.len() - i,
            {
                proof {
                    let rest = m@.subrange(i as int, m@.len() as int);
                    assert(rest.drop_first() =~= m@.subrange(i + 1, m@.len() as int));
                    assert(rest[0] == m@[i as int]);
                }
                let name = chars_of(m[i].0);
                if seq_eq(&name, &v) {
                    return Ok(single_payload(m[i].1, ctrl.len));
                }
                i = i + 1;
            }
            match parse_i64_chars(&v) {
                Some(raw) => Ok(single_payload(raw, ctrl.len)),
                None => Err(bad_value(ctrl, value)),
            }
        },
        Kind::Int { .. } => match parse_i64_chars(&v) {
            Some(raw) => Ok(Planned::Number(raw)),
            None => Err(bad_value(ctrl, value)),
        },
    }
}

/// The message for a number outside a control's range.
pub open spec fn range_text(c: Control, lo: int, hi: int) -> Seq<char> {
    c.name@ + " must be between "@ + int_digits(lo) + " and "@ + int_digits(hi)
}

/// The SET_CUR payload for a number, refused when the camera reported a range
/// it falls outside of (rather than letting the camera stall on it).
pub fn number_payload(ctrl: &Control, raw: i64, range: Option<(i64, i64)>) -> (r: Result<Vec<u8>, String>)
    requires
        ctrl.len <= 8,
    ensures
        match range {
            Some((lo, hi)) if raw < lo || raw > hi => r matches Err(e) && e@ == range_text(*ctrl, lo as int, hi as int),
            _ => r matches Ok(p) && p@ == le_bytes(as_u64(raw as int), ctrl.len as nat),
        },
{
    if let Some((lo, hi)) = range {
        if raw < lo || raw > hi {
            let mut e = String::from_str(ctrl.name);
            append_str(&mut e, " must be between ");
            append_int(&mut e, lo);
            append_str(&mut e, " and ");
            append_int(&mut e, hi);
            return Err(e);
        }
    }
    Ok(encode(raw, ctrl.len))
}

} // verus!
