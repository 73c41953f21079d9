//! The registry of cameras kiyoctl knows vendor-specific facts about.
//!
//! Adding a camera: copy `razer_kiyo_pro.rs`, change the ids, GUIDs and
//! payloads, and add one entry to `models`. Do not guess payload bytes.

pub mod razer_kiyo_pro;

use vstd::prelude::*;
use crate::controls::{standard_spec, Control};
use crate::usb::Unit;
use crate::text::opt_deref;

verus! {

pub struct Model {
    /// Shown in the TUI header, in `list`, and as a `controls` heading.
    pub name: &'static str,
    /// The vid:pid pairs this Model covers. This is the only thing matching
    /// looks at: extension-unit GUIDs collide across vendors.
    pub usb_ids: &'static [(u16, u16)],
    /// Controls this camera adds on top of the standard UVC catalogue.
    pub controls: &'static [Control],
    /// Unit, selector and payload that tell the camera to keep its extension
    /// unit state across a power cycle.
    pub persist: Option<(Unit, u8, &'static [u8])>,
}

pub open spec fn models_spec() -> Seq<Model> {
    seq![razer_kiyo_pro::model_spec()]
}

pub open spec fn deref_models(v: Seq<&'static Model>) -> Seq<Model> {
    v.map_values(|m: &'static Model| *m)
}

/// Every registered Model.
pub fn models() -> (r: Vec<&'static Model>)
    ensures
        deref_models(r@) == models_spec(),
{
    let r = vec![razer_kiyo_pro::model()];
    proof {
        assert(deref_models(r@) =~= models_spec());
    }
    r
}

/// The first Model among `ms` listing (vid, pid).
pub open spec fn first_claiming(ms: Seq<Model>, vid: u16, pid: u16) -> Option<Model>
    decreases ms.len(),
{
    if ms.len() == 0 {
        None
    } else if ms[0].usb_ids@.contains((vid, pid)) {
        Some(ms[0])
    } else {
        first_claiming(ms.drop_first(), vid, pid)
    }
}

fn lists(ids: &'static [(u16, u16)], vid: u16, pid: u16) -> (r: bool)
    ensures
        r == ids@.contains((vid, pid)),
{
    let mut i: usize = 0;
    while i < ids.len()
        invariant
            i <= ids.len(),
            forall|j: int| 0 <= j < i ==> ids@[j] != (vid, pid),
        decreases ids.len() - i,
    {
        if ids[i].0 == vid && ids[i].1 == pid {
            proof {
                assert(ids@[i as int] == (vid, pid));
            }
            return true;
        }
        i = i + 1;
    }
    false
}

/// The Model covering this camera, if any: exact vid:pid match.
pub fn for_camera(vid: u16, pid: u16) -> (r: Option<&'static Model>)
    ensures
        opt_deref(r) == first_claiming(models_spec(), vid, pid),
{
    let ms = models();
    let mut i: usize = 0;
    proof {
        assert(deref_models(ms@).subrange(0, ms@.len() as int) =~= deref_models(ms@));
    }
    while i < ms.len()
        invariant
            i <= ms.len(),
            deref_models(ms@) == models_spec(),
            first_claiming(models_spec(), vid, pid) == first_claiming(
                deref_models(ms@).subrange(i as int, ms@.len() as int),
                vid,
                pid,
            ),
        decreases ms.len() - i,
    {
        let ghost rest = deref_models(ms@).subrange(i as int, ms@.len() as int);
        proof {
            assert(rest.drop_first() =~= deref_models(ms@).subrange(i + 1, ms@.len() as int));
            assert(rest[0] == *ms@[i as int]);
        }
        let m: &'static Model = ms[i];
        if lists(m.usb_ids, vid, pid) {
            return Some(m);
        }
        i = i + 1;
    }
    None
}

/// The registry is consistent: every Model claims at least one vid:pid, no
/// vid:pid is claimed by two Models, every Model control lives on an
/// extension unit, and no Model repeats a control name or reuses a standard
/// one.
pub open spec fn registry_sound(ms: Seq<Model>) -> bool {
    &&& forall|i: int| 0 <= i < ms.len() ==> #[trigger] ms[i].usb_ids@.len() > 0
    &&& forall|i: int, j: int, id: (u16, u16)|
        0 <= i < ms.len() && 0 <= j < ms.len() && i != j && #[trigger] ms[i].usb_ids@.contains(id)
            ==> !#[trigger] ms[j].usb_ids@.contains(id)
    &&& forall|i: int, k: int| 0 <= i < ms.len() && 0 <= k < ms[i].controls@.len()
        ==> #[trigger] ms[i].controls@[k].unit is Extension
    &&& forall|i: int, a: int, b: int|
        0 <= i < ms.len() && 0 <= a < ms[i].controls@.len() && 0 <= b < ms[i].controls@.len() && a != b
            ==> #[trigger] ms[i].controls@[a].name@ != #[trigger] ms[i].controls@[b].name@
    &&& forall|i: int, k: int, t: int| 0 <= i < ms.len() && 0 <= k < ms[i].controls@.len() && 0 <= t < standard_spec().len()
        ==> #[trigger] ms[i].controls@[k].name@ != #[trigger] standard_spec()[t].name@
}

/// In a consistent registry, the Model a camera gets is the one Model that
/// claims its vid:pid, and none when no Model does; neither extension-unit
/// GUIDs nor the registry's order play a part.
pub proof fn lemma_claiming_is_exact(ms: Seq<Model>, vid: u16, pid: u16)
    requires
        registry_sound(ms),
    ensures
        forall|i: int| 0 <= i < ms.len() && #[trigger] ms[i].usb_ids@.contains((vid, pid))
            ==> first_claiming(ms, vid, pid) == Some(ms[i]),
        first_claiming(ms, vid, pid) is None <==> forall|i: int| 0 <= i < ms.len() ==> !#[trigger] ms[i].usb_ids@.contains((vid, pid)),
    decreases ms.len(),
{
    if ms.len() > 0 {
        let rest = ms.drop_first();
        assert forall|i: int| 0 <= i < rest.len() implies #[trigger] rest[i].usb_ids@.len() > 0 by {
            assert(rest[i] == ms[i + 1]);
        }
        assert forall|i: int, j: int, id: (u16, u16)|
            0 <= i < rest.len() && 0 <= j < rest.len() && i != j && #[trigger] rest[i].usb_ids@.contains(id)
            implies !#[trigger] rest[j].usb_ids@.contains(id) by {
            assert(rest[i] == ms[i + 1] && rest[j] == ms[j + 1]);
        }
        assert forall|i: int, k: int| 0 <= i < rest.len() && 0 <= k < rest[i].controls@.len()
            implies #[trigger] rest[i].controls@[k].unit is Extension by {
            assert(rest[i] == ms[i + 1]);
        }
        assert forall|i: int, a: int, b: int|
            0 <= i < rest.len() && 0 <= a < rest[i].controls@.len() && 0 <= b < rest[i].controls@.len() && a != b
            implies #[trigger] rest[i].controls@[a].name@ != #[trigger] rest[i].controls@[b].name@ by {
            assert(rest[i] == ms[i + 1]);
        }
        assert forall|i: int, k: int, t: int| 0 <= i < rest.len() && 0 <= k < rest[i].controls@.len() && 0 <= t < standard_spec().len()
            implies #[trigger] rest[i].controls@[k].name@ != #[trigger] standard_spec()[t].name@ by {
            assert(rest[i] == ms[i + 1]);
        }
        lemma_claiming_is_exact(rest, vid, pid);
        assert forall|i: int| 0 <= i < ms.len() && #[trigger] ms[i].usb_ids@.contains((vid, pid))
            implies first_claiming(ms, vid, pid) == Some(ms[i]) by {
            if i > 0 {
                assert(rest[i - 1] == ms[i]);
                assert(!ms[0].usb_ids@.contains((vid, pid)));
            }
        }
        if first_claiming(ms, vid, pid) is None {
            assert forall|i: int| 0 <= i < ms.len() implies !#[trigger] ms[i].usb_ids@.contains((vid, pid)) by {
                if i > 0 {
                    assert(rest[i - 1] == ms[i]);
                }
            }
        }
    }
}

/// The registry as shipped is consistent.
pub proof fn lemma_registry_sound()
    ensures
        registry_sound(models_spec()),
{
    reveal_strlit("brightness");
    reveal_strlit("contrast");
    reveal_strlit("saturation");
    reveal_strlit("sharpness");
    reveal_strlit("gamma");
    reveal_strlit("gain");
    reveal_strlit("hue");
    reveal_strlit("backlight_compensation");
    reveal_strlit("power_line_frequency");
    reveal_strlit("white_balance_auto");
    reveal_strlit("white_balance");
    reveal_strlit("auto_exposure");
    reveal_strlit("exposure_time");
    reveal_strlit("focus_auto");
    reveal_strlit("focus");
    reveal_strlit("zoom");
    reveal_strlit("hdr");
    reveal_strlit("hdr_mode");
    reveal_strlit("fov");
    reveal_strlit("af_mode");
    let ms = models_spec();
    let m = razer_kiyo_pro::model_spec();
    let cs = m.controls@;
    let st = standard_spec();
    assert(ms.len() == 1 && ms[0] == m);
    assert(m.usb_ids@.len() == 1);
    assert(cs.len() == 4);
    assert(st.len() == 16);
    assert(cs[0].name@ == "hdr"@ && cs[1].name@ == "hdr_mode"@ && cs[2].name@ == "fov"@ && cs[3].name@ == "af_mode"@);
    assert(cs[0].unit is Extension && cs[1].unit is Extension && cs[2].unit is Extension && cs[3].unit is Extension);
    assert(st[0].name@ == "brightness"@);
    assert(st[1].name@ == "contrast"@);
    assert(st[2].name@ == "saturation"@);
    assert(st[3].name@ == "sharpness"@);
    assert(st[4].name@ == "gamma"@);
    assert(st[5].name@ == "gain"@);
    assert(st[6].name@ == "hue"@);
    assert(st[7].name@ == "backlight_compensation"@);
    assert(st[8].name@ == "power_line_frequency"@);
    assert(st[9].name@ == "white_balance_auto"@);
    assert(st[10].name@ == "white_balance"@);
    assert(st[11].name@ == "auto_exposure"@);
    assert(st[12].name@ == "exposure_time"@);
    assert(st[13].name@ == "focus_auto"@);
    assert(st[14].name@ == "focus"@);
    assert(st[15].name@ == "zoom"@);
    let cl = seq![3int, 8, 3, 7];
    let sl = seq![10int, 8, 10, 9, 5, 4, 3, 22, 20, 18, 13, 13, 13, 10, 5, 4];
    assert forall|k: int| 0 <= k < 4 implies #[trigger] cs[k].name@.len() == cl[k] by {}
    assert forall|t: int| 0 <= t < 16 implies #[trigger] st[t].name@.len() == sl[t] by {}
    // Names of equal length are told apart by one of their first two letters.
    assert forall|k: int, t: int| 0 <= k < 4 && 0 <= t < 16 implies #[trigger] cs[k].name@ != #[trigger] st[t].name@ by {
        if cs[k].name@.len() == st[t].name@.len() {
            assert(cl[k] == sl[t]);
            assert(((k == 0 || k == 2) && t == 6) || (k == 1 && t == 1));
            assert(cs[k].name@[0] != st[t].name@[0] || cs[k].name@[1] != st[t].name@[1]);
        }
    }
    assert forall|a: int, b: int| 0 <= a < 4 && 0 <= b < 4 && a != b implies #[trigger] cs[a].name@ != #[trigger] cs[b].name@ by {
        if cs[a].name@.len() == cs[b].name@.len() {
            assert((a == 0 && b == 2) || (a == 2 && b == 0));
            assert(cs[a].name@[0] != cs[b].name@[0]);
        }
    }
    assert forall|i: int, j: int, id: (u16, u16)|
        0 <= i < ms.len() && 0 <= j < ms.len() && i != j && #[trigger] ms[i].usb_ids@.contains(id)
            implies !#[trigger] ms[j].usb_ids@.contains(id) by {}
}

} // verus!
