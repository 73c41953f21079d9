//! Saved settings: a flat map of standard control values that applies to any
//! camera, plus a section of Model control values per camera.
//!
//! Reading and writing the JSON files happens outside this crate; everything
//! here works on the values they hold.

use vstd::prelude::*;
use crate::controls::{
    every_spec, find, first_named, is_model_control, is_model_control_spec, is_opaque, Control, Kind,
    Reading,
};
use crate::models::{first_claiming, for_camera, models_spec, Model};
use crate::table::{as_map, keys_sorted, lemma_as_map, Dup, Table};
use crate::text::{
    append_hex, append_str, chars_of, fmt_int, hex_padded, hex_val, int_digits,
    lemma_hex_padded_value, lemma_parsed_hex_padded, parse_hex_u16, parse_i64, parsed_hex_u16,
    parsed_i64, str_eq, join, joined, opt_deref, strs_contain, strs_vec, strs_view, join_path,
    joined_path, trim, trimmed,
};
use crate::tui::str_views;
use crate::usb::{cam_controls, Cam, Unit};
use crate::controls::find_in;

verus! {

/// One stored control value, as the JSON holds it.
#[derive(Debug, PartialEq, Eq)]
pub enum Setting {
    /// A JSON string.
    Text(String),
    /// A JSON integer.
    Number(i64),
    /// Any other JSON value, in its serialised form.
    Other(String),
}

pub enum SettingView {
    Text(Seq<char>),
    Number(int),
    Other(Seq<char>),
}

impl View for Setting {
    type V = SettingView;

    open spec fn view(&self) -> SettingView {
        match self {
            Setting::Text(s) => SettingView::Text(s@),
            Setting::Number(n) => SettingView::Number(*n as int),
            Setting::Other(s) => SettingView::Other(s@),
        }
    }
}

impl Dup for Setting {
    fn dup(&self) -> (r: Self) {
        match self {
            Setting::Text(s) => Setting::Text(s.clone()),
            Setting::Number(n) => Setting::Number(*n),
            Setting::Other(s) => Setting::Other(s.clone()),
        }
    }
}

/// A stored value rendered the way the CLI accepts it.
pub open spec fn setting_text(v: SettingView) -> Seq<char> {
    match v {
        SettingView::Text(s) => s,
        SettingView::Number(n) => int_digits(n),
        SettingView::Other(s) => s,
    }
}

/// Render a stored value the way the CLI accepts it.
pub fn render(v: &Setting) -> (r: String)
    ensures
        r@ == setting_text(v@),
{
    match v {
        Setting::Text(s) => s.clone(),
        Setting::Number(n) => fmt_int(*n),
        Setting::Other(s) => s.clone(),
    }
}

pub struct Profile {
    /// The camera this profile was last captured from, as "vvvv:pppp".
    pub camera: Option<String>,
    pub name: Option<String>,
    /// Standard UVC control values. Portable to any camera.
    pub controls: Table<Setting>,
    /// Model control values, keyed by the camera they belong to. These cannot
    /// be read back from hardware, so they are never dropped.
    pub per_camera: Table<Table<Setting>>,
}

pub struct ProfileView {
    pub camera: Option<Seq<char>>,
    pub name: Option<Seq<char>>,
    pub controls: Map<Seq<char>, SettingView>,
    pub per_camera: Map<Seq<char>, Map<Seq<char>, SettingView>>,
}

pub open spec fn opt_str(o: Option<String>) -> Option<Seq<char>> {
    match o {
        Some(s) => Some(s@),
        None => None,
    }
}

impl View for Profile {
    type V = ProfileView;

    open spec fn view(&self) -> ProfileView {
        ProfileView {
            camera: opt_str(self.camera),
            name: opt_str(self.name),
            controls: self.controls@,
            per_camera: self.per_camera@,
        }
    }
}

impl Profile {
    /// An independent copy.
    pub fn dup(&self) -> (r: Profile)
        ensures
            r@ == self@,
            r.controls.pairs() == self.controls.pairs(),
    {
        Profile {
            camera: self.camera.clone(),
            name: self.name.clone(),
            controls: self.controls.dup_table(),
            per_camera: self.per_camera.dup_table(),
        }
    }
}

impl Default for Profile {
    fn default() -> (r: Self)
        ensures
            r@.camera is None,
            r@.name is None,
            r@.controls == Map::<Seq<char>, SettingView>::empty(),
            r@.per_camera == Map::<Seq<char>, Map<Seq<char>, SettingView>>::empty(),
    {
        Profile { camera: None, name: None, controls: Table::new(), per_camera: Table::new() }
    }
}

/// The section key for a camera: "vvvv:pppp" in lower-case hex.
pub open spec fn key_text(vid: u16, pid: u16) -> Seq<char> {
    hex_padded(vid as nat, 4) + seq![':'] + hex_padded(pid as nat, 4)
}

/// The index of the first `:` at or after `i`, if any.
pub open spec fn colon_from(s: Seq<char>, i: int) -> Option<int>
    decreases s.len() - i,
{
    if i >= s.len() {
        None
    } else if s[i] == ':' {
        Some(i)
    } else {
        colon_from(s, i + 1)
    }
}

/// The inverse of `key_text`: split at the first `:` and read both halves as
/// hexadecimal u16s.
pub open spec fn parsed_key(s: Seq<char>) -> Option<(u16, u16)> {
    match colon_from(s, 0) {
        Some(i) => match (parsed_hex_u16(s.subrange(0, i)), parsed_hex_u16(s.subrange(i + 1, s.len() as int))) {
            (Some(v), Some(p)) => Some((v as u16, p as u16)),
            _ => None,
        },
        None => None,
    }
}

fn sub_chars(s: &Vec<char>, a: usize, b: usize) -> (r: Vec<char>)
    requires
        a <= b <= s@.len(),
    ensures
        r@ == s@.subrange(a as int, b as int),
{
    let mut r: Vec<char> = Vec::new();
    let mut k = a;
    while k < b
        invariant
            a <= k <= b,
            b <= s@.len(),
            r@ == s@.subrange(a as int, k as int),
        decreases b - k,
    {
        r.push(s[k]);
        k = k + 1;
        proof {
            assert(r@ =~= s@.subrange(a as int, k as int));
        }
    }
    r
}

/// The inverse of `Profile::key`. Anything else recorded there is not a
/// camera this library can reason about.
pub fn parse_key(key: &str) -> (r: Option<(u16, u16)>)
    ensures
        r == parsed_key(key@),
{
    let s = chars_of(key);
    let mut i: usize = 0;
    while i < s.len() && s[i] != ':'
        invariant
            i <= s.len(),
            colon_from(s@, 0) == colon_from(s@, i as int),
        decreases s.len() - i,
    {
        i = i + 1;
    }
    if i == s.len() {
        return None;
    }
    let left = sub_chars(&s, 0, i);
    let right = sub_chars(&s, i + 1, s.len());
    match (parse_hex_u16(&left), parse_hex_u16(&right)) {
        (Some(v), Some(p)) => Some((v, p)),
        _ => None,
    }
}

/// The section of `per` kept under `key`, or an empty one.
pub open spec fn section_of(
    per: Map<Seq<char>, Map<Seq<char>, SettingView>>,
    key: Seq<char>,
) -> Map<Seq<char>, SettingView> {
    if per.contains_key(key) {
        per[key]
    } else {
        Map::empty()
    }
}

/// Every value that should be written to a camera: the portable ones, plus
/// its own section, which wins where both hold a name.
pub open spec fn values_for_spec(p: ProfileView, vid: u16, pid: u16) -> Map<Seq<char>, SettingView> {
    p.controls.union_prefer_right(section_of(p.per_camera, key_text(vid, pid)))
}

/// The Model of the camera a profile records, when the record names one.
pub open spec fn recorded_model(camera: Option<Seq<char>>) -> Option<Model> {
    match camera {
        Some(c) => match parsed_key(c) {
            Some((v, p)) => first_claiming(models_spec(), v, p),
            None => None,
        },
        None => None,
    }
}

pub open spec fn declares(m: Model, name: Seq<char>) -> bool {
    first_named(m.controls@, name) is Some
}

/// The flat values that migration moves: those the recorded camera's own
/// Model declares.
pub open spec fn moving(p: ProfileView, m: Model) -> Set<Seq<char>> {
    p.controls.dom().filter(|k: Seq<char>| declares(m, k))
}

/// A profile after migration: every flat value the recorded camera's Model
/// declares moves into that camera's section, without overwriting a value
/// the section already holds. Anything else stays where it is.
pub open spec fn migrate_spec(p: ProfileView) -> ProfileView {
    match (p.camera, recorded_model(p.camera)) {
        (Some(c), Some(m)) => if moving(p, m).is_empty() {
            p
        } else {
            ProfileView {
                controls: p.controls.remove_keys(moving(p, m)),
                per_camera: p.per_camera.insert(
                    c,
                    p.controls.restrict(moving(p, m)).union_prefer_right(section_of(p.per_camera, c)),
                ),
                ..p
            }
        },
        _ => p,
    }
}

/// How a value is stored: a number for a numeric control when it parses as
/// one, text otherwise.
pub open spec fn stored_value(control: Seq<char>, value: Seq<char>) -> SettingView {
    match first_named(every_spec(), control) {
        Some(c) => if c.kind is Int {
            match parsed_i64(value) {
                Some(n) => SettingView::Number(n),
                None => SettingView::Text(value),
            }
        } else {
            SettingView::Text(value)
        },
        None => SettingView::Text(value),
    }
}

/// A profile after recording one value: a Model control goes into the section
/// of the camera the profile records, anything else into the flat map.
pub open spec fn set_spec(p: ProfileView, control: Seq<char>, value: Seq<char>) -> ProfileView {
    let v = stored_value(control, value);
    match p.camera {
        Some(c) if is_model_control_spec(control) => ProfileView {
            per_camera: p.per_camera.insert(c, section_of(p.per_camera, c).insert(control, v)),
            ..p
        },
        _ => ProfileView { controls: p.controls.insert(control, v), ..p },
    }
}

/// The stored value of a control, rendered: the flat map first, then the
/// section of the camera the profile records.
pub open spec fn get_spec(p: ProfileView, control: Seq<char>) -> Option<Seq<char>> {
    if p.controls.contains_key(control) {
        Some(setting_text(p.controls[control]))
    } else {
        match p.camera {
            Some(c) => if p.per_camera.contains_key(c) && p.per_camera[c].contains_key(control) {
                Some(setting_text(p.per_camera[c][control]))
            } else {
                None
            },
            None => None,
        }
    }
}

/// The recorded camera, when it is not the one named.
pub open spec fn foreign_spec(p: ProfileView, vid: u16, pid: u16) -> Option<Seq<char>> {
    match p.camera {
        Some(c) => if c != key_text(vid, pid) {
            Some(c)
        } else {
            None
        },
        None => None,
    }
}

fn stored(control: &str, value: &str) -> (r: Setting)
    ensures
        r@ == stored_value(control@, value@),
{
    match find(control) {
        Some(c) => match c.kind {
            Kind::Int { .. } => match parse_i64(value) {
                Some(n) => Setting::Number(n),
                None => Setting::Text(String::from_str(value)),
            },
            _ => Setting::Text(String::from_str(value)),
        },
        None => Setting::Text(String::from_str(value)),
    }
}

impl Profile {
    /// The section key for a camera.
    pub fn key(vid: u16, pid: u16) -> (r: String)
        ensures
            r@ == key_text(vid, pid),
    {
        let mut r = String::new();
        append_hex(&mut r, vid as u64, 4);
        r.push(':');
        append_hex(&mut r, pid as u64, 4);
        proof {
            assert(r@ =~= key_text(vid, pid));
        }
        r
    }

    /// Say which camera this profile is being edited against, so a Model
    /// control value reaches that camera's section.
    pub fn home_to(&mut self, cam: &Cam)
        ensures
            final(self)@ == (ProfileView {
                camera: Some(key_text(cam.vid, cam.pid)),
                name: Some(cam.name@),
                ..old(self)@
            }),
    {
        self.camera = Some(Profile::key(cam.vid, cam.pid));
        self.name = Some(cam.name.clone());
    }

    /// Move Model control values out of the flat map and into the section for
    /// the camera this profile records. Idempotent.
    ///
    /// A value only moves when the recorded camera's own Model declares it.
    /// Anything else stays flat, where it goes on applying to whatever camera
    /// declares it: these values cannot be read back from hardware, so none is
    /// relocated on a guess. A profile with no recorded camera keeps
    /// everything flat.
    pub fn migrate(&mut self)
        ensures
            final(self)@ == migrate_spec(old(self)@),
    {
        let camera = match &self.camera {
            Some(c) => c.clone(),
            None => return,
        };
        let model: &'static Model = match parse_key(camera.as_str()) {
            Some((vid, pid)) => match for_camera(vid, pid) {
                Some(m) => m,
                None => return,
            },
            None => return,
        };
        let ghost old_view = self@;
        let ghost m = *model;
        let ghost mv = moving(old_view, m);
        let keys = self.controls.keys();
        let mut names: Vec<String> = Vec::new();
        let mut i: usize = 0;
        while i < keys.len()
            invariant
                i <= keys.len(),
                m == *model,
                self@ == old_view,
                mv == moving(old_view, m),
                forall|j: int| 0 <= j < keys@.len() ==> old_view.controls.contains_key(#[trigger] keys@[j]@),
                forall|j: int| 0 <= j < names@.len() ==> mv.contains(#[trigger] names@[j]@),
                forall|j: int| 0 <= j < i && declares(m, #[trigger] keys@[j]@) ==> exists|t: int| 0 <= t < names@.len() && names@[t]@ == keys@[j]@,
            decreases keys.len() - i,
        {
            let ghost before = names@;
            if find_in(model.controls, keys[i].as_str()).is_some() {
                names.push(keys[i].clone());
                proof {
                    assert(names@[names@.len() - 1]@ == keys@[i as int]@);
                    assert(old_view.controls.contains_key(keys@[i as int]@));
                }
            }
            proof {
                assert forall|j: int| 0 <= j < i + 1 && declares(m, #[trigger] keys@[j]@) implies exists|t: int| 0 <= t < names@.len() && names@[t]@ == keys@[j]@ by {
                    if j == i {
                        assert(names@[names@.len() - 1]@ == keys@[j]@);
                    } else {
                        let t = choose|t: int| 0 <= t < before.len() && before[t]@ == keys@[j]@;
                        assert(names@[t] == before[t]);
                    }
                }
            }
            i = i + 1;
        }
        proof {
            assert forall|k: Seq<char>| mv.contains(k) implies exists|t: int| 0 <= t < names@.len() && names@[t]@ == k by {
                assert(old_view.controls.contains_key(k));
                let j = choose|j: int| 0 <= j < keys@.len() && keys@[j]@ == k;
                assert(declares(m, keys@[j]@));
            }
        }
        if names.len() == 0 {
            proof {
                if !mv.is_empty() {
                    let k = mv.choose();
                    assert(mv.contains(k));
                }
                assert(mv.is_empty());
            }
            return;
        }
        proof {
            assert(mv.contains(names@[0]@));
            assert(!mv.is_empty());
        }
        let ghost old_section = section_of(old_view.per_camera, camera@);
        let mut section = match self.per_camera.remove(camera.as_str()) {
            Some(sec) => sec,
            None => Table::new(),
        };
        let mut k: usize = 0;
        while k < names.len()
            invariant
                k <= names.len(),
                self@.camera == old_view.camera,
                self@.name == old_view.name,
                self@.per_camera == old_view.per_camera.remove(camera@),
                forall|q: Seq<char>| #[trigger] self@.controls.contains_key(q) <==> (old_view.controls.contains_key(q) && !(exists|t: int| 0 <= t < k && names@[t]@ == q)),
                forall|q: Seq<char>| #[trigger] self@.controls.contains_key(q) ==> self@.controls[q] == old_view.controls[q],
                forall|q: Seq<char>| #[trigger] section@.contains_key(q) <==> (old_section.contains_key(q) || (old_view.controls.contains_key(q) && exists|t: int| 0 <= t < k && names@[t]@ == q)),
                forall|q: Seq<char>| #[trigger] section@.contains_key(q) ==> section@[q] == (if old_section.contains_key(q) { old_section[q] } else { old_view.controls[q] }),
            decreases names.len() - k,
        {
            let name = &names[k];
            let ghost nm = name@;
            let ghost sec0 = section@;
            let ghost ctl0 = self@.controls;
            let ghost earlier = exists|t: int| 0 <= t < k && names@[t]@ == nm;
            match self.controls.remove(name.as_str()) {
                Some(v) => {
                    if !section.contains_key(name.as_str()) {
                        section.insert(name.clone(), v);
                    }
                },
                None => {},
            }
            proof {
                if old_section.contains_key(nm) {
                    assert(sec0.contains_key(nm));
                    assert(section@.contains_key(nm));
                } else if old_view.controls.contains_key(nm) {
                    if earlier {
                        assert(sec0.contains_key(nm));
                        assert(section@.contains_key(nm));
                    } else {
                        assert(ctl0.contains_key(nm));
                        assert(!sec0.contains_key(nm));
                        assert(section@.contains_key(nm));
                    }
                } else {
                    assert(!ctl0.contains_key(nm));
                    assert(!sec0.contains_key(nm));
                    assert(!section@.contains_key(nm));
                }
            }
            k = k + 1;
            proof {
                assert forall|q: Seq<char>| #[trigger] self@.controls.contains_key(q) <==> (old_view.controls.contains_key(q) && !(exists|t: int| 0 <= t < k && names@[t]@ == q)) by {
                    if q == nm {
                        assert(names@[k - 1]@ == q);
                    }
                    if exists|t: int| 0 <= t < k && names@[t]@ == q {
                        let t = choose|t: int| 0 <= t < k && names@[t]@ == q;
                        if t < k - 1 {
                        } else {
                            assert(q == nm);
                        }
                    }
                }
                assert forall|q: Seq<char>| #[trigger] section@.contains_key(q) <==> (old_section.contains_key(q) || (old_view.controls.contains_key(q) && exists|t: int| 0 <= t < k && names@[t]@ == q)) by {
                    if q == nm {
                        assert(names@[k - 1]@ == q);
                    }
                    if exists|t: int| 0 <= t < k && names@[t]@ == q {
                        let t = choose|t: int| 0 <= t < k && names@[t]@ == q;
                        if t < k - 1 {
                        } else {
                            assert(q == nm);
                        }
                    }
                }
            }
        }
        proof {
            assert(k == names@.len());
            assert(!self@.controls.contains_key(names@[0]@));
        }
        self.per_camera.insert(camera, section);
        proof {
            assert forall|q: Seq<char>| mv.contains(q) <==> (exists|t: int| 0 <= t < names@.len() && names@[t]@ == q) by {
                if exists|t: int| 0 <= t < names@.len() && names@[t]@ == q {
                    let t = choose|t: int| 0 <= t < names@.len() && names@[t]@ == q;
                    assert(mv.contains(names@[t]@));
                }
            }
            assert(k == names@.len());
            assert forall|q: Seq<char>| #[trigger] self@.controls.contains_key(q) <==> old_view.controls.remove_keys(mv).contains_key(q) by {
                if mv.contains(q) {
                    let t = choose|t: int| 0 <= t < names@.len() && names@[t]@ == q;
                    assert(0 <= t < k && names@[t]@ == q);
                    assert(!self@.controls.contains_key(q));
                } else {
                    assert(!(exists|t: int| 0 <= t < k && names@[t]@ == q));
                }
            }
            assert forall|q: Seq<char>| #[trigger] self@.controls.contains_key(q) implies self@.controls[q] == old_view.controls.remove_keys(mv)[q] by {
                assert(old_view.controls.remove_keys(mv).contains_key(q));
            }
            assert(self@.controls =~= old_view.controls.remove_keys(mv));
            assert(section@ =~= old_view.controls.restrict(mv).union_prefer_right(old_section));
            assert(self@.per_camera =~= old_view.per_camera.insert(
                camera@,
                old_view.controls.restrict(mv).union_prefer_right(old_section),
            ));
        }
    }

    /// Every value that should be written to the camera `vid:pid`.
    pub fn values_for(&self, vid: u16, pid: u16) -> (r: Table<Setting>)
        ensures
            r@ == values_for_spec(self@, vid, pid),
    {
        let mut out = self.controls.dup_table();
        let key = Profile::key(vid, pid);
        match self.per_camera.get(key.as_str()) {
            Some(section) => {
                let n = section.len();
                let mut i: usize = 0;
                proof {
                    assert(as_map(section.pairs().subrange(0, 0)) =~= Map::<Seq<char>, SettingView>::empty());
                    assert(out@ =~= self.controls@.union_prefer_right(as_map(section.pairs().subrange(0, 0))));
                }
                while i < n
                    invariant
                        i <= n,
                        n == section.pairs().len(),
                        out@ == self.controls@.union_prefer_right(as_map(section.pairs().subrange(0, i as int))),
                    decreases n - i,
                {
                    let (k, v) = section.entry_at(i);
                    out.insert(k.clone(), v.dup());
                    proof {
                        let pre = section.pairs().subrange(0, i + 1);
                        assert(pre.drop_last() =~= section.pairs().subrange(0, i as int));
                        assert(out@ =~= self.controls@.union_prefer_right(as_map(pre)));
                    }
                    i = i + 1;
                }
                proof {
                    assert(section.pairs().subrange(0, n as int) =~= section.pairs());
                }
            },
            None => {
                proof {
                    assert(out@ =~= values_for_spec(self@, vid, pid));
                }
            },
        }
        out
    }

    /// Record one control value, preserving natural JSON types. `camera`
    /// must be set first for a Model control to reach its section.
    pub fn set(&mut self, control: &str, value: &str)
        ensures
            final(self)@ == set_spec(old(self)@, control@, value@),
    {
        let v = stored(control, value);
        if is_model_control(control) {
            match &self.camera {
                Some(c) => {
                    let c = c.clone();
                    let mut section = match self.per_camera.remove(c.as_str()) {
                        Some(s) => s,
                        None => Table::new(),
                    };
                    section.insert(String::from_str(control), v);
                    self.per_camera.insert(c, section);
                    proof {
                        assert(self@.per_camera =~= set_spec(old(self)@, control@, value@).per_camera);
                    }
                    return;
                },
                None => {},
            }
        }
        self.controls.insert(String::from_str(control), v);
    }

    /// The stored value rendered the way the CLI accepts it. Searches the flat
    /// map, then the section of the camera this profile records.
    pub fn get(&self, control: &str) -> (r: Option<String>)
        ensures
            opt_str(r) == get_spec(self@, control@),
    {
        match self.controls.get(control) {
            Some(v) => Some(render(v)),
            None => match &self.camera {
                Some(c) => match self.per_camera.get(c.as_str()) {
                    Some(section) => match section.get(control) {
                        Some(v) => Some(render(v)),
                        None => None,
                    },
                    None => None,
                },
                None => None,
            },
        }
    }

    /// The camera this profile was captured from, when that is not the camera
    /// being applied to.
    pub fn foreign_to(&self, vid: u16, pid: u16) -> (r: Option<String>)
        ensures
            opt_str(r) == foreign_spec(self@, vid, pid),
    {
        match &self.camera {
            Some(c) => {
                let k = Profile::key(vid, pid);
                if str_eq(c.as_str(), k.as_str()) {
                    None
                } else {
                    Some(c.clone())
                }
            },
            None => None,
        }
    }
}

proof fn lemma_colon_at(s: Seq<char>, i: int, j: int)
    requires
        0 <= i <= j < s.len(),
        s[j] == ':',
        forall|t: int| i <= t < j ==> s[t] != ':',
    ensures
        colon_from(s, i) == Some(j),
    decreases j - i,
{
    if i < j {
        lemma_colon_at(s, i + 1, j);
    }
}

/// `Profile::key` and `parse_key` undo each other: the key written for a
/// camera reads back as that camera's ids.
pub proof fn lemma_key_round_trip(vid: u16, pid: u16)
    ensures
        parsed_key(key_text(vid, pid)) == Some((vid, pid)),
{
    let a = hex_padded(vid as nat, 4);
    let b = hex_padded(pid as nat, 4);
    let k = key_text(vid, pid);
    lemma_parsed_hex_padded(vid, 4);
    lemma_parsed_hex_padded(pid, 4);
    lemma_hex_padded_value(vid as nat, 4);
    assert(k[a.len() as int] == ':');
    assert forall|t: int| 0 <= t < a.len() implies k[t] != ':' by {
        assert(k[t] == a[t]);
        assert(hex_val(a[t]) >= 0);
    }
    lemma_colon_at(k, 0, a.len() as int);
    assert(k.subrange(0, a.len() as int) =~= a);
    assert(k.subrange(a.len() as int + 1, k.len() as int) =~= b);
}

/// Migrating a migrated profile changes nothing.
pub proof fn lemma_migrate_idempotent(p: ProfileView)
    ensures
        migrate_spec(migrate_spec(p)) == migrate_spec(p),
{
    match (p.camera, recorded_model(p.camera)) {
        (Some(c), Some(m)) => {
            if !moving(p, m).is_empty() {
                let q = migrate_spec(p);
                assert(moving(q, m) =~= Set::<Seq<char>>::empty());
            }
        },
        _ => {},
    }
}

/// Migration never changes what gets applied to the camera the profile
/// records: the moved values land in that camera's section, and a value the
/// section already held still wins over a flat copy.
pub proof fn lemma_migrate_keeps_applied_values(p: ProfileView, vid: u16, pid: u16)
    requires
        p.camera == Some(key_text(vid, pid)),
    ensures
        values_for_spec(migrate_spec(p), vid, pid) == values_for_spec(p, vid, pid),
{
    match recorded_model(p.camera) {
        Some(m) => {
            if !moving(p, m).is_empty() {
                assert(values_for_spec(migrate_spec(p), vid, pid) =~= values_for_spec(p, vid, pid));
            }
        },
        None => {},
    }
}

/// What `set` records is what `get` gives back, rendered the way the CLI
/// accepts it; the one exception is a Model control that still has an
/// unmigrated flat copy, which `get` finds first.
pub proof fn lemma_set_then_get(p: ProfileView, control: Seq<char>, value: Seq<char>)
    requires
        !(is_model_control_spec(control) && p.camera is Some && p.controls.contains_key(control)),
    ensures
        get_spec(set_spec(p, control, value), control) == Some(setting_text(stored_value(control, value))),
{
}

/// A value recorded while the profile is homed to a camera is applied to that
/// camera, unless it is a standard control whose name that camera's section
/// also holds.
pub proof fn lemma_set_then_apply(p: ProfileView, control: Seq<char>, value: Seq<char>, vid: u16, pid: u16)
    requires
        p.camera == Some(key_text(vid, pid)),
        is_model_control_spec(control) || !section_of(p.per_camera, key_text(vid, pid)).contains_key(control),
    ensures
        values_for_spec(set_spec(p, control, value), vid, pid).contains_key(control),
        values_for_spec(set_spec(p, control, value), vid, pid)[control] == stored_value(control, value),
{
}

/// Recording a Model control never reaches another camera: what gets applied
/// to any camera other than the recorded one is unchanged.
pub proof fn lemma_set_stays_home(p: ProfileView, control: Seq<char>, value: Seq<char>, vid: u16, pid: u16)
    requires
        is_model_control_spec(control),
        p.camera is Some,
        p.camera->0 != key_text(vid, pid),
    ensures
        values_for_spec(set_spec(p, control, value), vid, pid) == values_for_spec(p, vid, pid),
{
    assert(values_for_spec(set_spec(p, control, value), vid, pid) =~= values_for_spec(p, vid, pid));
}

/// A profile homed to a camera is never foreign to it.
pub proof fn lemma_homed_is_not_foreign(p: ProfileView, vid: u16, pid: u16, name: Seq<char>)
    ensures
        foreign_spec(ProfileView { camera: Some(key_text(vid, pid)), name: Some(name), ..p }, vid, pid) is None,
{
}

/// The writes a profile's values amount to on a camera carrying controls
/// `cs`: in key order, each value whose name the camera carries, rendered.
pub open spec fn candidates(pairs: Seq<(Seq<char>, SettingView)>, cs: Seq<Control>) -> Seq<(Control, Seq<char>)>
    decreases pairs.len(),
{
    if pairs.len() == 0 {
        seq![]
    } else {
        let rest = candidates(pairs.drop_last(), cs);
        match first_named(cs, pairs.last().0) {
            Some(c) => rest.push((c, setting_text(pairs.last().1))),
            None => rest,
        }
    }
}

/// The writes of `s` whose control has `order` `o`, in their order in `s`.
pub open spec fn with_order(s: Seq<(Control, Seq<char>)>, o: int) -> Seq<(Control, Seq<char>)>
    decreases s.len(),
{
    if s.len() == 0 {
        seq![]
    } else {
        let rest = with_order(s.drop_last(), o);
        if s.last().0.order == o {
            rest.push(s.last())
        } else {
            rest
        }
    }
}

/// The writes of `s` whose control has `order` `o` or more, grouped by order
/// ascending, keeping their relative order within a group.
pub open spec fn by_order_from(s: Seq<(Control, Seq<char>)>, o: int) -> Seq<(Control, Seq<char>)>
    decreases 256 - o,
{
    if o < 0 || o >= 256 {
        seq![]
    } else {
        with_order(s, o) + by_order_from(s, o + 1)
    }
}

/// `s` sorted by each control's `order`, stably: controls that gate others
/// come first.
pub open spec fn by_order(s: Seq<(Control, Seq<char>)>) -> Seq<(Control, Seq<char>)> {
    by_order_from(s, 0)
}

/// Values that cannot be written at all, with the reason: a name the library
/// knows but this camera lacks reads differently from one nobody has heard of.
pub open spec fn unavailable(pairs: Seq<(Seq<char>, SettingView)>, cs: Seq<Control>) -> Seq<(Seq<char>, Seq<char>)>
    decreases pairs.len(),
{
    if pairs.len() == 0 {
        seq![]
    } else {
        let rest = unavailable(pairs.drop_last(), cs);
        let name = pairs.last().0;
        match first_named(cs, name) {
            Some(_) => rest,
            None => rest.push(
                (name, if first_named(every_spec(), name) is Some {
                    "not available on this camera"@
                } else {
                    "unknown control"@
                }),
            ),
        }
    }
}

/// The control whose current value the camera must report before `c` is
/// written: its prerequisite, when the profile does not set that itself.
pub open spec fn dependency_spec(values: Map<Seq<char>, SettingView>, c: Control) -> Option<Control> {
    match c.requires {
        Some((dep, _)) => if values.contains_key(dep@) {
            None
        } else {
            first_named(every_spec(), dep@)
        },
        None => None,
    }
}

/// Whether `c` may be written, given the values being applied and what the
/// camera reports for its prerequisite (`now`): Ok, or the reason it is
/// skipped. A prerequisite nobody can tell the value of does not hold a write
/// back.
pub open spec fn gate_spec(values: Map<Seq<char>, SettingView>, c: Control, now: Option<Seq<char>>) -> Result<(), Seq<char>> {
    match c.requires {
        None => Ok(()),
        Some((dep, allowed)) => {
            let dv = if values.contains_key(dep@) {
                Some(setting_text(values[dep@]))
            } else if first_named(every_spec(), dep@) is Some {
                now
            } else {
                None
            };
            match dv {
                Some(v) => if strs_view(allowed@).contains(v) {
                    Ok(())
                } else {
                    Err("requires "@ + dep@ + "="@ + joined(strs_view(allowed@), " or "@) + ", but it is "@ + v)
                },
                None => Ok(()),
            }
        },
    }
}

pub open spec fn writes_view(p: Seq<(&'static Control, String)>) -> Seq<(Control, Seq<char>)> {
    p.map_values(|e: (&'static Control, String)| (*e.0, e.1@))
}

pub open spec fn pairs_view(p: Seq<(String, String)>) -> Seq<(Seq<char>, Seq<char>)> {
    p.map_values(|e: (String, String)| (e.0@, e.1@))
}

/// What applying a profile did: one line per write, and each value that was
/// not written with the reason.
pub struct ApplyReport {
    pub applied: Vec<String>,
    pub skipped: Vec<(String, String)>,
}

/// A profile being written to a camera, one planned write at a time. The
/// camera work (reading a prerequisite, writing, persisting) is done by the
/// caller between the steps.
pub struct Applying {
    /// Every value being applied.
    pub values: Table<Setting>,
    /// The writes, in the order they are made.
    pub planned: Vec<(&'static Control, String)>,
    /// The next planned write.
    pub next: usize,
    pub report: ApplyReport,
    /// An extension-unit control was written, so the camera should be asked
    /// to keep its state.
    pub touched_extension: bool,
}

fn order_pass(cands: &Vec<(&'static Control, String)>, o: u8, out: &mut Vec<(&'static Control, String)>)
    ensures
        writes_view(final(out)@) == writes_view(old(out)@) + with_order(writes_view(cands@), o as int),
{
    let ghost start = writes_view(out@);
    let mut i: usize = 0;
    while i < cands.len()
        invariant
            i <= cands@.len(),
            writes_view(out@) == start + with_order(writes_view(cands@).subrange(0, i as int), o as int),
        decreases cands.len() - i,
    {
        let ghost pre = writes_view(cands@).subrange(0, i + 1);
        proof {
            assert(pre.drop_last() =~= writes_view(cands@).subrange(0, i as int));
        }
        if cands[i].0.order == o {
            let ghost old_w = writes_view(out@);
            let item = (cands[i].0, cands[i].1.clone());
            out.push(item);
            proof {
                assert(pre.last() == (*cands@[i as int].0, cands@[i as int].1@));
                assert(writes_view(out@) =~= old_w.push((*cands@[i as int].0, cands@[i as int].1@)));
                assert(writes_view(out@) =~= start + with_order(pre, o as int));
            }
        }
        i = i + 1;
    }
    proof {
        assert(writes_view(cands@).subrange(0, cands@.len() as int) =~= writes_view(cands@));
    }
}

/// Plan writing `profile` to `cam`: every value it holds for this camera,
/// the writes ordered so that controls that gate others land first, and
/// each value the camera cannot take already reported as skipped.
pub fn apply(cam: &Cam, profile: &Profile) -> (r: Applying)
    ensures
        r.values@ == values_for_spec(profile@, cam.vid, cam.pid),
        keys_sorted(r.values.pairs()),
        writes_view(r.planned@) == by_order(candidates(r.values.pairs(), cam_controls(cam.model))),
        r.next == 0,
        r.report.applied@.len() == 0,
        pairs_view(r.report.skipped@) == unavailable(r.values.pairs(), cam_controls(cam.model)),
        !r.touched_extension,
{
    let values = profile.values_for(cam.vid, cam.pid);
    let n = values.len();
    let ghost cs = cam_controls(cam.model);
    let mut cands: Vec<(&'static Control, String)> = Vec::new();
    let mut skipped: Vec<(String, String)> = Vec::new();
    let mut i: usize = 0;
    while i < n
        invariant
            i <= n,
            n == values.pairs().len(),
            cs == cam_controls(cam.model),
            writes_view(cands@) == candidates(values.pairs().subrange(0, i as int), cs),
            pairs_view(skipped@) == unavailable(values.pairs().subrange(0, i as int), cs),
        decreases n - i,
    {
        let (k, v) = values.entry_at(i);
        let ghost pre = values.pairs().subrange(0, i + 1);
        proof {
            assert(pre.drop_last() =~= values.pairs().subrange(0, i as int));
            assert(pre.last() == values.pairs()[i as int]);
        }
        match cam.find(k.as_str()) {
            Some(c) => {
                cands.push((c, render(v)));
                proof {
                    assert(writes_view(cands@) =~= candidates(pre, cs));
                    assert(pairs_view(skipped@) =~= unavailable(pre, cs));
                }
            },
            None => {
                let why = if find(k.as_str()).is_some() {
                    String::from_str("not available on this camera")
                } else {
                    String::from_str("unknown control")
                };
                skipped.push((k.clone(), why));
                proof {
                    assert(writes_view(cands@) =~= candidates(pre, cs));
                    assert(pairs_view(skipped@) =~= unavailable(pre, cs));
                }
            },
        }
        i = i + 1;
    }
    proof {
        assert(values.pairs().subrange(0, n as int) =~= values.pairs());
    }
    let mut planned: Vec<(&'static Control, String)> = Vec::new();
    let mut o: u16 = 0;
    proof {
        assert(writes_view(planned@) =~= Seq::<(Control, Seq<char>)>::empty());
    }
    while o < 256
        invariant
            o <= 256,
            writes_view(cands@) == candidates(values.pairs(), cs),
            by_order(writes_view(cands@)) == writes_view(planned@) + by_order_from(writes_view(cands@), o as int),
        decreases 256 - o,
    {
        let ghost before = writes_view(planned@);
        order_pass(&cands, o as u8, &mut planned);
        proof {
            let c = writes_view(cands@);
            assert(by_order_from(c, o as int) == with_order(c, o as int) + by_order_from(c, o + 1));
            assert(writes_view(planned@) + by_order_from(c, o + 1) =~= before + by_order_from(c, o as int));
        }
        o = o + 1;
    }
    proof {
        assert(by_order_from(writes_view(cands@), 256) =~= Seq::<(Control, Seq<char>)>::empty());
        assert(writes_view(planned@) + by_order_from(writes_view(cands@), 256) =~= writes_view(planned@));
    }
    Applying {
        values,
        planned,
        next: 0,
        report: ApplyReport { applied: Vec::new(), skipped },
        touched_extension: false,
    }
}

/// How many lines a run has reported so far, writes made and values skipped
/// alike.
pub open spec fn reported(a: Applying) -> nat {
    a.report.applied@.len() + a.report.skipped@.len()
}

/// What [`Applying::gate`] does to a run, counted: it moves to the next
/// planned write and, unless the write goes `ahead`, reports that write's
/// control as skipped.
pub open spec fn gate_step(a: Applying, b: Applying, ahead: bool) -> bool {
    &&& a.next < a.planned@.len()
    &&& b.next == a.next + 1
    &&& b.planned@ == a.planned@
    &&& b.values.pairs() == a.values.pairs()
    &&& b.report.applied@.len() == a.report.applied@.len()
    &&& if ahead {
        b.report.skipped@.len() == a.report.skipped@.len()
    } else {
        &&& b.report.skipped@.len() == a.report.skipped@.len() + 1
        &&& b.report.skipped@.last().0@ == a.planned@[a.next as int].0.name@
    }
}

/// What [`Applying::record`] does to a run, counted: one more line, about
/// `ctrl`, either among the writes made or among the values skipped.
pub open spec fn record_step(a: Applying, b: Applying, ctrl: Control) -> bool {
    &&& b.next == a.next
    &&& b.planned@ == a.planned@
    &&& b.values.pairs() == a.values.pairs()
    &&& reported(b) == reported(a) + 1
}

/// One step of a run: `gate`, then, when the write goes ahead, `record` of
/// how it went.
pub open spec fn run_step(a: Applying, b: Applying) -> bool {
    ||| gate_step(a, b, false)
    ||| exists|m: Applying| #[trigger] gate_step(a, m, true) && record_step(m, b, *a.planned@[a.next as int].0)
}

impl Applying {
    /// Every planned write has been dealt with.
    pub fn done(&self) -> (r: bool)
        ensures
            r == (self.next >= self.planned@.len()),
    {
        self.next >= self.planned.len()
    }

    /// The control the camera must report the value of before the next
    /// planned write, if any.
    pub fn dependency_to_read(&self) -> (r: Option<&'static Control>)
        requires
            self.next < self.planned@.len(),
        ensures
            opt_deref(r) == dependency_spec(self.values@, *self.planned@[self.next as int].0),
    {
        let ctrl = self.planned[self.next].0;
        match ctrl.requires {
            Some((dep, _)) => {
                if self.values.contains_key(dep) {
                    None
                } else {
                    find(dep)
                }
            },
            None => None,
        }
    }

    /// Take the next planned write: the control and the value to write, or
    /// None when its prerequisite does not hold, in which case it is
    /// reported as skipped. `now` is what the camera reports for the control
    /// `dependency_to_read` named.
    pub fn gate(&mut self, now: Option<String>) -> (r: Option<(&'static Control, String)>)
        requires
            old(self).next < old(self).planned@.len(),
        ensures
            final(self).next == old(self).next + 1,
            final(self).values@ == old(self).values@,
            final(self).values.pairs() == old(self).values.pairs(),
            final(self).planned@ == old(self).planned@,
            final(self).report.applied@ == old(self).report.applied@,
            final(self).touched_extension == old(self).touched_extension,
            gate_step(*old(self), *final(self), r is Some),
            match gate_spec(old(self).values@, *old(self).planned@[old(self).next as int].0, opt_str(now)) {
                Ok(()) => r matches Some((c, v)) && *c == *old(self).planned@[old(self).next as int].0
                    && v@ == old(self).planned@[old(self).next as int].1@
                    && final(self).report.skipped@ == old(self).report.skipped@,
                Err(why) => r is None && pairs_view(final(self).report.skipped@) == pairs_view(
                    old(self).report.skipped@,
                ).push((old(self).planned@[old(self).next as int].0.name@, why)),
            },
    {
        let i = self.next;
        let n = self.planned.len();
        proof {
            assert(i < n);
        }
        self.next = i + 1;
        let ctrl = self.planned[i].0;
        let value = self.planned[i].1.clone();
        let (dep, allowed) = match ctrl.requires {
            Some(p) => p,
            None => return Some((ctrl, value)),
        };
        let dv: Option<String> = match self.values.get(dep) {
            Some(v) => Some(render(v)),
            None => match find(dep) {
                Some(_) => now,
                None => None,
            },
        };
        match dv {
            Some(v) => {
                if strs_contain(allowed, v.as_str()) {
                    Some((ctrl, value))
                } else {
                    let parts = strs_vec(allowed);
                    let alts = join(&parts, " or ");
                    proof {
                        assert(parts@.map_values(|p: &str| p@) =~= strs_view(allowed@));
                    }
                    let mut why = String::from_str("requires ");
                    append_str(&mut why, dep);
                    append_str(&mut why, "=");
                    append_str(&mut why, alts.as_str());
                    append_str(&mut why, ", but it is ");
                    append_str(&mut why, v.as_str());
                    self.report.skipped.push((String::from_str(ctrl.name), why));
                    proof {
                        assert(pairs_view(self.report.skipped@) =~= pairs_view(old(self).report.skipped@).push(
                            (ctrl.name@, gate_spec(old(self).values@, *ctrl, opt_str(now))->Err_0),
                        ));
                    }
                    None
                }
            },
            None => Some((ctrl, value)),
        }
    }

    /// Record how writing `value` to `ctrl` went.
    pub fn record(&mut self, ctrl: &'static Control, value: &str, outcome: Result<(), String>)
        ensures
            final(self).next == old(self).next,
            final(self).values@ == old(self).values@,
            final(self).values.pairs() == old(self).values.pairs(),
            final(self).planned@ == old(self).planned@,
            record_step(*old(self), *final(self), *ctrl),
            match outcome {
                Ok(()) => {
                    &&& str_views(final(self).report.applied@) == str_views(old(self).report.applied@).push(
                        ctrl.name@ + " = "@ + value@,
                    )
                    &&& final(self).report.skipped@ == old(self).report.skipped@
                    &&& final(self).touched_extension == (old(self).touched_extension || ctrl.unit is Extension)
                },
                Err(e) => {
                    &&& final(self).report.applied@ == old(self).report.applied@
                    &&& pairs_view(final(self).report.skipped@) == pairs_view(old(self).report.skipped@).push(
                        (ctrl.name@, e@),
                    )
                    &&& final(self).touched_extension == old(self).touched_extension
                },
            },
    {
        match outcome {
            Ok(()) => {
                let mut line = String::from_str(ctrl.name);
                append_str(&mut line, " = ");
                append_str(&mut line, value);
                self.report.applied.push(line);
                proof {
                    assert(str_views(self.report.applied@) =~= str_views(old(self).report.applied@).push(
                        ctrl.name@ + " = "@ + value@,
                    ));
                }
                match ctrl.unit {
                    Unit::Extension(_) => {
                        self.touched_extension = true;
                    },
                    _ => {},
                }
            },
            Err(e) => {
                self.report.skipped.push((String::from_str(ctrl.name), e));
                proof {
                    assert(pairs_view(self.report.skipped@) =~= pairs_view(old(self).report.skipped@).push(
                        (ctrl.name@, e@),
                    ));
                }
            },
        }
    }

    /// The report, and whether the camera should be asked to keep its
    /// extension-unit state.
    pub fn finish(self) -> (r: (ApplyReport, bool))
        ensures
            r.0 == self.report,
            r.1 == self.touched_extension,
    {
        (self.report, self.touched_extension)
    }
}

/// What a camera reading contributes to a capture: its value, and whether
/// the control can be written back.
pub open spec fn reading_view(r: Option<Reading>) -> Option<(Seq<char>, bool)> {
    match r {
        Some(x) => Some((x.value@, x.writable)),
        None => None,
    }
}

/// A profile after capturing: each control that is not write-only, read
/// successfully and writable, recorded in turn.
pub open spec fn captured_spec(p: ProfileView, cs: Seq<Control>, rs: Seq<Option<(Seq<char>, bool)>>) -> ProfileView
    decreases cs.len(),
{
    if cs.len() == 0 || rs.len() != cs.len() {
        p
    } else {
        let q = captured_spec(p, cs.drop_last(), rs.drop_last());
        let c = cs.last();
        match rs.last() {
            Some((v, true)) => if is_opaque(c.kind) {
                q
            } else {
                set_spec(q, c.name@, v)
            },
            _ => q,
        }
    }
}

/// The names a capture records, in order.
pub open spec fn captured_names(cs: Seq<Control>, rs: Seq<Option<(Seq<char>, bool)>>) -> Seq<Seq<char>>
    decreases cs.len(),
{
    if cs.len() == 0 || rs.len() != cs.len() {
        seq![]
    } else {
        let q = captured_names(cs.drop_last(), rs.drop_last());
        let c = cs.last();
        match rs.last() {
            Some((_, true)) => if is_opaque(c.kind) {
                q
            } else {
                q.push(c.name@)
            },
            _ => q,
        }
    }
}

/// `a` and `b` agree on `n`: both lack it, or both hold the same value.
pub open spec fn same_entry(a: Map<Seq<char>, SettingView>, b: Map<Seq<char>, SettingView>, n: Seq<char>) -> bool {
    &&& a.contains_key(n) == b.contains_key(n)
    &&& a.contains_key(n) ==> a[n] == b[n]
}

/// Capturing touches only what it reads. Every other camera's section is
/// left as it was, and so is every value whose name the capture did not
/// record; and it records only controls that can be read back, never a
/// write-only one, so what only kiyoctl knows survives a capture.
pub proof fn lemma_capture_touches_only_what_it_reads(
    p: ProfileView,
    key: Seq<char>,
    name: Seq<char>,
    cs: Seq<Control>,
    rs: Seq<Option<(Seq<char>, bool)>>,
)
    ensures
        ({
            let q = captured_spec(ProfileView { camera: Some(key), name: Some(name), ..p }, cs, rs);
            &&& q.camera == Some(key)
            &&& q.name == Some(name)
            &&& q.per_camera.remove(key) == p.per_camera.remove(key)
            &&& forall|n: Seq<char>| !captured_names(cs, rs).contains(n) ==> {
                &&& same_entry(q.controls, p.controls, n)
                &&& same_entry(section_of(q.per_camera, key), section_of(p.per_camera, key), n)
            }
            &&& forall|n: Seq<char>| captured_names(cs, rs).contains(n) ==> exists|i: int|
                0 <= i < cs.len() && #[trigger] cs[i].name@ == n && !is_opaque(cs[i].kind)
        }),
    decreases cs.len(),
{
    let h = ProfileView { camera: Some(key), name: Some(name), ..p };
    if cs.len() == 0 || rs.len() != cs.len() {
        assert(h.per_camera.remove(key) =~= p.per_camera.remove(key));
    } else {
        let cs0 = cs.drop_last();
        let rs0 = rs.drop_last();
        lemma_capture_touches_only_what_it_reads(p, key, name, cs0, rs0);
        let q0 = captured_spec(h, cs0, rs0);
        let names0 = captured_names(cs0, rs0);
        let c = cs.last();
        assert forall|n: Seq<char>| names0.contains(n) implies exists|i: int|
            0 <= i < cs.len() && #[trigger] cs[i].name@ == n && !is_opaque(cs[i].kind) by {
            let i = choose|i: int| 0 <= i < cs0.len() && #[trigger] cs0[i].name@ == n && !is_opaque(cs0[i].kind);
            assert(cs[i] == cs0[i]);
        }
        match rs.last() {
            Some((v, true)) => {
                if !is_opaque(c.kind) {
                    let q = set_spec(q0, c.name@, v);
                    assert(captured_spec(h, cs, rs) == q);
                    assert(captured_names(cs, rs) == names0.push(c.name@));
                    if is_model_control_spec(c.name@) {
                        assert(q.per_camera.remove(key) =~= q0.per_camera.remove(key));
                    } else {
                        assert(q.per_camera =~= q0.per_camera);
                    }
                    assert forall|n: Seq<char>| !captured_names(cs, rs).contains(n) implies {
                        &&& same_entry(q.controls, p.controls, n)
                        &&& same_entry(section_of(q.per_camera, key), section_of(p.per_camera, key), n)
                    } by {
                        if names0.contains(n) {
                            let j = choose|j: int| 0 <= j < names0.len() && names0[j] == n;
                            assert(names0.push(c.name@)[j] == n);
                        }
                        assert(n != c.name@) by {
                            assert(names0.push(c.name@)[names0.len() as int] == c.name@);
                        }
                    }
                    assert forall|n: Seq<char>| captured_names(cs, rs).contains(n) implies exists|i: int|
                        0 <= i < cs.len() && #[trigger] cs[i].name@ == n && !is_opaque(cs[i].kind) by {
                        if n == c.name@ {
                            assert(cs[cs.len() - 1].name@ == n);
                        } else {
                            let j = choose|j: int| 0 <= j < names0.push(c.name@).len() && names0.push(c.name@)[j] == n;
                            assert(names0[j] == n);
                            assert(names0.contains(n));
                        }
                    }
                } else {
                    assert(captured_spec(h, cs, rs) == q0);
                    assert(captured_names(cs, rs) == names0);
                }
            },
            _ => {
                assert(captured_spec(h, cs, rs) == q0);
                assert(captured_names(cs, rs) == names0);
            },
        }
    }
}

/// Snapshot the camera's readable controls into `profile`, leaving write-only
/// values as they were (the camera cannot report those). `readings[i]` is
/// what reading `cam.controls()[i]` gave, None where it gave nothing. The
/// profile is homed to `cam` first, so Model controls land in its section.
/// Returns the names recorded, and the camera the profile was last captured
/// from when that is another camera, so the caller can warn that the
/// profile now names a different one (that camera's Model values stay in
/// its own section).
pub fn capture(cam: &Cam, profile: &mut Profile, readings: &Vec<Option<Reading>>) -> (r: (Vec<String>, Option<String>))
    requires
        readings@.len() == cam_controls(cam.model).len(),
    ensures
        final(profile)@ == captured_spec(
            ProfileView { camera: Some(key_text(cam.vid, cam.pid)), name: Some(cam.name@), ..old(profile)@ },
            cam_controls(cam.model),
            readings@.map_values(|x: Option<Reading>| reading_view(x)),
        ),
        str_views(r.0@) == captured_names(cam_controls(cam.model), readings@.map_values(|x: Option<Reading>| reading_view(x))),
        opt_str(r.1) == foreign_spec(old(profile)@, cam.vid, cam.pid),
{
    let previous = profile.foreign_to(cam.vid, cam.pid);
    profile.home_to(cam);
    let ghost start = profile@;
    let ghost rs = readings@.map_values(|x: Option<Reading>| reading_view(x));
    let cs = cam.controls();
    let ghost csv = cam_controls(cam.model);
    proof {
        assert(cs@.len() == csv.len());
    }
    let mut captured: Vec<String> = Vec::new();
    let mut i: usize = 0;
    while i < cs.len()
        invariant
            i <= cs@.len(),
            cs@.len() == csv.len(),
            readings@.len() == csv.len(),
            cs@.map_values(|c: &'static Control| *c) == csv,
            rs == readings@.map_values(|x: Option<Reading>| reading_view(x)),
            profile@ == captured_spec(start, csv.subrange(0, i as int), rs.subrange(0, i as int)),
            str_views(captured@) == captured_names(csv.subrange(0, i as int), rs.subrange(0, i as int)),
        decreases cs.len() - i,
    {
        let ghost c_pre = csv.subrange(0, i + 1);
        let ghost r_pre = rs.subrange(0, i + 1);
        proof {
            assert(c_pre.drop_last() =~= csv.subrange(0, i as int));
            assert(r_pre.drop_last() =~= rs.subrange(0, i as int));
            assert(c_pre.last() == *cs@[i as int]);
            assert(r_pre.last() == reading_view(readings@[i as int]));
        }
        let ctrl = cs[i];
        if !ctrl.is_razer() {
            match &readings[i] {
                Some(reading) => {
                    if reading.writable {
                        profile.set(ctrl.name, reading.value.as_str());
                        captured.push(String::from_str(ctrl.name));
                        proof {
                            assert(str_views(captured@) =~= captured_names(c_pre, r_pre));
                        }
                    }
                },
                None => {},
            }
        }
        i = i + 1;
    }
    proof {
        assert(csv.subrange(0, csv.len() as int) =~= csv);
        assert(rs.subrange(0, rs.len() as int) =~= rs);
    }
    (captured, previous)
}

proof fn lemma_with_order(s: Seq<(Control, Seq<char>)>, o: int)
    ensures
        forall|e: (Control, Seq<char>)| #[trigger] with_order(s, o).contains(e) <==> (s.contains(e) && e.0.order == o),
    decreases s.len(),
{
    if s.len() > 0 {
        let init = s.drop_last();
        lemma_with_order(init, o);
        assert forall|e: (Control, Seq<char>)| #[trigger] with_order(s, o).contains(e) <==> (s.contains(e) && e.0.order == o) by {
            if s.contains(e) && e != s.last() {
                let i = choose|i: int| 0 <= i < s.len() && s[i] == e;
                assert(i < s.len() - 1);
                assert(init[i] == e);
            }
            if init.contains(e) {
                let i = choose|i: int| 0 <= i < init.len() && init[i] == e;
                assert(s[i] == e);
            }
            if s.last().0.order == o {
                let w = with_order(init, o);
                if w.push(s.last()).contains(e) && e != s.last() {
                    let i = choose|i: int| 0 <= i < w.push(s.last()).len() && w.push(s.last())[i] == e;
                    assert(w[i] == e);
                }
                if e == s.last() {
                    assert(w.push(s.last())[w.len() as int] == e);
                }
                if w.contains(e) {
                    let i = choose|i: int| 0 <= i < w.len() && w[i] == e;
                    assert(w.push(s.last())[i] == e);
                }
            }
            if s.last() == e {
                assert(s[s.len() - 1] == e);
            }
        }
    }
}

proof fn lemma_by_order_from(s: Seq<(Control, Seq<char>)>, o: int)
    requires
        0 <= o <= 256,
    ensures
        forall|i: int| 0 <= i < by_order_from(s, o).len() ==> #[trigger] by_order_from(s, o)[i].0.order >= o,
        forall|i: int, j: int| 0 <= i < j < by_order_from(s, o).len()
            ==> #[trigger] by_order_from(s, o)[i].0.order <= #[trigger] by_order_from(s, o)[j].0.order,
        forall|e: (Control, Seq<char>)| #[trigger] by_order_from(s, o).contains(e) <==> (s.contains(e) && e.0.order >= o),
    decreases 256 - o,
{
    if o < 256 {
        lemma_by_order_from(s, o + 1);
        lemma_with_order(s, o);
        let w = with_order(s, o);
        let rest = by_order_from(s, o + 1);
        let all = by_order_from(s, o);
        assert(all == w + rest);
        assert forall|i: int| 0 <= i < w.len() implies #[trigger] w[i].0.order == o by {
            assert(w.contains(w[i]));
        }
        assert forall|i: int| 0 <= i < all.len() implies #[trigger] all[i].0.order >= o by {
            if i < w.len() {
                assert(all[i] == w[i]);
            } else {
                assert(all[i] == rest[i - w.len()]);
            }
        }
        assert forall|i: int, j: int| 0 <= i < j < all.len() implies #[trigger] all[i].0.order <= #[trigger] all[j].0.order by {
            if j < w.len() {
                assert(all[i] == w[i]);
                assert(all[j] == w[j]);
            } else if i < w.len() {
                assert(all[i] == w[i]);
                assert(all[j] == rest[j - w.len()]);
            } else {
                assert(all[i] == rest[i - w.len()]);
                assert(all[j] == rest[j - w.len()]);
            }
        }
        assert forall|e: (Control, Seq<char>)| #[trigger] all.contains(e) <==> (s.contains(e) && e.0.order >= o) by {
            if all.contains(e) {
                let i = choose|i: int| 0 <= i < all.len() && all[i] == e;
                if i < w.len() {
                    assert(w[i] == e);
                    assert(w.contains(e));
                } else {
                    assert(rest[i - w.len()] == e);
                    assert(rest.contains(e));
                }
            }
            if s.contains(e) && e.0.order >= o {
                if e.0.order == o {
                    assert(w.contains(e));
                    let i = choose|i: int| 0 <= i < w.len() && w[i] == e;
                    assert(all[i] == e);
                } else {
                    assert(rest.contains(e));
                    let i = choose|i: int| 0 <= i < rest.len() && rest[i] == e;
                    assert(all[i + w.len()] == e);
                }
            }
        }
    } else {
        assert(by_order_from(s, o) =~= Seq::<(Control, Seq<char>)>::empty());
    }
}

/// The writes of an apply are ordered so that controls that gate others (a
/// lower `order`) land first, and they are exactly the values the camera can
/// take: none gained, none lost.
pub proof fn lemma_apply_order(s: Seq<(Control, Seq<char>)>)
    ensures
        forall|i: int, j: int| 0 <= i < j < by_order(s).len()
            ==> #[trigger] by_order(s)[i].0.order <= #[trigger] by_order(s)[j].0.order,
        forall|e: (Control, Seq<char>)| #[trigger] by_order(s).contains(e) <==> s.contains(e),
{
    lemma_by_order_from(s, 0);
}

proof fn lemma_plan_splits_values(pairs: Seq<(Seq<char>, SettingView)>, cs: Seq<Control>)
    ensures
        candidates(pairs, cs).len() + unavailable(pairs, cs).len() == pairs.len(),
    decreases pairs.len(),
{
    if pairs.len() > 0 {
        lemma_plan_splits_values(pairs.drop_last(), cs);
    }
}

proof fn lemma_by_order_from_push(s: Seq<(Control, Seq<char>)>, x: (Control, Seq<char>), o: int)
    requires
        0 <= o <= 256,
    ensures
        by_order_from(s.push(x), o).len() == by_order_from(s, o).len() + (if o <= x.0.order { 1int } else { 0 }),
    decreases 256 - o,
{
    if o < 256 {
        assert(s.push(x).drop_last() =~= s);
        assert(with_order(s.push(x), o).len() == with_order(s, o).len() + (if x.0.order == o { 1int } else { 0 }));
        lemma_by_order_from_push(s, x, o + 1);
    }
}

proof fn lemma_by_order_empty(s: Seq<(Control, Seq<char>)>, o: int)
    requires
        s.len() == 0,
        0 <= o <= 256,
    ensures
        by_order_from(s, o).len() == 0,
    decreases 256 - o,
{
    if o < 256 {
        lemma_by_order_empty(s, o + 1);
    }
}

proof fn lemma_by_order_len(s: Seq<(Control, Seq<char>)>)
    ensures
        by_order(s).len() == s.len(),
    decreases s.len(),
{
    if s.len() == 0 {
        lemma_by_order_empty(s, 0);
    } else {
        lemma_by_order_len(s.drop_last());
        lemma_by_order_from_push(s.drop_last(), s.last(), 0);
        assert(s.drop_last().push(s.last()) =~= s);
    }
}

/// Applying a profile accounts for every value it holds for the camera:
/// each is either planned as a write or reported as one the camera cannot
/// take, never silently dropped.
pub proof fn lemma_apply_accounts_for_every_value(pairs: Seq<(Seq<char>, SettingView)>, cs: Seq<Control>)
    ensures
        by_order(candidates(pairs, cs)).len() + unavailable(pairs, cs).len() == pairs.len(),
{
    lemma_plan_splits_values(pairs, cs);
    lemma_by_order_len(candidates(pairs, cs));
}

proof fn lemma_run_prefix(run: Seq<Applying>, k: int)
    requires
        0 <= k < run.len(),
        forall|i: int| 0 <= i < run.len() - 1 ==> run_step(#[trigger] run[i], run[i + 1]),
    ensures
        run[k].next == run[0].next + k,
        reported(run[k]) == reported(run[0]) + k,
        run[k].planned@ == run[0].planned@,
        run[k].values.pairs() == run[0].values.pairs(),
        k > 0 ==> run[k - 1].next < run[0].planned@.len(),
    decreases k,
{
    if k > 0 {
        lemma_run_prefix(run, k - 1);
        let a = run[k - 1];
        let b = run[k];
        assert(run_step(a, b));
        if !gate_step(a, b, false) {
            let m = choose|m: Applying| #[trigger] gate_step(a, m, true) && record_step(m, b, *a.planned@[a.next as int].0);
            assert(reported(m) == reported(a));
        }
    }
}

/// Over a whole run of applying, from the plan [`apply`] makes for a camera
/// through one step per planned write (`gate`, then `record` when the write
/// goes ahead) until every planned write is dealt with, each value the
/// profile holds for the camera is reported exactly once: as a write made,
/// or as skipped with its reason. The run takes exactly one step per
/// planned write.
pub proof fn lemma_run_reports_every_value_once(run: Seq<Applying>, cs: Seq<Control>)
    requires
        run.len() >= 1,
        run[0].next == 0,
        run[0].report.applied@.len() == 0,
        pairs_view(run[0].report.skipped@) == unavailable(run[0].values.pairs(), cs),
        writes_view(run[0].planned@) == by_order(candidates(run[0].values.pairs(), cs)),
        forall|i: int| 0 <= i < run.len() - 1 ==> run_step(#[trigger] run[i], run[i + 1]),
        run.last().next >= run.last().planned@.len(),
    ensures
        reported(run.last()) == run[0].values.pairs().len(),
        run.len() == run[0].planned@.len() + 1,
{
    let last = run.len() - 1;
    lemma_run_prefix(run, last);
    lemma_apply_accounts_for_every_value(run[0].values.pairs(), cs);
    assert(run[0].report.skipped@.len() == unavailable(run[0].values.pairs(), cs).len());
    assert(run[0].planned@.len() == writes_view(run[0].planned@).len());
}

/// The profile used when none is named and none has been chosen.
pub const DEFAULT: &'static str = "default";

/// Where settings live, under the home directory `home` (`/tmp` when it is
/// unknown).
pub fn config_dir(home: Option<&str>) -> (r: String)
    ensures
        r@ == joined_path(joined_path(crate::service::home_or_tmp(crate::service::opt_view(home)), ".config"@), "kiyoctl"@),
{
    let h = match home {
        Some(h) => String::from_str(h),
        None => String::from_str("/tmp"),
    };
    let c = join_path(h.as_str(), ".config");
    join_path(c.as_str(), "kiyoctl")
}

/// The file a profile is stored in, under the settings directory `dir`.
pub fn profile_path(dir: &str, name: &str) -> (r: String)
    ensures
        r@ == joined_path(joined_path(dir@, "profiles"@), name@ + ".json"@),
{
    let p = join_path(dir, "profiles");
    let mut file = String::from_str(name);
    append_str(&mut file, ".json");
    join_path(p.as_str(), file.as_str())
}

/// The file that records the profile in use, under the settings directory
/// `dir`. Picking a profile in the UI (or `kiyoctl use`) records it here, so
/// the choice outlives the process that made it.
pub fn active_path(dir: &str) -> (r: String)
    ensures
        r@ == joined_path(dir@, "active"@),
{
    join_path(dir, "active")
}

/// The profile name recorded in the active file's `text`, if it names one.
pub fn recorded_profile(text: &str) -> (r: Option<String>)
    ensures
        opt_str(r) == (if trimmed(text@).len() == 0 {
            None
        } else {
            Some(trimmed(text@))
        }),
{
    let t = trim(text);
    if t.unicode_len() == 0 {
        None
    } else {
        Some(t)
    }
}

} // verus!
