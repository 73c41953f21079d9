//! What the interactive UI decides, kept apart from the terminal and the
//! camera: which control is selected, which dialog is open, what the status
//! line says, and what a key press or a click asks the camera to do.
//!
//! Drawing, the event loop and the writes themselves live with the terminal
//! code; everything here is a pure function of the screen state and the event.

use vstd::prelude::*;
use crate::controls::{choices_spec, Control, Kind, Reading};
use crate::cli::{widest, widest_of};
use crate::profile::{opt_str, ApplyReport};
use crate::text::{
    append_str, chars_of, fmt_int, fmt_u64, nat_digits, from_chars, int_digits, join, joined, parse_i64, parsed_i64,
    str_eq, strs_contain, strs_vec, strs_view, trim, trimmed, index_from, lemma_index_from,
};

verus! {

/// One line in the control list.
pub struct Row {
    pub ctrl: &'static Control,
    /// Current value in human form, or None when the camera will not report it.
    pub value: Option<String>,
    pub range: Option<(i64, i64)>,
    pub step: i64,
    pub default: Option<String>,
    pub writable: bool,
}

/// What a row shows as its value.
pub open spec fn shown_text(v: Option<String>) -> Seq<char> {
    match v {
        Some(s) => s@,
        None => "?"@,
    }
}

impl Row {
    pub fn numeric(&self) -> (r: bool)
        ensures
            r == (self.ctrl.kind is Int),
    {
        match self.ctrl.kind {
            Kind::Int { .. } => true,
            _ => false,
        }
    }

    pub fn shown(&self) -> (r: String)
        ensures
            r@ == shown_text(self.value),
    {
        match &self.value {
            Some(v) => v.clone(),
            None => String::from_str("?"),
        }
    }
}

impl Row {
    /// The row for a control the camera reported: its value, range and
    /// default as read, stepping by the reported resolution when that is
    /// positive and by one otherwise.
    pub fn read(ctrl: &'static Control, reading: Reading) -> (r: Row)
        ensures
            r.ctrl == ctrl,
            opt_str(r.value) == Some(reading.value@),
            r.range == reading.range,
            r.step == (match reading.step {
                Some(s) => if s > 0 { s } else { 1 },
                None => 1,
            }),
            opt_str(r.default) == opt_str(reading.default),
            r.writable == reading.writable,
    {
        let step = match reading.step {
            Some(s) => if s > 0 { s } else { 1 },
            None => 1,
        };
        Row {
            ctrl,
            value: Some(reading.value),
            range: reading.range,
            step,
            default: reading.default,
            writable: reading.writable,
        }
    }

    /// The row for a write-only control, showing what the profile recalls.
    pub fn remembered(ctrl: &'static Control, value: Option<String>) -> (r: Row)
        ensures
            r.ctrl == ctrl,
            opt_str(r.value) == opt_str(value),
            r.range is None,
            r.step == 1,
            r.default is None,
            r.writable,
    {
        Row { ctrl, value, range: None, step: 1, default: None, writable: true }
    }
}

/// The status line after applying a profile.
pub open spec fn applied_text(applied: nat, skipped: nat) -> Seq<char> {
    "Applied "@ + nat_digits(applied) + " settings"@ + (if skipped == 0 {
        Seq::<char>::empty()
    } else {
        ", skipped "@ + nat_digits(skipped)
    })
}

pub fn applied_status(report: &ApplyReport) -> (r: String)
    ensures
        r@ == applied_text(report.applied@.len(), report.skipped@.len()),
{
    let mut r = String::from_str("Applied ");
    let a = fmt_u64(report.applied.len() as u64);
    append_str(&mut r, a.as_str());
    append_str(&mut r, " settings");
    if report.skipped.len() != 0 {
        append_str(&mut r, ", skipped ");
        let k = fmt_u64(report.skipped.len() as u64);
        append_str(&mut r, k.as_str());
    }
    r
}

pub enum Mode {
    Browse,
    /// Typing a value directly into the selected numeric control.
    Edit { buffer: String },
    Help,
    /// Choosing which profile to work with.
    Profiles { names: Vec<String>, selected: usize },
    /// Naming a profile that does not exist yet.
    NewProfile { buffer: String },
}

pub enum ModeView {
    Browse,
    Edit { buffer: Seq<char> },
    Help,
    Profiles { names: Seq<Seq<char>>, selected: int },
    NewProfile { buffer: Seq<char> },
}

pub open spec fn str_views(v: Seq<String>) -> Seq<Seq<char>> {
    v.map_values(|s: String| s@)
}

impl View for Mode {
    type V = ModeView;

    open spec fn view(&self) -> ModeView {
        match self {
            Mode::Browse => ModeView::Browse,
            Mode::Edit { buffer } => ModeView::Edit { buffer: buffer@ },
            Mode::Help => ModeView::Help,
            Mode::Profiles { names, selected } => ModeView::Profiles {
                names: str_views(names@),
                selected: *selected as int,
            },
            Mode::NewProfile { buffer } => ModeView::NewProfile { buffer: buffer@ },
        }
    }
}

/// Where a control was last drawn, so a click can be mapped back to it.
/// Columns are half-open ranges of absolute screen positions.
pub struct Hit {
    /// Index into `Ui::rows`.
    pub index: usize,
    pub y: u16,
    /// The value bar, for numeric controls.
    pub bar: Option<(u16, u16)>,
    /// Each named option, for choice controls.
    pub choices: Vec<(u16, u16, &'static str)>,
}

/// What the user has just asked for, decided without touching the camera.
pub enum Action {
    Nothing,
    Quit,
    /// Write this value to the control on the given row.
    Write { row: usize, value: String },
    SaveProfile,
    ApplyProfile,
    ResetDefaults,
    Reload,
    /// Switch to an existing profile and put it on the camera.
    SwitchProfile(String),
    /// Create a profile from the camera's current settings.
    CreateProfile(String),
}

pub enum ActionView {
    Nothing,
    Quit,
    Write { row: int, value: Seq<char> },
    SaveProfile,
    ApplyProfile,
    ResetDefaults,
    Reload,
    SwitchProfile(Seq<char>),
    CreateProfile(Seq<char>),
}

impl View for Action {
    type V = ActionView;

    open spec fn view(&self) -> ActionView {
        match self {
            Action::Nothing => ActionView::Nothing,
            Action::Quit => ActionView::Quit,
            Action::Write { row, value } => ActionView::Write { row: *row as int, value: value@ },
            Action::SaveProfile => ActionView::SaveProfile,
            Action::ApplyProfile => ActionView::ApplyProfile,
            Action::ResetDefaults => ActionView::ResetDefaults,
            Action::Reload => ActionView::Reload,
            Action::SwitchProfile(s) => ActionView::SwitchProfile(s@),
            Action::CreateProfile(s) => ActionView::CreateProfile(s@),
        }
    }
}

/// The keys the UI tells apart.
#[derive(Clone, Copy, Debug)]
pub enum KeyCode {
    Char(char),
    Up,
    Down,
    Left,
    Right,
    PageUp,
    PageDown,
    Home,
    End,
    Enter,
    Esc,
    Backspace,
    Other,
}

#[derive(Clone, Copy, Debug)]
pub struct Key {
    pub code: KeyCode,
    pub shift: bool,
    pub control: bool,
}

#[derive(Clone, Copy, Debug)]
pub enum MouseButton {
    Left,
    Right,
    Middle,
}

#[derive(Clone, Copy, Debug)]
pub enum MouseKind {
    Down(MouseButton),
    Drag(MouseButton),
    ScrollDown,
    ScrollUp,
    Other,
}

#[derive(Clone, Copy, Debug)]
pub struct Mouse {
    pub kind: MouseKind,
    pub column: u16,
    pub row: u16,
}

/// The entry at the end of the profile dialog that makes a new profile.
pub const NEW_PROFILE: &'static str = "+ new profile…";

/// Everything drawn on screen. No hardware behind it.
pub struct Ui {
    pub device_name: String,
    pub vid: u16,
    pub pid: u16,
    pub profile_name: String,
    pub rows: Vec<Row>,
    /// The highlighted row.
    pub selected: usize,
    pub mode: Mode,
    pub status: String,
    /// A control has been changed but not yet written to the profile.
    pub dirty: bool,
    /// Filled in by the last render, consumed by mouse handling.
    pub hits: Vec<Hit>,
    /// The clickable profile name in the header: (x0, x1, y).
    pub profile_hit: Option<(u16, u16, u16)>,
    /// Rows of the open dialog: (y, entry index).
    pub menu_hits: Vec<(u16, usize)>,
    /// Pre-formatted GUIDs of extension units no Model claims.
    pub unclaimed: Vec<String>,
}

/// The profile dialog lists every saved profile, then an entry for making a
/// new one.
pub open spec fn entries_spec(saved: Seq<Seq<char>>) -> Seq<Seq<char>> {
    saved.push(NEW_PROFILE@)
}

pub fn profile_entries(saved: &Vec<String>) -> (r: Vec<String>)
    ensures
        str_views(r@) == entries_spec(str_views(saved@)),
{
    let mut names: Vec<String> = Vec::new();
    let mut i: usize = 0;
    while i < saved.len()
        invariant
            i <= saved.len(),
            names@.len() == i,
            forall|j: int| 0 <= j < i ==> (#[trigger] names@[j])@ == saved@[j]@,
        decreases saved.len() - i,
    {
        names.push(saved[i].clone());
        i = i + 1;
    }
    names.push(String::from_str(NEW_PROFILE));
    proof {
        assert(str_views(names@) =~= entries_spec(str_views(saved@)));
    }
    names
}

/// The first row at or after `i` showing the control called `name`.
pub open spec fn row_named_from(rows: Seq<Row>, name: Seq<char>, i: int) -> Option<int>
    decreases rows.len() - i,
{
    if i < 0 || i >= rows.len() {
        None
    } else if rows[i].ctrl.name@ == name {
        Some(i)
    } else {
        row_named_from(rows, name, i + 1)
    }
}

/// The first row showing the control called `name`.
pub open spec fn row_named(rows: Seq<Row>, name: Seq<char>) -> Option<int> {
    row_named_from(rows, name, 0)
}

proof fn lemma_row_named_from(rows: Seq<Row>, name: Seq<char>, i: int)
    requires
        0 <= i,
    ensures
        row_named_from(rows, name, i) matches Some(k) ==> i <= k < rows.len() && rows[k].ctrl.name@ == name,
    decreases rows.len() - i,
{
    if i < rows.len() && rows[i].ctrl.name@ != name {
        lemma_row_named_from(rows, name, i + 1);
    }
}

/// Why the control on `row` cannot be changed right now, if it cannot: the
/// control it depends on shows a value outside the ones it needs.
pub open spec fn blocked_spec(rows: Seq<Row>, row: Row) -> Option<Seq<char>> {
    match row.ctrl.requires {
        None => None,
        Some((dep, allowed)) => match row_named(rows, dep@) {
            None => None,
            Some(i) => match rows[i].value {
                None => None,
                Some(cur) => if strs_view(allowed@).contains(cur@) {
                    None
                } else {
                    Some(dep@ + " is "@ + cur@ + "; set it to "@ + joined(strs_view(allowed@), " or "@))
                },
            },
        },
    }
}

/// Why the control on row `index` refuses a change now, if it does.
pub open spec fn guard_problem(rows: Seq<Row>, index: int) -> Option<Seq<char>> {
    let row = rows[index];
    if !row.writable {
        Some(row.ctrl.name@ + " is read-only"@)
    } else {
        match blocked_spec(rows, row) {
            Some(why) => Some(row.ctrl.name@ + " is not adjustable now — "@ + why),
            None => None,
        }
    }
}

/// The selection after moving by `delta`, wrapping at both ends.
pub open spec fn moved(selected: int, delta: int, len: int) -> int {
    if len == 0 {
        selected
    } else {
        (selected + delta) % len
    }
}

/// Drop the last character, as `String::pop` does.
fn pop_char(s: &String) -> (r: String)
    ensures
        r@ == (if s@.len() == 0 { s@ } else { s@.drop_last() }),
{
    let v = chars_of(s.as_str());
    if v.len() == 0 {
        return s.clone();
    }
    let mut w: Vec<char> = Vec::new();
    let mut i: usize = 0;
    while i + 1 < v.len()
        invariant
            v@ == s@,
            v@.len() > 0,
            i + 1 <= v@.len(),
            w@ == v@.subrange(0, i as int),
        decreases v.len() - i,
    {
        w.push(v[i]);
        i = i + 1;
        proof {
            assert(w@ =~= v@.subrange(0, i as int));
        }
    }
    proof {
        assert(w@ =~= s@.drop_last());
    }
    from_chars(&w)
}

/// ASCII letters and digits, `-` and `_`: the characters a new profile name
/// may hold, so it is safe as a file name.
pub open spec fn name_char(c: char) -> bool {
    ('0' <= c <= '9') || ('a' <= c <= 'z') || ('A' <= c <= 'Z') || c == '-' || c == '_'
}

/// The characters a typed number may hold.
pub open spec fn number_char(c: char) -> bool {
    ('0' <= c <= '9') || c == '-'
}

/// `v` clamped into `[lo, hi]`.
pub open spec fn clamped(v: int, lo: int, hi: int) -> int {
    if v < lo {
        lo
    } else if v > hi {
        hi
    } else {
        v
    }
}

/// `n / d` rounded to the nearest integer, halves away from zero.
pub open spec fn round_div(n: int, d: int) -> int {
    if n >= 0 {
        (2 * n + d) / (2 * d)
    } else {
        -((-2 * n + d) / (2 * d))
    }
}

/// Integer division rounding toward zero, as `/` does on machine integers.
pub open spec fn trunc_div(n: int, d: int) -> int {
    if n >= 0 {
        n / d
    } else {
        -((-n) / d)
    }
}

/// The value a click at column `x` on a bar spanning `[x0, x1)` picks: the
/// first and last cells are exactly the minimum and the maximum, the cells
/// between a proportional share of the range, rounded, then snapped to the
/// control's step.
pub open spec fn value_at_spec(row: Row, x: int, x0: int, x1: int) -> Option<int> {
    match row.range {
        None => None,
        Some((lo, hi)) => {
            let width = if x1 > x0 { x1 - x0 } else { 0 };
            if width == 0 || hi <= lo {
                None
            } else if width > 1 && clamped(x - x0, 0, width - 1) == width - 1 {
                Some(hi as int)
            } else {
                let raw = if width > 1 {
                    let k = clamped(x - x0, 0, width - 1);
                    round_div(lo * (width - 1) + k * (hi - lo), width - 1)
                } else {
                    lo as int
                };
                let step = if row.step >= 1 { row.step as int } else { 1 };
                Some(clamped(lo + trunc_div(raw - lo + step / 2, step) * step, lo as int, hi as int))
            }
        },
    }
}

/// How many of `width` cells a bar for `value` in `[lo, hi]` fills: its share
/// of the range, clamped to the ends, rounded to the nearest cell.
pub open spec fn filled_cells(value: int, lo: int, hi: int, width: int) -> int {
    round_div(clamped(value - lo, 0, hi - lo) * width, hi - lo)
}

/// A proportional bar: filled cells, then empty ones.
pub open spec fn bar_text(value: int, lo: int, hi: int, width: nat) -> Seq<char> {
    if width == 0 || hi <= lo {
        seq![]
    } else {
        Seq::new(width, |i: int| if i < filled_cells(value, lo, hi, width as int) { '█' } else { '·' })
    }
}

/// How the control list is laid out: the width of the name and value
/// columns, of the bar, and where the bar or the option names begin.
pub struct Columns {
    pub name: usize,
    pub value: usize,
    pub bar: usize,
    /// The column where the bar or the option names begin, relative to the
    /// list's inner area.
    pub x: usize,
}

pub open spec fn row_names(rows: Seq<Row>) -> Seq<Seq<char>> {
    rows.map_values(|r: Row| r.ctrl.name@)
}

pub open spec fn row_values(rows: Seq<Row>) -> Seq<Seq<char>> {
    rows.map_values(|r: Row| shown_text(r.value))
}

/// The name column fits the longest name (ten with no rows), the value
/// column the longest value and at least six; what is left of `width` after
/// those and the padding goes to the bar, at most 32 cells.
pub open spec fn columns_spec(rows: Seq<Row>, width: int) -> (int, int, int) {
    let name = if rows.len() == 0 { 10 } else { widest(row_names(rows)) };
    let v = if rows.len() == 0 { 6 } else { widest(row_values(rows)) };
    let value = if v < 6 { 6 } else { v };
    let left = width - (name + value + 24);
    (name, value, if left < 0 { 0 } else if left > 32 { 32 } else { left })
}

/// Lay out the control list for a list `width` cells wide.
pub fn columns(rows: &Vec<Row>, width: u16) -> (r: Columns)
    ensures
        (r.name as int, r.value as int, r.bar as int) == columns_spec(rows@, width as int),
        r.name + r.value + 7 <= usize::MAX ==> r.x == r.name + r.value + 7,
{
    let ghost names = row_names(rows@);
    let ghost values = row_values(rows@);
    let mut name: usize = 0;
    let mut v: usize = 0;
    let mut i: usize = 0;
    while i < rows.len()
        invariant
            i <= rows@.len(),
            names == row_names(rows@),
            values == row_values(rows@),
            name as int == widest(names.subrange(0, i as int)),
            v as int == widest(values.subrange(0, i as int)),
        decreases rows.len() - i,
    {
        proof {
            assert(names.subrange(0, i + 1).drop_last() =~= names.subrange(0, i as int));
            assert(values.subrange(0, i + 1).drop_last() =~= values.subrange(0, i as int));
        }
        let n = rows[i].ctrl.name.unicode_len();
        if n > name {
            name = n;
        }
        let shown = rows[i].shown();
        let m = shown.unicode_len();
        if m > v {
            v = m;
        }
        i = i + 1;
    }
    proof {
        assert(names.subrange(0, rows@.len() as int) =~= names);
        assert(values.subrange(0, rows@.len() as int) =~= values);
    }
    if rows.len() == 0 {
        name = 10;
        v = 6;
    }
    let value = if v < 6 { 6 } else { v };
    let need = name.saturating_add(value).saturating_add(24);
    let left = (width as usize).saturating_sub(need);
    let bar = if left > 32 { 32 } else { left };
    let x = name.saturating_add(value).saturating_add(7);
    Columns { name, value, bar, x }
}

/// Where each option name of a choice control lands, starting at column
/// `x`: (first column, column after the last, name), one cell apart.
pub open spec fn choice_spans(cs: Seq<Seq<char>>, x: int) -> Seq<(int, int, Seq<char>)>
    decreases cs.len(),
{
    if cs.len() == 0 {
        seq![]
    } else {
        seq![(x, x + cs[0].len(), cs[0])] + choice_spans(cs.drop_first(), x + cs[0].len() + 1)
    }
}

/// The option names, laid out from column `x`, stay on screen.
pub open spec fn spans_fit(cs: Seq<Seq<char>>, x: int) -> bool
    decreases cs.len(),
{
    cs.len() == 0 || (x + cs[0].len() <= u16::MAX && spans_fit(cs.drop_first(), x + cs[0].len() + 1))
}

pub open spec fn hit_choices(h: Hit) -> Seq<(int, int, Seq<char>)> {
    h.choices@.map_values(|c: (u16, u16, &'static str)| (c.0 as int, c.1 as int, c.2@))
}

/// What a click on a row can reach: the bar of a numeric control with a
/// range and a readable value (when there is room for one), or else the
/// option names of a choice control.
pub open spec fn row_hit_spec(row: Row, x: int, bar_w: int) -> (Option<(int, int)>, Seq<(int, int, Seq<char>)>) {
    if row.range is Some && row_number(row) is Some {
        (if bar_w > 0 { Some((x, x + bar_w)) } else { None }, seq![])
    } else {
        match choices_spec(row.ctrl.kind) {
            Some(cs) => (None, choice_spans(cs, x)),
            None => (None, seq![]),
        }
    }
}

proof fn lemma_spans_push(cs: Seq<Seq<char>>, x: int, k: int)
    requires
        0 <= k < cs.len(),
    ensures
        choice_spans(cs.subrange(0, k + 1), x) == choice_spans(cs.subrange(0, k), x).push(
            (x + spans_width(cs.subrange(0, k)), x + spans_width(cs.subrange(0, k)) + cs[k].len(), cs[k]),
        ),
    decreases k,
{
    let a = cs.subrange(0, k + 1);
    let b = cs.subrange(0, k);
    assert(a[0] == cs[0]);
    if k > 0 {
        let rest = cs.drop_first();
        let x1 = x + cs[0].len() + 1;
        lemma_spans_push(rest, x1, k - 1);
        assert(a.drop_first() =~= rest.subrange(0, k));
        assert(b.drop_first() =~= rest.subrange(0, k - 1));
        assert(b[0] == cs[0]);
        assert(rest[k - 1] == cs[k]);
        assert(spans_width(b) == cs[0].len() + 1 + spans_width(rest.subrange(0, k - 1)));
        let head = seq![(x, x + cs[0].len(), cs[0])];
        let e = (x + spans_width(b), x + spans_width(b) + cs[k].len(), cs[k]);
        assert(choice_spans(a, x) == head + choice_spans(rest.subrange(0, k), x1));
        assert(choice_spans(b, x) == head + choice_spans(rest.subrange(0, k - 1), x1));
        assert(choice_spans(rest.subrange(0, k), x1) == choice_spans(rest.subrange(0, k - 1), x1).push(e));
        assert(head + choice_spans(rest.subrange(0, k - 1), x1).push(e) =~= (head + choice_spans(rest.subrange(0, k - 1), x1)).push(e));
    } else {
        assert(a.drop_first() =~= Seq::<Seq<char>>::empty());
        assert(b =~= Seq::<Seq<char>>::empty());
        assert(choice_spans(a.drop_first(), x + cs[0].len() + 1) =~= Seq::<(int, int, Seq<char>)>::empty());
        assert(choice_spans(a, x) =~= seq![(x, x + cs[0].len(), cs[0])]);
    }
}

/// The columns the option names of `cs` take, gaps included.
pub open spec fn spans_width(cs: Seq<Seq<char>>) -> int
    decreases cs.len(),
{
    if cs.len() == 0 { 0 } else { cs[0].len() + 1 + spans_width(cs.drop_first()) }
}

proof fn lemma_spans_fit(cs: Seq<Seq<char>>, x: int, k: int)
    requires
        spans_fit(cs, x),
        0 <= k < cs.len(),
    ensures
        x + spans_width(cs.subrange(0, k)) + cs[k].len() <= u16::MAX,
        spans_width(cs.subrange(0, k + 1)) == spans_width(cs.subrange(0, k)) + cs[k].len() + 1,
    decreases k,
{
    let rest = cs.drop_first();
    if k > 0 {
        lemma_spans_fit(rest, x + cs[0].len() + 1, k - 1);
        assert(cs.subrange(0, k).drop_first() =~= rest.subrange(0, k - 1));
        assert(cs.subrange(0, k + 1).drop_first() =~= rest.subrange(0, k));
        assert(rest[k - 1] == cs[k]);
    } else {
        assert(cs.subrange(0, 0) =~= Seq::<Seq<char>>::empty());
        assert(cs.subrange(0, 1).drop_first() =~= Seq::<Seq<char>>::empty());
    }
}

/// The click targets of the control on row `index` when its bar or option
/// names begin at column `x` and the bar is `bar_w` cells wide; `y` is left
/// at 0 for the caller to place.
pub fn row_hit(row: &Row, index: usize, x: u16, bar_w: u16) -> (r: Hit)
    requires
        x + bar_w <= u16::MAX,
        choices_spec(row.ctrl.kind) matches Some(cs) ==> spans_fit(cs, x as int),
    ensures
        r.index == index,
        r.y == 0,
        (match r.bar {
            Some((a, b)) => Some((a as int, b as int)),
            None => None,
        }, hit_choices(r)) == row_hit_spec(*row, x as int, bar_w as int),
{
    let numeric = match &row.value {
        Some(v) => parse_i64(v.as_str()).is_some(),
        None => false,
    };
    if row.range.is_some() && numeric {
        let bar = if bar_w > 0 { Some((x, x + bar_w)) } else { None };
        let r = Hit { index, y: 0, bar, choices: Vec::new() };
        proof {
            assert(hit_choices(r) =~= Seq::<(int, int, Seq<char>)>::empty());
        }
        return r;
    }
    let mut spans: Vec<(u16, u16, &'static str)> = Vec::new();
    match row.ctrl.choices() {
        Some(cs) => {
            let ghost cv = cs@.map_values(|s: &'static str| s@);
            let mut at: u32 = x as u32;
            let mut k: usize = 0;
            while k < cs.len()
                invariant
                    k <= cs@.len(),
                    cv == cs@.map_values(|s: &'static str| s@),
                    spans_fit(cv, x as int),
                    at as int == x + spans_width(cv.subrange(0, k as int)),
                    spans@.map_values(|c: (u16, u16, &'static str)| (c.0 as int, c.1 as int, c.2@)) == choice_spans(
                        cv.subrange(0, k as int),
                        x as int,
                    ),
                decreases cs.len() - k,
            {
                proof {
                    lemma_spans_fit(cv, x as int, k as int);
                    lemma_spans_push(cv, x as int, k as int);
                }
                let len = cs[k].unicode_len();
                let end = at + len as u32;
                let ghost before = spans@.map_values(|c: (u16, u16, &'static str)| (c.0 as int, c.1 as int, c.2@));
                spans.push((at as u16, end as u16, cs[k]));
                proof {
                    assert(spans@.map_values(|c: (u16, u16, &'static str)| (c.0 as int, c.1 as int, c.2@)) =~= before.push(
                        (at as int, end as int, cv[k as int]),
                    ));
                }
                at = end + 1;
                k = k + 1;
            }
            proof {
                assert(cv.subrange(0, cs@.len() as int) =~= cv);
            }
        },
        None => {
            proof {
                assert(spans@.map_values(|c: (u16, u16, &'static str)| (c.0 as int, c.1 as int, c.2@)) =~= Seq::<(int, int, Seq<char>)>::empty());
            }
        },
    }
    Hit { index, y: 0, bar: None, choices: spans }
}

/// Whether option names `cs`, laid out from column `x`, stay on screen.
fn choices_fit(cs: &Vec<&'static str>, x: u16) -> (r: bool)
    ensures
        r == spans_fit(cs@.map_values(|s: &'static str| s@), x as int),
{
    let ghost cv = cs@.map_values(|s: &'static str| s@);
    let ghost n = cv.len() as int;
    let mut at: usize = x as usize;
    let mut k: usize = 0;
    proof {
        assert(cv.subrange(0, n) =~= cv);
    }
    while k < cs.len()
        invariant
            k <= cs@.len(),
            n == cs@.len(),
            cv == cs@.map_values(|s: &'static str| s@),
            at <= u16::MAX + 1,
            spans_fit(cv, x as int) == spans_fit(cv.subrange(k as int, n), at as int),
        decreases cs.len() - k,
    {
        let ghost rest = cv.subrange(k as int, n);
        proof {
            assert(rest.drop_first() =~= cv.subrange(k + 1, n));
            assert(rest[0] == cv[k as int]);
        }
        let len = cs[k].unicode_len();
        if len > 0xffff || at + len > 0xffff {
            return false;
        }
        at = at + len + 1;
        k = k + 1;
    }
    proof {
        assert(cv.subrange(n, n) =~= Seq::<Seq<char>>::empty());
    }
    true
}

/// A hit's bar in plain integers.
pub open spec fn hit_bar(h: Hit) -> Option<(int, int)> {
    match h.bar {
        Some((a, b)) => Some((a as int, b as int)),
        None => None,
    }
}

/// Whether a row's click targets stay on screen when they begin at column
/// `x` with a bar `bar_w` cells wide.
pub open spec fn row_fits(row: Row, x: int, bar_w: int) -> bool {
    &&& x + bar_w <= u16::MAX
    &&& choices_spec(row.ctrl.kind) matches Some(cs) ==> spans_fit(cs, x)
}

/// The click targets of every row, relative to the list's inner area and
/// with `y` left at 0: those of [`row_hit`] where they stay on screen, and
/// none for a row whose targets would not.
pub fn list_hits(rows: &Vec<Row>, cols: &Columns) -> (r: Vec<Hit>)
    ensures
        r@.len() == rows@.len(),
        forall|i: int| 0 <= i < r@.len() ==> {
            &&& (#[trigger] r@[i]).index == i
            &&& r@[i].y == 0
            &&& (hit_bar(r@[i]), hit_choices(r@[i])) == (if row_fits(rows@[i], cols.x as int, cols.bar as int) {
                row_hit_spec(rows@[i], cols.x as int, cols.bar as int)
            } else {
                (None, seq![])
            })
        },
{
    let mut r: Vec<Hit> = Vec::new();
    let mut i: usize = 0;
    while i < rows.len()
        invariant
            i <= rows@.len(),
            r@.len() == i,
            forall|j: int| 0 <= j < i ==> {
                &&& (#[trigger] r@[j]).index == j
                &&& r@[j].y == 0
                &&& (hit_bar(r@[j]), hit_choices(r@[j])) == (if row_fits(rows@[j], cols.x as int, cols.bar as int) {
                    row_hit_spec(rows@[j], cols.x as int, cols.bar as int)
                } else {
                    (None, seq![])
                })
            },
        decreases rows.len() - i,
    {
        let row = &rows[i];
        let fits = cols.x <= 0xffff && cols.bar <= 0xffff - cols.x && match row.ctrl.choices() {
            Some(cs) => choices_fit(&cs, cols.x as u16),
            None => true,
        };
        let hit = if fits {
            row_hit(row, i, cols.x as u16, cols.bar as u16)
        } else {
            let h = Hit { index: i, y: 0, bar: None, choices: Vec::new() };
            proof {
                assert(hit_choices(h) =~= Seq::<(int, int, Seq<char>)>::empty());
            }
            h
        };
        r.push(hit);
        i = i + 1;
    }
    r
}

/// `v`, held at the largest terminal coordinate.
pub open spec fn sat16(v: int) -> int {
    if v > u16::MAX { u16::MAX as int } else { v }
}

/// A hit as plain values: row index, line, bar and option spans.
pub open spec fn hit_view(h: Hit) -> (usize, int, Option<(int, int)>, Seq<(int, int, Seq<char>)>) {
    (h.index, h.y as int, hit_bar(h), hit_choices(h))
}

/// `h` moved right by `dx` columns and onto line `y`, in screen coordinates.
pub open spec fn placed(h: Hit, dx: int, y: int) -> (usize, int, Option<(int, int)>, Seq<(int, int, Seq<char>)>) {
    (
        h.index,
        sat16(y),
        match hit_bar(h) {
            Some((a, b)) => Some((sat16(dx + a), sat16(dx + b))),
            None => None,
        },
        hit_choices(h).map_values(|c: (int, int, Seq<char>)| (sat16(dx + c.0), sat16(dx + c.1), c.2)),
    )
}

/// How many of `len` rows show from the one scrolled to (`offset`) in an
/// area `height` lines tall.
pub open spec fn rows_shown(len: int, offset: int, height: int) -> int {
    let left = if offset < len { len - offset } else { 0 };
    if left < height { left } else { height }
}

fn shift_choices(cs: &Vec<(u16, u16, &'static str)>, dx: u16) -> (r: Vec<(u16, u16, &'static str)>)
    ensures
        r@.map_values(|c: (u16, u16, &'static str)| (c.0 as int, c.1 as int, c.2@)) == cs@.map_values(
            |c: (u16, u16, &'static str)| (c.0 as int, c.1 as int, c.2@),
        ).map_values(|c: (int, int, Seq<char>)| (sat16(dx + c.0), sat16(dx + c.1), c.2)),
{
    let mut r: Vec<(u16, u16, &'static str)> = Vec::new();
    let mut k: usize = 0;
    while k < cs.len()
        invariant
            k <= cs@.len(),
            r@.len() == k,
            forall|j: int| 0 <= j < k ==> #[trigger] r@[j] == (
                (if dx + cs@[j].0 > u16::MAX { u16::MAX } else { (dx + cs@[j].0) as u16 }),
                (if dx + cs@[j].1 > u16::MAX { u16::MAX } else { (dx + cs@[j].1) as u16 }),
                cs@[j].2,
            ),
        decreases cs.len() - k,
    {
        let c = cs[k];
        r.push((dx.saturating_add(c.0), dx.saturating_add(c.1), c.2));
        k = k + 1;
    }
    proof {
        assert(r@.map_values(|c: (u16, u16, &'static str)| (c.0 as int, c.1 as int, c.2@)) =~= cs@.map_values(
            |c: (u16, u16, &'static str)| (c.0 as int, c.1 as int, c.2@),
        ).map_values(|c: (int, int, Seq<char>)| (sat16(dx + c.0), sat16(dx + c.1), c.2)));
    }
    r
}

/// Where the rows of the list land on screen once it is drawn: `layout` from
/// [`list_hits`], scrolled down by `offset` rows, into the inner area at
/// (`inner_x`, `inner_y`) that is `height` lines tall.
pub fn place_hits(layout: &Vec<Hit>, offset: usize, inner_x: u16, inner_y: u16, height: u16) -> (r: Vec<Hit>)
    ensures
        r@.len() == rows_shown(layout@.len() as int, offset as int, height as int),
        forall|k: int| 0 <= k < r@.len() ==> hit_view(#[trigger] r@[k]) == placed(
            layout@[offset + k],
            inner_x as int,
            inner_y + k,
        ),
{
    let mut r: Vec<Hit> = Vec::new();
    if offset >= layout.len() {
        return r;
    }
    let left = layout.len() - offset;
    let n: usize = if left < height as usize { left } else { height as usize };
    let mut k: usize = 0;
    while k < n
        invariant
            k <= n,
            n <= left,
            left == layout@.len() - offset,
            layout@.len() <= usize::MAX,
            n == rows_shown(layout@.len() as int, offset as int, height as int),
            r@.len() == k,
            forall|j: int| 0 <= j < k ==> hit_view(#[trigger] r@[j]) == placed(
                layout@[offset + j],
                inner_x as int,
                inner_y + j,
            ),
        decreases n - k,
    {
        let h = &layout[offset + k];
        let y: u16 = if k > 0xffff { 0xffff } else { inner_y.saturating_add(k as u16) };
        let bar = match h.bar {
            Some((a, b)) => Some((inner_x.saturating_add(a), inner_x.saturating_add(b))),
            None => None,
        };
        let choices = shift_choices(&h.choices, inner_x);
        let placed_hit = Hit { index: h.index, y, bar, choices };
        proof {
            assert(hit_view(placed_hit) == placed(layout@[offset + k], inner_x as int, inner_y + k));
        }
        r.push(placed_hit);
        k = k + 1;
    }
    r
}

/// Where the profile name lands in the header drawn at (`hx`, `hy`): after
/// the border and the lead "<device>  <vid>:<pid>   profile: ", which is 23
/// cells longer than the device name, on the header's first inner line.
pub open spec fn profile_hit_spec(device: Seq<char>, profile: Seq<char>, hx: int, hy: int) -> (int, int, int) {
    let x0 = sat16(sat16(hx + 1) + device.len() + 23);
    (x0, sat16(x0 + profile.len()), sat16(hy + 1))
}

impl Ui {
    /// The clickable profile name for a header drawn at (`hx`, `hy`):
    /// (x0, x1, y).
    pub fn profile_hit_at(&self, hx: u16, hy: u16) -> (r: (u16, u16, u16))
        ensures
            (r.0 as int, r.1 as int, r.2 as int) == profile_hit_spec(self.device_name@, self.profile_name@, hx as int, hy as int),
    {
        let lead = self.device_name.unicode_len();
        let lead16: u16 = if lead > 0xffff - 23 { 0xffff } else { (lead + 23) as u16 };
        let x0 = hx.saturating_add(1).saturating_add(lead16);
        let n = self.profile_name.unicode_len();
        let n16: u16 = if n > 0xffff { 0xffff } else { n as u16 };
        (x0, x0.saturating_add(n16), hy.saturating_add(1))
    }
}

/// The profile picker's width: its longest name (ten cells with none), at
/// least 28, plus six for the border, padding and marker; held where a
/// terminal's coordinates end.
pub open spec fn picker_width_spec(names: Seq<Seq<char>>) -> int {
    let longest = if names.len() == 0 { 10 } else { widest(names) };
    sat16((if longest < 28 { 28 } else { longest }) + 6)
}

/// How wide the profile picker is drawn for `names`.
pub fn picker_width(names: &Vec<String>) -> (r: u16)
    ensures
        r as int == picker_width_spec(str_views(names@)),
{
    let longest = if names.len() == 0 { 10 } else { widest_of(names) };
    let w = if longest < 28 { 28 } else { longest };
    if w > 0xffff - 6 { 0xffff } else { (w + 6) as u16 }
}

/// What the help screen adds about extension units no Model claims: nothing
/// when there are none, else a blank line, a count, each GUID indented, and
/// where to go next.
pub open spec fn unclaimed_lines_spec(guids: Seq<Seq<char>>) -> Seq<Seq<char>> {
    if guids.len() == 0 {
        seq![]
    } else {
        seq![Seq::<char>::empty(), "This camera has "@ + nat_digits(guids.len()) + " unrecognised extension unit(s):"@]
            + guids.map_values(|g: Seq<char>| "  "@ + g)
            + seq!["Run `kiyoctl probe`, then see docs/adding-a-camera.md"@]
    }
}

/// The help screen's lines about unclaimed extension units.
pub fn unclaimed_lines(guids: &Vec<String>) -> (r: Vec<String>)
    ensures
        str_views(r@) == unclaimed_lines_spec(str_views(guids@)),
{
    let mut r: Vec<String> = Vec::new();
    if guids.len() == 0 {
        proof {
            assert(str_views(r@) =~= unclaimed_lines_spec(str_views(guids@)));
        }
        return r;
    }
    r.push(String::new());
    let mut head = String::from_str("This camera has ");
    let n = fmt_u64(guids.len() as u64);
    append_str(&mut head, n.as_str());
    append_str(&mut head, " unrecognised extension unit(s):");
    r.push(head);
    let ghost gv = str_views(guids@);
    let mut i: usize = 0;
    proof {
        assert(gv.subrange(0, 0).map_values(|g: Seq<char>| "  "@ + g) =~= Seq::<Seq<char>>::empty());
        assert(str_views(r@) =~= seq![Seq::<char>::empty(), "This camera has "@ + nat_digits(guids@.len()) + " unrecognised extension unit(s):"@]
            + gv.subrange(0, 0).map_values(|g: Seq<char>| "  "@ + g));
    }
    while i < guids.len()
        invariant
            i <= guids@.len(),
            gv == str_views(guids@),
            r@.len() == i + 2,
            str_views(r@) == seq![Seq::<char>::empty(), "This camera has "@ + nat_digits(guids@.len()) + " unrecognised extension unit(s):"@]
                + gv.subrange(0, i as int).map_values(|g: Seq<char>| "  "@ + g),
        decreases guids.len() - i,
    {
        let mut line = String::from_str("  ");
        append_str(&mut line, guids[i].as_str());
        let ghost before = str_views(r@);
        r.push(line);
        proof {
            assert(gv.subrange(0, i + 1).map_values(|g: Seq<char>| "  "@ + g) =~= gv.subrange(0, i as int).map_values(
                |g: Seq<char>| "  "@ + g,
            ).push("  "@ + gv[i as int]));
            assert(str_views(r@) =~= before.push("  "@ + gv[i as int]));
        }
        i = i + 1;
    }
    r.push(String::from_str("Run `kiyoctl probe`, then see docs/adding-a-camera.md"));
    proof {
        assert(gv.subrange(0, guids@.len() as int) =~= gv);
        assert(str_views(r@) =~= unclaimed_lines_spec(gv));
    }
    r
}

/// The help box for `lines` lines of text in the area at (`x`, `y`) of
/// `width` by `height`: 63 cells wide at most and four narrower than the
/// area, tall enough for the text and its border but two shorter than the
/// area, and centred in it.
pub open spec fn help_box_spec(x: int, y: int, width: int, height: int, lines: int) -> (int, int, int, int) {
    let w = if width < 4 { 0 } else if width - 4 < 63 { width - 4 } else { 63 };
    let tall = sat16(lines + 2);
    let room = if height < 2 { 0 } else { height - 2 };
    let h = if tall < room { tall } else { room };
    (x + (width - w) / 2, y + (height - h) / 2, w, h)
}

/// Where the help box goes: corner and size.
pub fn help_box(x: u16, y: u16, width: u16, height: u16, lines: usize) -> (r: (u16, u16, u16, u16))
    requires
        x + width <= u16::MAX,
        y + height <= u16::MAX,
    ensures
        (r.0 as int, r.1 as int, r.2 as int, r.3 as int) == help_box_spec(x as int, y as int, width as int, height as int, lines as int),
{
    let room_w = width.saturating_sub(4);
    let w: u16 = if room_w < 63 { room_w } else { 63 };
    let tall: u16 = if lines > 0xffff - 2 { 0xffff } else { (lines + 2) as u16 };
    let room = height.saturating_sub(2);
    let h = if tall < room { tall } else { room };
    (x + (width - w) / 2, y + (height - h) / 2, w, h)
}

/// A box of `w` by `h` cells (at most two cells narrower and shorter than
/// the area) centred in the area at (`x`, `y`) of `width` by `height`:
/// its corner and size.
pub open spec fn centred_spec(x: int, y: int, width: int, height: int, w: int, h: int) -> (int, int, int, int) {
    let bw = if width < 2 { 0 } else if w < width - 2 { w } else { width - 2 };
    let bh = if height < 2 { 0 } else if h < height - 2 { h } else { height - 2 };
    (x + (width - bw) / 2, y + (height - bh) / 2, bw, bh)
}

pub fn centred(x: u16, y: u16, width: u16, height: u16, w: u16, h: u16) -> (r: (u16, u16, u16, u16))
    requires
        x + width <= u16::MAX,
        y + height <= u16::MAX,
    ensures
        (r.0 as int, r.1 as int, r.2 as int, r.3 as int) == centred_spec(
            x as int,
            y as int,
            width as int,
            height as int,
            w as int,
            h as int,
        ),
{
    let max_w = width.saturating_sub(2);
    let max_h = height.saturating_sub(2);
    let bw = if w < max_w { w } else { max_w };
    let bh = if h < max_h { h } else { max_h };
    (x + (width - bw) / 2, y + (height - bh) / 2, bw, bh)
}

/// Where the entries of a dialog land: one row each from `top`, as many as
/// fit in `height` rows with one left for the hint.
pub open spec fn dialog_rows_spec(count: int, top: int, height: int) -> Seq<(int, int)> {
    let n = if count < height - 1 { count } else if height >= 1 { height - 1 } else { 0 };
    Seq::new(n as nat, |i: int| (top + i, i))
}

pub fn dialog_rows(count: usize, top: u16, height: u16) -> (r: Vec<(u16, usize)>)
    requires
        top + height <= u16::MAX,
    ensures
        r@.map_values(|e: (u16, usize)| (e.0 as int, e.1 as int)) == dialog_rows_spec(count as int, top as int, height as int),
{
    let room = height.saturating_sub(1) as usize;
    let n = if count < room { count } else { room };
    let mut r: Vec<(u16, usize)> = Vec::new();
    let mut i: usize = 0;
    while i < n
        invariant
            i <= n,
            n <= room,
            room == (if height >= 1 { height - 1 } else { 0 }),
            top + height <= u16::MAX,
            r@.map_values(|e: (u16, usize)| (e.0 as int, e.1 as int)) == Seq::new(i as nat, |k: int| (top + k, k)),
        decreases n - i,
    {
        let ghost before = r@.map_values(|e: (u16, usize)| (e.0 as int, e.1 as int));
        r.push((top + i as u16, i));
        proof {
            assert(r@.map_values(|e: (u16, usize)| (e.0 as int, e.1 as int)) =~= before.push((top + i, i as int)));
            assert(Seq::new((i + 1) as nat, |k: int| (top + k, k)) =~= Seq::new(i as nat, |k: int| (top + k, k)).push(
                (top + i, i as int),
            ));
        }
        i = i + 1;
    }
    proof {
        assert(dialog_rows_spec(count as int, top as int, height as int) =~= Seq::new(n as nat, |k: int| (top + k, k)));
    }
    r
}

/// What restoring the camera's defaults writes: each row that is readable,
/// writable and reports a default, with that default, in list order.
pub open spec fn reset_plan_spec(rows: Seq<Row>) -> Seq<(int, Seq<char>)>
    decreases rows.len(),
{
    if rows.len() == 0 {
        seq![]
    } else {
        let rest = reset_plan_spec(rows.drop_last());
        let r = rows.last();
        match r.default {
            Some(d) => if !(r.ctrl.kind is Razer) && r.writable {
                rest.push((rows.len() - 1, d@))
            } else {
                rest
            },
            None => rest,
        }
    }
}

/// A row whose default restoring writes back: one the camera reports back,
/// that can be written, and that has a default.
pub open spec fn restorable(r: Row) -> bool {
    !(r.ctrl.kind is Razer) && r.writable && r.default is Some
}

/// Restoring defaults writes exactly the rows that can take one: every
/// restorable row, the last one included, gets its own default, no other row
/// gets anything, and the writes go once each in list order.
pub proof fn lemma_reset_restores_every_restorable_row(rows: Seq<Row>)
    ensures
        forall|i: int| 0 <= i < rows.len() && restorable(#[trigger] rows[i]) ==> exists|k: int|
            0 <= k < reset_plan_spec(rows).len() && #[trigger] reset_plan_spec(rows)[k] == (i, rows[i].default->0@),
        forall|k: int| 0 <= k < reset_plan_spec(rows).len() ==> {
            let (i, d) = #[trigger] reset_plan_spec(rows)[k];
            0 <= i < rows.len() && restorable(rows[i]) && d == rows[i].default->0@
        },
        forall|a: int, b: int| 0 <= a < b < reset_plan_spec(rows).len() ==> #[trigger] reset_plan_spec(rows)[a].0
            < #[trigger] reset_plan_spec(rows)[b].0,
    decreases rows.len(),
{
    if rows.len() > 0 {
        let init = rows.drop_last();
        lemma_reset_restores_every_restorable_row(init);
        let rest = reset_plan_spec(init);
        let plan = reset_plan_spec(rows);
        let n = rows.len() - 1;
        assert forall|i: int| 0 <= i < n implies #[trigger] init[i] == rows[i] by {}
        if restorable(rows[n]) {
            assert(plan == rest.push((n, rows[n].default->0@)));
            assert(plan[rest.len() as int] == (n, rows[n].default->0@));
            assert forall|i: int| 0 <= i < rows.len() && restorable(#[trigger] rows[i]) implies exists|k: int|
                0 <= k < plan.len() && #[trigger] plan[k] == (i, rows[i].default->0@) by {
                if i < n {
                    assert(init[i] == rows[i]);
                    let k = choose|k: int| 0 <= k < rest.len() && #[trigger] rest[k] == (i, init[i].default->0@);
                    assert(plan[k] == rest[k]);
                } else {
                    assert(plan[rest.len() as int] == (i, rows[i].default->0@));
                }
            }
            assert forall|k: int| 0 <= k < plan.len() implies {
                let (i, d) = #[trigger] plan[k];
                0 <= i < rows.len() && restorable(rows[i]) && d == rows[i].default->0@
            } by {
                if k < rest.len() {
                    assert(plan[k] == rest[k]);
                    let (i, d) = rest[k];
                    assert(init[i] == rows[i]);
                }
            }
            assert forall|a: int, b: int| 0 <= a < b < plan.len() implies #[trigger] plan[a].0 < #[trigger] plan[b].0 by {
                assert(plan[a] == rest[a]);
                if b < rest.len() {
                    assert(plan[b] == rest[b]);
                } else {
                    let (i, d) = rest[a];
                    assert(0 <= i < init.len());
                }
            }
        } else {
            assert(plan == rest) by {
                match rows.last().default {
                    Some(d) => {},
                    None => {},
                }
            }
            assert forall|i: int| 0 <= i < rows.len() && restorable(#[trigger] rows[i]) implies exists|k: int|
                0 <= k < plan.len() && #[trigger] plan[k] == (i, rows[i].default->0@) by {
                assert(i < n);
                assert(init[i] == rows[i]);
            }
            assert forall|k: int| 0 <= k < plan.len() implies {
                let (i, d) = #[trigger] plan[k];
                0 <= i < rows.len() && restorable(rows[i]) && d == rows[i].default->0@
            } by {
                let (i, d) = rest[k];
                assert(init[i] == rows[i]);
            }
        }
    }
}

/// Stepping a numeric control with a range: the value proposed is the
/// current one moved by the stride and then held inside the range, and the
/// step is refused only when that leaves the value where it was. So a step up
/// from anywhere below the top of the range always proposes a write (the top
/// itself when the stride overshoots it), and a step down from anywhere above
/// the bottom likewise.
pub proof fn lemma_step_moves_within_range(rows: Seq<Row>, sel: int, direction: int, big: bool, status: Seq<char>)
    requires
        0 <= sel < rows.len(),
        guard_problem(rows, sel) is None,
        rows[sel].ctrl.kind is Int,
        rows[sel].range is Some,
        row_number(rows[sel]) is Some,
        direction == 1 || direction == -1,
    ensures
        ({
            let row = rows[sel];
            let cur = row_number(row)->0;
            let lo = (row.range->0).0 as int;
            let hi = (row.range->0).1 as int;
            let v = cur + direction * stride(row, big);
            let target = if v < lo { lo } else if v > hi { hi } else { v };
            let proposed = next_value_spec(rows, sel, direction, big, status).0;
            &&& lo <= hi ==> proposed == (if target == cur { None } else { Some(int_digits(target)) })
            &&& lo <= hi && stride(row, big) >= 1 && direction == 1 && lo <= cur < hi ==> proposed == Some(
                int_digits(if cur + stride(row, big) > hi { hi } else { cur + stride(row, big) }),
            )
            &&& lo <= hi && stride(row, big) >= 1 && direction == -1 && lo < cur <= hi ==> proposed == Some(
                int_digits(if cur - stride(row, big) < lo { lo } else { cur - stride(row, big) }),
            )
        }),
{
}

pub fn reset_plan(rows: &Vec<Row>) -> (r: Vec<(usize, String)>)
    ensures
        r@.map_values(|e: (usize, String)| (e.0 as int, e.1@)) == reset_plan_spec(rows@),
{
    let mut r: Vec<(usize, String)> = Vec::new();
    let mut i: usize = 0;
    while i < rows.len()
        invariant
            i <= rows@.len(),
            r@.map_values(|e: (usize, String)| (e.0 as int, e.1@)) == reset_plan_spec(rows@.subrange(0, i as int)),
        decreases rows.len() - i,
    {
        let ghost pre = rows@.subrange(0, i + 1);
        proof {
            assert(pre.drop_last() =~= rows@.subrange(0, i as int));
            assert(pre.last() == rows@[i as int]);
        }
        let ghost before = r@.map_values(|e: (usize, String)| (e.0 as int, e.1@));
        match &rows[i].default {
            Some(d) => {
                if !rows[i].ctrl.is_razer() && rows[i].writable {
                    r.push((i, d.clone()));
                    proof {
                        assert(r@.map_values(|e: (usize, String)| (e.0 as int, e.1@)) =~= before.push((i as int, d@)));
                    }
                }
            },
            None => {},
        }
        i = i + 1;
    }
    proof {
        assert(rows@.subrange(0, rows@.len() as int) =~= rows@);
    }
    r
}

/// The short list of keys at the foot of the screen, for a line `width`
/// cells wide.
pub fn keys_hint(editing: bool, width: u16) -> (r: &'static str)
    ensures
        r@ == (if editing {
            "digits · Enter confirm · Esc cancel"@
        } else if width >= 92 {
            "↑↓ move · ←→ adjust · Enter set · p profile · s save · a apply · R reset · ? help · q quit"@
        } else if width >= 60 {
            "↑↓ move · ←→ adjust · p profile · s save · ? help · q quit"@
        } else {
            "? help · q quit"@
        }),
{
    if editing {
        "digits · Enter confirm · Esc cancel"
    } else if width >= 92 {
        "↑↓ move · ←→ adjust · Enter set · p profile · s save · a apply · R reset · ? help · q quit"
    } else if width >= 60 {
        "↑↓ move · ←→ adjust · p profile · s save · ? help · q quit"
    } else {
        "? help · q quit"
    }
}

/// Draw a proportional bar for a numeric control.
pub fn bar(value: i64, lo: i64, hi: i64, width: usize) -> (r: String)
    requires
        i64::MIN <= value - lo <= i64::MAX,
        hi - lo <= i64::MAX,
    ensures
        r@ == bar_text(value as int, lo as int, hi as int, width as nat),
{
    if width == 0 || hi <= lo {
        let r = String::new();
        proof {
            assert(r@ =~= bar_text(value as int, lo as int, hi as int, width as nat));
        }
        return r;
    }
    let span: u128 = (hi - lo) as u128;
    let off: i64 = value - lo;
    let c: u128 = if off < 0 { 0 } else if off as u128 > span { span } else { off as u128 };
    let w = width as u128;
    assert(c * w <= 0x7fff_ffff_ffff_ffff * 0xffff_ffff_ffff_ffff) by (nonlinear_arith)
        requires
            c <= 0x7fff_ffff_ffff_ffff,
            w <= 0xffff_ffff_ffff_ffff,
    ;
    let filled: u128 = (2 * (c * w) + span) / (2 * span);
    proof {
        assert(filled as int == filled_cells(value as int, lo as int, hi as int, width as int));
    }
    let mut r = String::new();
    let mut i: usize = 0;
    while i < width
        invariant
            i <= width,
            r@ == Seq::new(i as nat, |k: int| if k < filled as int { '█' } else { '·' }),
        decreases width - i,
    {
        if (i as u128) < filled {
            r.push('█');
        } else {
            r.push('·');
        }
        i = i + 1;
        proof {
            assert(r@ =~= Seq::new(i as nat, |k: int| if k < filled as int { '█' } else { '·' }));
        }
    }
    proof {
        assert(r@ =~= bar_text(value as int, lo as int, hi as int, width as nat));
    }
    r
}

/// The number a row shows, when it shows one.
pub open spec fn row_number(row: Row) -> Option<int> {
    match row.value {
        Some(v) => parsed_i64(v@),
        None => None,
    }
}

pub open spec fn stride(row: Row, big: bool) -> int {
    row.step * (if big { 10int } else { 1int })
}

/// Stepping the row stays within machine integers, and its range is in order.
pub open spec fn can_step(row: Row, direction: int, big: bool) -> bool {
    row.ctrl.kind is Int ==> {
        &&& i64::MIN <= stride(row, big) <= i64::MAX
        &&& i64::MIN <= direction * stride(row, big) <= i64::MAX
        &&& (row_number(row) matches Some(cur) ==> i64::MIN <= cur + direction * stride(row, big) <= i64::MAX)
        &&& (row.range matches Some((lo, hi)) ==> lo <= hi)
    }
}

/// The new value for a step (or a cycle) of the selected control, and the
/// status line after asking: a numeric control moves by its resolution (ten
/// times that for a big step) and stops at the ends of its range; a choice
/// control cycles through its options, starting from an end when its value
/// is unknown.
pub open spec fn next_value_spec(rows: Seq<Row>, sel: int, direction: int, big: bool, status: Seq<char>) -> (Option<Seq<char>>, Seq<char>) {
    if rows.len() == 0 {
        (None, status)
    } else {
        match guard_problem(rows, sel) {
            Some(m) => (None, m),
            None => {
                let row = rows[sel];
                if row.ctrl.kind is Int {
                    match row_number(row) {
                        None => (None, row.ctrl.name@ + " has no readable value"@),
                        Some(cur) => {
                            let v = cur + direction * stride(row, big);
                            match row.range {
                                Some((lo, hi)) => if clamped(v, lo as int, hi as int) == cur {
                                    (None, row.ctrl.name@ + " is already at its "@ + (if direction < 0 { "minimum"@ } else { "maximum"@ }))
                                } else {
                                    (Some(int_digits(clamped(v, lo as int, hi as int))), status)
                                },
                                None => (Some(int_digits(v)), status),
                            }
                        },
                    }
                } else {
                    let options = match choices_spec(row.ctrl.kind) {
                        Some(o) => o,
                        None => Seq::empty(),
                    };
                    if options.len() == 0 {
                        (None, status)
                    } else {
                        let cur = match row.value {
                            Some(v) => v@,
                            None => Seq::empty(),
                        };
                        let idx = match index_from(options, cur, 0) {
                            Some(p) => (p + direction) % (options.len() as int),
                            None => if direction < 0 { options.len() - 1 } else { 0 },
                        };
                        (Some(options[idx]), status)
                    }
                }
            },
        }
    }
}

/// The first hit at or after `i` drawn on line `y`.
pub open spec fn first_hit_from(hits: Seq<Hit>, y: int, i: int) -> Option<int>
    decreases hits.len() - i,
{
    if i < 0 || i >= hits.len() {
        None
    } else if hits[i].y == y {
        Some(i)
    } else {
        first_hit_from(hits, y, i + 1)
    }
}

proof fn lemma_first_hit_from(hits: Seq<Hit>, y: int, i: int)
    requires
        0 <= i,
    ensures
        first_hit_from(hits, y, i) matches Some(k) ==> i <= k < hits.len() && hits[k].y == y,
    decreases hits.len() - i,
{
    if i < hits.len() && hits[i].y != y {
        lemma_first_hit_from(hits, y, i + 1);
    }
}

/// The first option at or after `i` under column `x` that is not already
/// the row's value.
pub open spec fn choice_at_from(cs: Seq<(u16, u16, &'static str)>, x: int, value: Option<String>, i: int) -> Option<Seq<char>>
    decreases cs.len() - i,
{
    if i < 0 || i >= cs.len() {
        None
    } else if cs[i].0 <= x < cs[i].1 && !(value matches Some(v) && v@ == cs[i].2@) {
        Some(cs[i].2@)
    } else {
        choice_at_from(cs, x, value, i + 1)
    }
}

/// A click (or, with `dragging`, a drag) at `(x, y)`: the new selection, the
/// status line and the action. A click selects the row under it; a drag only
/// ever affects the row it started on. On a bar it asks for the value under
/// the pointer, on an option name for that option, unless that is what the
/// row already shows.
pub open spec fn click_spec(u: Ui, x: int, y: int, dragging: bool) -> (int, Seq<char>, ActionView) {
    let sel = u.selected as int;
    let st = u.status@;
    match first_hit_from(u.hits@, y, 0) {
        None => (sel, st, ActionView::Nothing),
        Some(j) => {
            let hit = u.hits@[j];
            let index = hit.index as int;
            if dragging && sel != index {
                (sel, st, ActionView::Nothing)
            } else {
                let sel2 = if dragging { sel } else { index };
                match guard_problem(u.rows@, index) {
                    Some(m) => (sel2, m, ActionView::Nothing),
                    None => {
                        let row = u.rows@[index];
                        match hit.bar {
                            Some((x0, x1)) if x0 <= x < x1 => match value_at_spec(row, x, x0 as int, x1 as int) {
                                Some(v) if !(row.value matches Some(cur) && cur@ == int_digits(v)) => (sel2, st, ActionView::Write { row: index, value: int_digits(v) }),
                                _ => (sel2, st, ActionView::Nothing),
                            },
                            _ => match choice_at_from(hit.choices@, x, row.value, 0) {
                                Some(n) => (sel2, st, ActionView::Write { row: index, value: n }),
                                None => (sel2, st, ActionView::Nothing),
                            },
                        }
                    },
                }
            }
        },
    }
}

/// The part of the screen that events change.
pub struct Screen {
    pub selected: int,
    pub mode: ModeView,
    pub status: Seq<char>,
}

pub open spec fn screen_of(u: Ui) -> Screen {
    Screen { selected: u.selected as int, mode: u.mode@, status: u.status@ }
}

pub open spec fn popped(b: Seq<char>) -> Seq<char> {
    if b.len() == 0 {
        b
    } else {
        b.drop_last()
    }
}

/// Opening the profile dialog: every saved profile, then the entry for a new
/// one, starting on the profile in use.
pub open spec fn open_spec(u: Ui, sc: Screen, saved: Seq<Seq<char>>) -> Screen {
    let names = entries_spec(saved);
    Screen {
        mode: ModeView::Profiles {
            names,
            selected: match index_from(names, u.profile_name@, 0) {
                Some(i) => i,
                None => 0,
            },
        },
        ..sc
    }
}

/// Acting on entry `index` of the profile dialog: the new-profile entry asks
/// for a name, the profile in use stays, any other is switched to.
pub open spec fn choose_spec(u: Ui, sc: Screen, index: int) -> (Screen, ActionView) {
    match sc.mode {
        ModeView::Profiles { names, .. } => if 0 <= index < names.len() {
            let name = names[index];
            if name == NEW_PROFILE@ {
                (
                    Screen {
                        mode: ModeView::NewProfile { buffer: Seq::empty() },
                        status: "Name the new profile, Enter to create"@,
                        ..sc
                    },
                    ActionView::Nothing,
                )
            } else if name == u.profile_name@ {
                (Screen { mode: ModeView::Browse, status: "Already using '"@ + name + "'"@, ..sc }, ActionView::Nothing)
            } else {
                (Screen { mode: ModeView::Browse, ..sc }, ActionView::SwitchProfile(name))
            }
        } else {
            (sc, ActionView::Nothing)
        },
        _ => (sc, ActionView::Nothing),
    }
}

/// Keys while a dialog is open; None when no dialog claims the key.
pub open spec fn dialog_spec(u: Ui, sc: Screen, key: Key) -> Option<(Screen, ActionView)> {
    match sc.mode {
        ModeView::Profiles { names, selected } => {
            let len = names.len() as int;
            Some(
                match key.code {
                    KeyCode::Down | KeyCode::Char('j') => (
                        Screen { mode: ModeView::Profiles { names, selected: (selected + 1) % len }, ..sc },
                        ActionView::Nothing,
                    ),
                    KeyCode::Up | KeyCode::Char('k') => (
                        Screen { mode: ModeView::Profiles { names, selected: (selected + len - 1) % len }, ..sc },
                        ActionView::Nothing,
                    ),
                    KeyCode::Enter => choose_spec(u, sc, selected),
                    KeyCode::Esc | KeyCode::Char('q') | KeyCode::Char('p') => (
                        Screen { mode: ModeView::Browse, ..sc },
                        ActionView::Nothing,
                    ),
                    _ => (sc, ActionView::Nothing),
                },
            )
        },
        ModeView::NewProfile { buffer } => Some(
            match key.code {
                KeyCode::Char(c) => if name_char(c) {
                    (Screen { mode: ModeView::NewProfile { buffer: buffer.push(c) }, ..sc }, ActionView::Nothing)
                } else {
                    (sc, ActionView::Nothing)
                },
                KeyCode::Backspace => (
                    Screen { mode: ModeView::NewProfile { buffer: popped(buffer) }, ..sc },
                    ActionView::Nothing,
                ),
                KeyCode::Enter => if trimmed(buffer).len() == 0 {
                    (Screen { mode: ModeView::Browse, status: "Cancelled"@, ..sc }, ActionView::Nothing)
                } else {
                    (Screen { mode: ModeView::Browse, ..sc }, ActionView::CreateProfile(trimmed(buffer)))
                },
                KeyCode::Esc => (Screen { mode: ModeView::Browse, status: "Cancelled"@, ..sc }, ActionView::Nothing),
                _ => (sc, ActionView::Nothing),
            },
        ),
        _ => None,
    }
}

/// The first dialog line at or after `i` drawn on line `y`.
pub open spec fn menu_hit_from(hits: Seq<(u16, usize)>, y: int, i: int) -> Option<int>
    decreases hits.len() - i,
{
    if i < 0 || i >= hits.len() {
        None
    } else if hits[i].0 == y {
        Some(i)
    } else {
        menu_hit_from(hits, y, i + 1)
    }
}

proof fn lemma_menu_hit_from(hits: Seq<(u16, usize)>, y: int, i: int)
    requires
        0 <= i,
    ensures
        menu_hit_from(hits, y, i) matches Some(k) ==> i <= k < hits.len() && hits[k].0 == y,
    decreases hits.len() - i,
{
    if i < hits.len() && hits[i].0 != y {
        lemma_menu_hit_from(hits, y, i + 1);
    }
}

/// Fold a click's outcome into the screen.
pub open spec fn clicked(u: Ui, sc: Screen, x: int, y: int, dragging: bool) -> (Screen, ActionView) {
    let (sel, st, a) = click_spec(u, x, y, dragging);
    (Screen { selected: sel, status: st, ..sc }, a)
}

/// A mouse event. Any click dismisses help; in the profile dialog the wheel
/// moves the cursor, a click on an entry chooses it and a click elsewhere
/// closes the dialog; while typing the mouse is ignored; otherwise a click on
/// the profile name opens the dialog, the wheel moves the selection, and a
/// click or drag acts on the control under the pointer.
pub open spec fn mouse_spec(u: Ui, sc: Screen, ev: Mouse, saved: Seq<Seq<char>>) -> (Screen, ActionView) {
    match sc.mode {
        ModeView::Help => (
            if ev.kind is Down {
                Screen { mode: ModeView::Browse, ..sc }
            } else {
                sc
            },
            ActionView::Nothing,
        ),
        ModeView::Profiles { names, selected } => {
            let len = names.len() as int;
            match ev.kind {
                MouseKind::ScrollDown => (
                    Screen { mode: ModeView::Profiles { names, selected: (selected + 1) % len }, ..sc },
                    ActionView::Nothing,
                ),
                MouseKind::ScrollUp => (
                    Screen { mode: ModeView::Profiles { names, selected: (selected + len - 1) % len }, ..sc },
                    ActionView::Nothing,
                ),
                MouseKind::Down(MouseButton::Left) => match menu_hit_from(u.menu_hits@, ev.row as int, 0) {
                    Some(j) => {
                        let i = u.menu_hits@[j].1 as int;
                        choose_spec(u, Screen { mode: ModeView::Profiles { names, selected: i }, ..sc }, i)
                    },
                    None => (Screen { mode: ModeView::Browse, ..sc }, ActionView::Nothing),
                },
                _ => (sc, ActionView::Nothing),
            }
        },
        ModeView::Edit { .. } | ModeView::NewProfile { .. } => (sc, ActionView::Nothing),
        ModeView::Browse => if ev.kind matches MouseKind::Down(MouseButton::Left) && u.profile_hit matches Some(
            (x0, x1, y),
        ) && ev.row == y && x0 <= ev.column < x1 {
            (open_spec(u, sc, saved), ActionView::Nothing)
        } else {
            match ev.kind {
                MouseKind::ScrollDown => (
                    Screen { selected: moved(sc.selected, 1, u.rows@.len() as int), ..sc },
                    ActionView::Nothing,
                ),
                MouseKind::ScrollUp => (
                    Screen { selected: moved(sc.selected, -1, u.rows@.len() as int), ..sc },
                    ActionView::Nothing,
                ),
                MouseKind::Down(MouseButton::Left) => clicked(u, sc, ev.column as int, ev.row as int, false),
                MouseKind::Drag(MouseButton::Left) => clicked(u, sc, ev.column as int, ev.row as int, true),
                _ => (sc, ActionView::Nothing),
            }
        },
    }
}

/// A step of the selected control, as an action: a write of the next value,
/// or nothing with the reason in the status line.
pub open spec fn step_spec(u: Ui, sc: Screen, direction: int, big: bool) -> (Screen, ActionView) {
    let (v, st) = next_value_spec(u.rows@, sc.selected, direction, big, sc.status);
    match v {
        Some(val) => (Screen { status: st, ..sc }, ActionView::Write { row: sc.selected, value: val }),
        None => (Screen { status: st, ..sc }, ActionView::Nothing),
    }
}

/// Keys while browsing the control list.
pub open spec fn browse_spec(u: Ui, sc: Screen, key: Key, saved: Seq<Seq<char>>) -> (Screen, ActionView) {
    let len = u.rows@.len() as int;
    let sel = sc.selected;
    match key.code {
        KeyCode::Char('q') | KeyCode::Esc => (sc, ActionView::Quit),
        KeyCode::Char('c') if key.control => (sc, ActionView::Quit),
        KeyCode::Down | KeyCode::Char('j') => (Screen { selected: moved(sel, 1, len), ..sc }, ActionView::Nothing),
        KeyCode::Up | KeyCode::Char('k') => (Screen { selected: moved(sel, -1, len), ..sc }, ActionView::Nothing),
        KeyCode::PageDown => (Screen { selected: moved(sel, 10, len), ..sc }, ActionView::Nothing),
        KeyCode::PageUp => (Screen { selected: moved(sel, -10, len), ..sc }, ActionView::Nothing),
        KeyCode::Home => (Screen { selected: 0, ..sc }, ActionView::Nothing),
        KeyCode::End => (Screen { selected: if len == 0 { 0 } else { len - 1 }, ..sc }, ActionView::Nothing),
        KeyCode::Left | KeyCode::Char('h') => step_spec(u, sc, -1, key.shift),
        KeyCode::Right | KeyCode::Char('l') => step_spec(u, sc, 1, key.shift),
        KeyCode::Char('H') => step_spec(u, sc, -1, true),
        KeyCode::Char('L') => step_spec(u, sc, 1, true),
        KeyCode::Enter => if len == 0 {
            (sc, ActionView::Nothing)
        } else if u.rows@[sel].ctrl.kind is Int {
            (
                Screen {
                    mode: ModeView::Edit { buffer: Seq::empty() },
                    status: "Type a value for "@ + u.rows@[sel].ctrl.name@ + ", Enter to confirm"@,
                    ..sc
                },
                ActionView::Nothing,
            )
        } else {
            step_spec(u, sc, 1, false)
        },
        KeyCode::Char('d') => match u.rows@[sel].default {
            Some(v) => (sc, ActionView::Write { row: sel, value: v@ }),
            None => (Screen { status: u.rows@[sel].ctrl.name@ + " has no reported default"@, ..sc }, ActionView::Nothing),
        },
        KeyCode::Char('s') => (sc, ActionView::SaveProfile),
        KeyCode::Char('a') => (sc, ActionView::ApplyProfile),
        KeyCode::Char('R') => (sc, ActionView::ResetDefaults),
        KeyCode::Char('r') => (sc, ActionView::Reload),
        KeyCode::Char('p') => (open_spec(u, sc, saved), ActionView::Nothing),
        KeyCode::Char('?') => (Screen { mode: ModeView::Help, ..sc }, ActionView::Nothing),
        _ => (sc, ActionView::Nothing),
    }
}

/// A key press: an open dialog takes it first; while typing a number, digits
/// and `-` are collected and Enter writes them (unless the control is locked);
/// any key closes help; otherwise the browse keys apply.
pub open spec fn key_spec(u: Ui, sc: Screen, key: Key, saved: Seq<Seq<char>>) -> (Screen, ActionView) {
    match dialog_spec(u, sc, key) {
        Some(r) => r,
        None => match sc.mode {
            ModeView::Edit { buffer } => match key.code {
                KeyCode::Char(c) => if number_char(c) {
                    (Screen { mode: ModeView::Edit { buffer: buffer.push(c) }, ..sc }, ActionView::Nothing)
                } else {
                    (sc, ActionView::Nothing)
                },
                KeyCode::Backspace => (Screen { mode: ModeView::Edit { buffer: popped(buffer) }, ..sc }, ActionView::Nothing),
                KeyCode::Enter => if trimmed(buffer).len() == 0 {
                    (Screen { mode: ModeView::Browse, status: "Cancelled"@, ..sc }, ActionView::Nothing)
                } else {
                    match blocked_spec(u.rows@, u.rows@[sc.selected]) {
                        Some(why) => (
                            Screen {
                                mode: ModeView::Browse,
                                status: u.rows@[sc.selected].ctrl.name@ + " is not adjustable now — "@ + why,
                                ..sc
                            },
                            ActionView::Nothing,
                        ),
                        None => (
                            Screen { mode: ModeView::Browse, ..sc },
                            ActionView::Write { row: sc.selected, value: trimmed(buffer) },
                        ),
                    }
                },
                KeyCode::Esc => (Screen { mode: ModeView::Browse, status: "Cancelled"@, ..sc }, ActionView::Nothing),
                _ => (sc, ActionView::Nothing),
            },
            ModeView::Help => (Screen { mode: ModeView::Browse, ..sc }, ActionView::Nothing),
            _ => browse_spec(u, sc, key, saved),
        },
    }
}

/// A step of the selected control stays within machine integers.
pub open spec fn steppable(u: Ui, direction: int, big: bool) -> bool {
    u.rows@.len() > 0 && guard_problem(u.rows@, u.selected as int) is None
        ==> can_step(u.rows@[u.selected as int], direction, big)
}

/// The inputs on which a key press is defined: `d` needs a row to read the
/// default of, and a numeric step must stay within machine integers. Enter
/// needs nothing: on a numeric row it opens the editor, and on any other row
/// it cycles the options, which involves no arithmetic.
pub open spec fn key_defined(u: Ui, key: Key) -> bool {
    u.mode is Browse ==> match key.code {
        KeyCode::Char('d') => u.rows@.len() > 0,
        KeyCode::Left | KeyCode::Char('h') => steppable(u, -1, key.shift),
        KeyCode::Right | KeyCode::Char('l') => steppable(u, 1, key.shift),
        KeyCode::Char('H') => steppable(u, -1, true),
        KeyCode::Char('L') => steppable(u, 1, true),
        _ => true,
    }
}

impl Ui {
    /// Whether stepping the selected control by `direction` stays within
    /// machine integers: [`steppable`] as a check.
    fn can_step_selected(&self, direction: i64, big: bool) -> (r: bool)
        requires
            self.wf(),
            direction == 1 || direction == -1,
        ensures
            r == steppable(*self, direction as int, big),
    {
        if self.rows.len() == 0 {
            return true;
        }
        let row = &self.rows[self.selected];
        if !row.writable || self.blocked_by(row).is_some() || !row.numeric() {
            return true;
        }
        let stride = match row.step.checked_mul(if big { 10 } else { 1 }) {
            Some(s) => s,
            None => return false,
        };
        let delta = match stride.checked_mul(direction) {
            Some(d) => d,
            None => return false,
        };
        if let Some(v) = &row.value {
            if let Some(cur) = parse_i64(v.as_str()) {
                if cur.checked_add(delta).is_none() {
                    return false;
                }
            }
        }
        match row.range {
            Some((lo, hi)) => lo <= hi,
            None => true,
        }
    }

    /// Whether this state can take `key`: [`key_defined`] as a check, for a
    /// caller to make before [`Ui::on_key`].
    pub fn takes_key(&self, key: &Key) -> (r: bool)
        requires
            self.wf(),
        ensures
            r == key_defined(*self, *key),
    {
        match &self.mode {
            Mode::Browse => {},
            _ => return true,
        }
        match key.code {
            KeyCode::Char('d') => self.rows.len() > 0,
            KeyCode::Left | KeyCode::Char('h') => self.can_step_selected(-1, key.shift),
            KeyCode::Right | KeyCode::Char('l') => self.can_step_selected(1, key.shift),
            KeyCode::Char('H') => self.can_step_selected(-1, true),
            KeyCode::Char('L') => self.can_step_selected(1, true),
            _ => true,
        }
    }
}

proof fn lemma_quot_bounds(q: int, s: int)
    requires
        q >= 0,
        s >= 1,
    ensures
        0 <= q / s <= q,
        0 <= (q / s) * s <= q,
{
    vstd::arithmetic::div_mod::lemma_div_pos_is_pos(q, s);
    vstd::arithmetic::div_mod::lemma_div_is_ordered_by_denominator(q, 1, s);
    vstd::arithmetic::div_mod::lemma_fundamental_div_mod(q, s);
    vstd::arithmetic::div_mod::lemma_mod_pos_bound(q, s);
    vstd::arithmetic::mul::lemma_mul_is_commutative(s, q / s);
}


fn is_name_char(c: char) -> (r: bool)
    ensures
        r == name_char(c),
{
    ('0' <= c && c <= '9') || ('a' <= c && c <= 'z') || ('A' <= c && c <= 'Z') || c == '-' || c == '_'
}

fn is_number_char(c: char) -> (r: bool)
    ensures
        r == number_char(c),
{
    ('0' <= c && c <= '9') || c == '-'
}

/// The dialog cursor after moving one entry down or up, wrapping.
fn cursor_step(selected: usize, len: usize, down: bool) -> (r: usize)
    requires
        len > 0,
    ensures
        r as int == (if down { (selected + 1) % (len as int) } else { (selected + len - 1) % (len as int) }),
{
    let s = selected as u128;
    let n = len as u128;
    let r = if down { (s + 1) % n } else { (s + n - 1) % n };
    r as usize
}


impl Ui {
    /// The facts every method relies on: the selection points at a row, the
    /// click map names real rows, and an open dialog has entries.
    pub open spec fn wf(&self) -> bool {
        &&& (self.rows@.len() > 0 ==> self.selected < self.rows@.len())
        &&& (self.mode is Edit ==> self.rows@.len() > 0)
        &&& forall|j: int| 0 <= j < self.hits@.len() ==> #[trigger] self.hits@[j].index < self.rows@.len()
        &&& (self.mode matches Mode::Profiles { names, .. } ==> names@.len() > 0)
    }

    /// Everything but the selection, the mode and the status line.
    pub open spec fn same_frame(&self, other: &Ui) -> bool {
        &&& self.device_name == other.device_name
        &&& self.vid == other.vid
        &&& self.pid == other.pid
        &&& self.profile_name == other.profile_name
        &&& self.rows == other.rows
        &&& self.dirty == other.dirty
        &&& self.hits == other.hits
        &&& self.profile_hit == other.profile_hit
        &&& self.menu_hits == other.menu_hits
        &&& self.unclaimed == other.unclaimed
    }

    pub fn selected(&self) -> (r: usize)
        ensures
            r == self.selected,
    {
        self.selected
    }

    /// Why the control on `row` cannot be changed right now, if it cannot.
    pub fn blocked_by(&self, row: &Row) -> (r: Option<String>)
        ensures
            opt_str(r) == blocked_spec(self.rows@, *row),
    {
        let (dep, allowed) = match row.ctrl.requires {
            Some(p) => p,
            None => return None,
        };
        let mut i: usize = 0;
        while i < self.rows.len() && !str_eq(self.rows[i].ctrl.name, dep)
            invariant
                i <= self.rows@.len(),
                row_named(self.rows@, dep@) == row_named_from(self.rows@, dep@, i as int),
            decreases self.rows.len() - i,
        {
            i = i + 1;
        }
        if i == self.rows.len() {
            return None;
        }
        let current = match &self.rows[i].value {
            Some(v) => v,
            None => return None,
        };
        if strs_contain(allowed, current.as_str()) {
            return None;
        }
        let parts = strs_vec(allowed);
        let alts = join(&parts, " or ");
        proof {
            assert(parts@.map_values(|p: &str| p@) =~= strs_view(allowed@));
        }
        let mut msg = String::from_str(dep);
        append_str(&mut msg, " is ");
        append_str(&mut msg, current.as_str());
        append_str(&mut msg, "; set it to ");
        append_str(&mut msg, alts.as_str());
        Some(msg)
    }

    /// Refuse, with a reason in the status line, when the control on row
    /// `index` cannot be changed right now.
    pub fn guard(&mut self, index: usize) -> (r: bool)
        requires
            old(self).wf(),
            index < old(self).rows@.len(),
        ensures
            final(self).wf(),
            final(self).same_frame(old(self)),
            final(self).selected == old(self).selected,
            final(self).mode@ == old(self).mode@,
            r == guard_problem(old(self).rows@, index as int) is None,
            final(self).status@ == (match guard_problem(old(self).rows@, index as int) {
                Some(m) => m,
                None => old(self).status@,
            }),
    {
        let problem: Option<String> = if !self.rows[index].writable {
            let mut m = String::from_str(self.rows[index].ctrl.name);
            append_str(&mut m, " is read-only");
            Some(m)
        } else {
            match self.blocked_by(&self.rows[index]) {
                Some(why) => {
                    let mut m = String::from_str(self.rows[index].ctrl.name);
                    append_str(&mut m, " is not adjustable now — ");
                    append_str(&mut m, why.as_str());
                    Some(m)
                },
                None => None,
            }
        };
        match problem {
            Some(m) => {
                self.status = m;
                false
            },
            None => true,
        }
    }

    /// The value for a click at column `x` on a bar spanning `[x0, x1)`.
    pub fn value_at(&self, index: usize, x: u16, x0: u16, x1: u16) -> (r: Option<String>)
        requires
            index < self.rows@.len(),
        ensures
            opt_str(r) == (match value_at_spec(self.rows@[index as int], x as int, x0 as int, x1 as int) {
                Some(v) => Some(int_digits(v)),
                None => None,
            }),
    {
        let row = &self.rows[index];
        let (lo, hi) = match row.range {
            Some(p) => p,
            None => return None,
        };
        let width: u16 = if x1 > x0 { x1 - x0 } else { 0 };
        if width == 0 || hi <= lo {
            return None;
        }
        if width > 1 && x >= x1 - 1 {
            return Some(fmt_int(hi));
        }
        let lo_w = lo as i128;
        let hi_w = hi as i128;
        let raw: i128 = if width > 1 {
            let d = (width - 1) as i128;
            let k0: i128 = if x > x0 { (x - x0) as i128 } else { 0 };
            let k: i128 = if k0 > d { d } else { k0 };
            assert(k * (hi_w - lo_w) <= 0xffff * 0xffff_ffff_ffff_ffff) by (nonlinear_arith)
                requires
                    0 <= k <= 0xffff,
                    0 < hi_w - lo_w <= 0xffff_ffff_ffff_ffff,
            ;
            assert(-0x8000_0000_0000_0000 * 0xffff <= lo_w * d <= 0x7fff_ffff_ffff_ffff * 0xffff) by (nonlinear_arith)
                requires
                    -0x8000_0000_0000_0000 <= lo_w <= 0x7fff_ffff_ffff_ffff,
                    0 < d <= 0xffff,
            ;
            let n = lo_w * d + k * (hi_w - lo_w);
            if n >= 0 {
                (2 * n + d) / (2 * d)
            } else {
                0 - ((0 - 2 * n + d) / (2 * d))
            }
        } else {
            lo_w
        };
        proof {
            if width > 1 {
                let d = (width - 1) as int;
                let k = clamped(x - x0, 0, d);
                let n = lo * d + k * (hi - lo);
                assert(k * (hi - lo) <= 0xffff * 0xffff_ffff_ffff_ffff) by (nonlinear_arith)
                    requires
                        0 <= k <= 0xffff,
                        0 < hi - lo <= 0xffff_ffff_ffff_ffff,
                ;
                assert(-0x8000_0000_0000_0000 * 0xffff <= lo * d <= 0x7fff_ffff_ffff_ffff * 0xffff) by (nonlinear_arith)
                    requires
                        -0x8000_0000_0000_0000 <= lo <= 0x7fff_ffff_ffff_ffff,
                        0 < d <= 0xffff,
                ;
                if n >= 0 {
                    lemma_quot_bounds(2 * n + d, 2 * d);
                } else {
                    lemma_quot_bounds(-2 * n + d, 2 * d);
                }
            }
        }
        let step: i128 = if row.step >= 1 { row.step as i128 } else { 1 };
        let q = raw - lo_w + step / 2;
        let snapped: i128 = if q >= 0 {
            proof {
                lemma_quot_bounds(q as int, step as int);
            }
            lo_w + q / step * step
        } else {
            proof {
                lemma_quot_bounds(-q, step as int);
            }
            lo_w - (0 - q) / step * step
        };
        let c: i128 = if snapped < lo_w { lo_w } else if snapped > hi_w { hi_w } else { snapped };
        proof {
            let width_s = if x1 > x0 { x1 - x0 } else { 0 };
            assert(width_s == width as int);
            let raw_s = if width_s > 1 {
                let k = clamped(x - x0, 0, width_s - 1);
                round_div(lo * (width_s - 1) + k * (hi - lo), width_s - 1)
            } else {
                lo as int
            };
            assert(raw == raw_s);
            let step_s = if row.step >= 1 { row.step as int } else { 1 };
            assert(step == step_s);
            if q < 0 {
                let qq = -(q as int);
                let ss = step as int;
                assert(-(qq / ss) * ss == -((qq / ss) * ss)) by (nonlinear_arith);
            }
            assert(snapped == lo + trunc_div(raw_s - lo + step_s / 2, step_s) * step_s);
        }
        Some(fmt_int(c as i64))
    }

    /// Work out the new value for a step or a cycle of the selected control.
    pub fn next_value(&mut self, direction: i64, big: bool) -> (r: Option<String>)
        requires
            old(self).wf(),
            direction == 1 || direction == -1,
            old(self).rows@.len() > 0 && guard_problem(old(self).rows@, old(self).selected as int) is None
                ==> can_step(old(self).rows@[old(self).selected as int], direction as int, big),
        ensures
            final(self).wf(),
            final(self).same_frame(old(self)),
            final(self).selected == old(self).selected,
            final(self).mode@ == old(self).mode@,
            (opt_str(r), final(self).status@) == next_value_spec(
                old(self).rows@,
                old(self).selected as int,
                direction as int,
                big,
                old(self).status@,
            ),
    {
        if self.rows.len() == 0 {
            return None;
        }
        let sel = self.selected;
        if !self.guard(sel) {
            return None;
        }
        let row = &self.rows[sel];
        match row.ctrl.kind {
            Kind::Int { .. } => {
                let cur = match &row.value {
                    Some(v) => parse_i64(v.as_str()),
                    None => None,
                };
                let c = match cur {
                    Some(c) => c,
                    None => {
                        let mut m = String::from_str(row.ctrl.name);
                        append_str(&mut m, " has no readable value");
                        self.status = m;
                        return None;
                    },
                };
                let mult: i64 = if big { 10 } else { 1 };
                let stride: i64 = row.step * mult;
                let v: i64 = c + direction * stride;
                match row.range {
                    Some((lo, hi)) => {
                        let w: i64 = if v < lo { lo } else if v > hi { hi } else { v };
                        if w == c {
                            let mut m = String::from_str(row.ctrl.name);
                            append_str(&mut m, " is already at its ");
                            append_str(&mut m, if direction < 0 { "minimum" } else { "maximum" });
                            self.status = m;
                            return None;
                        }
                        Some(fmt_int(w))
                    },
                    None => Some(fmt_int(v)),
                }
            },
            _ => {
                let options: Vec<&'static str> = match row.ctrl.choices() {
                    Some(o) => o,
                    None => Vec::new(),
                };
                let ghost opts = options@.map_values(|a: &'static str| a@);
                if options.len() == 0 {
                    return None;
                }
                let cur: &str = match &row.value {
                    Some(v) => v.as_str(),
                    None => "",
                };
                proof {
                    reveal_strlit("");
                    assert(cur@ == (match row.value {
                        Some(v) => v@,
                        None => Seq::<char>::empty(),
                    }));
                }
                let mut p: usize = 0;
                while p < options.len() && !str_eq(options[p], cur)
                    invariant
                        p <= options@.len(),
                        opts == options@.map_values(|a: &'static str| a@),
                        index_from(opts, cur@, 0) == index_from(opts, cur@, p as int),
                    decreases options.len() - p,
                {
                    p = p + 1;
                }
                let n = options.len();
                let idx: usize = if p < n {
                    proof {
                        lemma_index_from(opts, cur@, 0);
                        if direction < 0 {
                            vstd::arithmetic::div_mod::lemma_mod_add_multiples_vanish(p - 1, n as int);
                            if p > 0 {
                                vstd::arithmetic::div_mod::lemma_small_mod((p - 1) as nat, n as nat);
                            } else {
                                vstd::arithmetic::div_mod::lemma_small_mod((n - 1) as nat, n as nat);
                            }
                        }
                    }
                    if direction > 0 {
                        (p + 1) % n
                    } else if p == 0 {
                        n - 1
                    } else {
                        p - 1
                    }
                } else if direction < 0 {
                    n - 1
                } else {
                    0
                };
                Some(String::from_str(options[idx]))
            },
        }
    }

    /// Map a click or drag onto a control.
    #[verifier::loop_isolation(false)]
    pub fn click(&mut self, x: u16, y: u16, dragging: bool) -> (r: Action)
        requires
            old(self).wf(),
        ensures
            final(self).wf(),
            final(self).same_frame(old(self)),
            final(self).mode@ == old(self).mode@,
            (final(self).selected as int, final(self).status@, r@) == click_spec(*old(self), x as int, y as int, dragging),
    {
        let mut j: usize = 0;
        while j < self.hits.len() && self.hits[j].y != y
            invariant
                j <= self.hits@.len(),
                first_hit_from(self.hits@, y as int, 0) == first_hit_from(self.hits@, y as int, j as int),
            decreases self.hits.len() - j,
        {
            j = j + 1;
        }
        if j == self.hits.len() {
            return Action::Nothing;
        }
        let index = self.hits[j].index;
        if dragging {
            if self.selected != index {
                return Action::Nothing;
            }
        } else {
            self.selected = index;
        }
        if !self.guard(index) {
            return Action::Nothing;
        }
        match self.hits[j].bar {
            Some((x0, x1)) => {
                if x >= x0 && x < x1 {
                    let value = self.value_at(index, x, x0, x1);
                    return match value {
                        Some(v) => {
                            let same = match &self.rows[index].value {
                                Some(cur) => str_eq(cur.as_str(), v.as_str()),
                                None => false,
                            };
                            if same {
                                Action::Nothing
                            } else {
                                Action::Write { row: index, value: v }
                            }
                        },
                        None => Action::Nothing,
                    };
                }
            },
            None => {},
        }
        let n = self.hits[j].choices.len();
        let mut c: usize = 0;
        while c < n
            invariant
                c <= n,
                j < self.hits@.len(),
                index < self.rows@.len(),
                n == self.hits@[j as int].choices@.len(),
                choice_at_from(self.hits@[j as int].choices@, x as int, self.rows@[index as int].value, 0)
                    == choice_at_from(self.hits@[j as int].choices@, x as int, self.rows@[index as int].value, c as int),
            decreases n - c,
        {
            let (c0, c1, name) = self.hits[j].choices[c];
            if x >= c0 && x < c1 {
                let same = match &self.rows[index].value {
                    Some(cur) => str_eq(cur.as_str(), name),
                    None => false,
                };
                if !same {
                    return Action::Write { row: index, value: String::from_str(name) };
                }
            }
            c = c + 1;
        }
        Action::Nothing
    }

    pub fn open_profiles(&mut self, saved: &Vec<String>)
        requires
            old(self).wf(),
        ensures
            final(self).wf(),
            final(self).same_frame(old(self)),
            screen_of(*final(self)) == open_spec(*old(self), screen_of(*old(self)), str_views(saved@)),
    {
        let names = profile_entries(saved);
        let ghost views = str_views(names@);
        let mut i: usize = 0;
        while i < names.len() && !str_eq(names[i].as_str(), self.profile_name.as_str())
            invariant
                i <= names@.len(),
                views == str_views(names@),
                index_from(views, self.profile_name@, 0) == index_from(views, self.profile_name@, i as int),
            decreases names.len() - i,
        {
            i = i + 1;
        }
        let selected = if i < names.len() { i } else { 0 };
        self.mode = Mode::Profiles { names, selected };
        proof {
            assert(screen_of(*self).mode == open_spec(*old(self), screen_of(*old(self)), str_views(saved@)).mode);
        }
    }

    /// Act on entry `index` of the profile dialog.
    pub fn choose_profile(&mut self, index: usize) -> (r: Action)
        requires
            old(self).wf(),
        ensures
            final(self).wf(),
            final(self).same_frame(old(self)),
            (screen_of(*final(self)), r@) == choose_spec(*old(self), screen_of(*old(self)), index as int),
    {
        let name: String = match &self.mode {
            Mode::Profiles { names, .. } => {
                if index < names.len() {
                    names[index].clone()
                } else {
                    return Action::Nothing;
                }
            },
            _ => return Action::Nothing,
        };
        if str_eq(name.as_str(), NEW_PROFILE) {
            self.mode = Mode::NewProfile { buffer: String::new() };
            self.status = String::from_str("Name the new profile, Enter to create");
            return Action::Nothing;
        }
        self.mode = Mode::Browse;
        if str_eq(name.as_str(), self.profile_name.as_str()) {
            let mut m = String::from_str("Already using '");
            append_str(&mut m, name.as_str());
            append_str(&mut m, "'");
            self.status = m;
            return Action::Nothing;
        }
        Action::SwitchProfile(name)
    }

    /// Keys handled while a dialog is open. None when no dialog claims the
    /// key.
    pub fn dialog_key(&mut self, key: Key) -> (r: Option<Action>)
        requires
            old(self).wf(),
        ensures
            final(self).wf(),
            final(self).same_frame(old(self)),
            match r {
                Some(a) => dialog_spec(*old(self), screen_of(*old(self)), key) == Some((screen_of(*final(self)), a@)),
                None => dialog_spec(*old(self), screen_of(*old(self)), key) is None && screen_of(*final(self)) == screen_of(*old(self)),
            },
    {
        let mut m = Mode::Browse;
        std::mem::swap(&mut m, &mut self.mode);
        match m {
            Mode::Profiles { names, selected } => {
                let len = names.len();
                match key.code {
                    KeyCode::Down | KeyCode::Char('j') => {
                        self.mode = Mode::Profiles { names, selected: cursor_step(selected, len, true) };
                    },
                    KeyCode::Up | KeyCode::Char('k') => {
                        self.mode = Mode::Profiles { names, selected: cursor_step(selected, len, false) };
                    },
                    KeyCode::Enter => {
                        self.mode = Mode::Profiles { names, selected };
                        return Some(self.choose_profile(selected));
                    },
                    KeyCode::Esc | KeyCode::Char('q') | KeyCode::Char('p') => {},
                    _ => {
                        self.mode = Mode::Profiles { names, selected };
                    },
                }
                Some(Action::Nothing)
            },
            Mode::NewProfile { buffer } => {
                match key.code {
                    KeyCode::Char(c) => {
                        if is_name_char(c) {
                            let mut b = buffer;
                            b.push(c);
                            self.mode = Mode::NewProfile { buffer: b };
                        } else {
                            self.mode = Mode::NewProfile { buffer };
                        }
                    },
                    KeyCode::Backspace => {
                        self.mode = Mode::NewProfile { buffer: pop_char(&buffer) };
                    },
                    KeyCode::Enter => {
                        let name = trim(buffer.as_str());
                        if name.unicode_len() == 0 {
                            self.status = String::from_str("Cancelled");
                            return Some(Action::Nothing);
                        }
                        return Some(Action::CreateProfile(name));
                    },
                    KeyCode::Esc => {
                        self.status = String::from_str("Cancelled");
                    },
                    _ => {
                        self.mode = Mode::NewProfile { buffer };
                    },
                }
                Some(Action::Nothing)
            },
            other => {
                self.mode = other;
                None
            },
        }
    }

    /// Translate a mouse event into an action. `saved` is what the profile
    /// dialog lists if the event opens it.
    pub fn on_mouse(&mut self, ev: Mouse, saved: &Vec<String>) -> (r: Action)
        requires
            old(self).wf(),
        ensures
            final(self).wf(),
            final(self).same_frame(old(self)),
            (screen_of(*final(self)), r@) == mouse_spec(*old(self), screen_of(*old(self)), ev, str_views(saved@)),
    {
        match &self.mode {
            Mode::Help => {
                match ev.kind {
                    MouseKind::Down(_) => {
                        self.mode = Mode::Browse;
                    },
                    _ => {},
                }
                return Action::Nothing;
            },
            Mode::Profiles { .. } => {
                let mut m = Mode::Browse;
                std::mem::swap(&mut m, &mut self.mode);
                if let Mode::Profiles { names, selected } = m {
                    let len = names.len();
                    match ev.kind {
                        MouseKind::ScrollDown => {
                            self.mode = Mode::Profiles { names, selected: cursor_step(selected, len, true) };
                        },
                        MouseKind::ScrollUp => {
                            self.mode = Mode::Profiles { names, selected: cursor_step(selected, len, false) };
                        },
                        MouseKind::Down(MouseButton::Left) => {
                            let mut j: usize = 0;
                            while j < self.menu_hits.len() && self.menu_hits[j].0 != ev.row
                                invariant
                                    j <= self.menu_hits@.len(),
                                    menu_hit_from(self.menu_hits@, ev.row as int, 0) == menu_hit_from(
                                        self.menu_hits@,
                                        ev.row as int,
                                        j as int,
                                    ),
                                decreases self.menu_hits.len() - j,
                            {
                                j = j + 1;
                            }
                            if j < self.menu_hits.len() {
                                proof {
                                    lemma_menu_hit_from(self.menu_hits@, ev.row as int, 0);
                                }
                                let i = self.menu_hits[j].1;
                                self.mode = Mode::Profiles { names, selected: i };
                                return self.choose_profile(i);
                            }
                        },
                        _ => {
                            self.mode = Mode::Profiles { names, selected };
                        },
                    }
                }
                return Action::Nothing;
            },
            Mode::Edit { .. } | Mode::NewProfile { .. } => {
                return Action::Nothing;
            },
            Mode::Browse => {},
        }
        match ev.kind {
            MouseKind::Down(MouseButton::Left) => {
                match self.profile_hit {
                    Some((x0, x1, y)) => {
                        if ev.row == y && ev.column >= x0 && ev.column < x1 {
                            self.open_profiles(saved);
                            return Action::Nothing;
                        }
                    },
                    None => {},
                }
            },
            _ => {},
        }
        match ev.kind {
            MouseKind::ScrollDown => {
                self.move_by(1);
                Action::Nothing
            },
            MouseKind::ScrollUp => {
                self.move_by(-1);
                Action::Nothing
            },
            MouseKind::Down(MouseButton::Left) => self.click(ev.column, ev.row, false),
            MouseKind::Drag(MouseButton::Left) => self.click(ev.column, ev.row, true),
            _ => Action::Nothing,
        }
    }

    fn step(&mut self, direction: i64, big: bool) -> (r: Action)
        requires
            old(self).wf(),
            direction == 1 || direction == -1,
            steppable(*old(self), direction as int, big),
        ensures
            final(self).wf(),
            final(self).same_frame(old(self)),
            (screen_of(*final(self)), r@) == step_spec(*old(self), screen_of(*old(self)), direction as int, big),
    {
        match self.next_value(direction, big) {
            Some(value) => Action::Write { row: self.selected, value },
            None => Action::Nothing,
        }
    }

    /// Translate a key press into an action, updating only what the screen
    /// shows. `saved` is what the profile dialog lists if the key opens it.
    pub fn on_key(&mut self, key: Key, saved: &Vec<String>) -> (r: Action)
        requires
            old(self).wf(),
            key_defined(*old(self), key),
        ensures
            final(self).wf(),
            final(self).same_frame(old(self)),
            (screen_of(*final(self)), r@) == key_spec(*old(self), screen_of(*old(self)), key, str_views(saved@)),
    {
        match self.dialog_key(key) {
            Some(a) => return a,
            None => {},
        }
        match &self.mode {
            Mode::Edit { .. } => {
                let mut m = Mode::Browse;
                std::mem::swap(&mut m, &mut self.mode);
                if let Mode::Edit { buffer } = m {
                    match key.code {
                        KeyCode::Char(c) => {
                            if is_number_char(c) {
                                let mut b = buffer;
                                b.push(c);
                                self.mode = Mode::Edit { buffer: b };
                            } else {
                                self.mode = Mode::Edit { buffer };
                            }
                        },
                        KeyCode::Backspace => {
                            self.mode = Mode::Edit { buffer: pop_char(&buffer) };
                        },
                        KeyCode::Enter => {
                            let text = trim(buffer.as_str());
                            if text.unicode_len() == 0 {
                                self.status = String::from_str("Cancelled");
                                return Action::Nothing;
                            }
                            let row = self.selected;
                            match self.blocked_by(&self.rows[row]) {
                                Some(why) => {
                                    let mut msg = String::from_str(self.rows[row].ctrl.name);
                                    append_str(&mut msg, " is not adjustable now — ");
                                    append_str(&mut msg, why.as_str());
                                    self.status = msg;
                                    return Action::Nothing;
                                },
                                None => return Action::Write { row, value: text },
                            }
                        },
                        KeyCode::Esc => {
                            self.status = String::from_str("Cancelled");
                        },
                        _ => {
                            self.mode = Mode::Edit { buffer };
                        },
                    }
                }
                return Action::Nothing;
            },
            Mode::Help => {
                self.mode = Mode::Browse;
                return Action::Nothing;
            },
            _ => {},
        }
        match key.code {
            KeyCode::Char('q') | KeyCode::Esc => Action::Quit,
            KeyCode::Char('c') if key.control => Action::Quit,
            KeyCode::Down | KeyCode::Char('j') => {
                self.move_by(1);
                Action::Nothing
            },
            KeyCode::Up | KeyCode::Char('k') => {
                self.move_by(-1);
                Action::Nothing
            },
            KeyCode::PageDown => {
                self.move_by(10);
                Action::Nothing
            },
            KeyCode::PageUp => {
                self.move_by(-10);
                Action::Nothing
            },
            KeyCode::Home => {
                self.selected = 0;
                Action::Nothing
            },
            KeyCode::End => {
                self.selected = if self.rows.len() == 0 { 0 } else { self.rows.len() - 1 };
                Action::Nothing
            },
            KeyCode::Left | KeyCode::Char('h') => self.step(-1, key.shift),
            KeyCode::Right | KeyCode::Char('l') => self.step(1, key.shift),
            KeyCode::Char('H') => self.step(-1, true),
            KeyCode::Char('L') => self.step(1, true),
            KeyCode::Enter => {
                if self.rows.len() == 0 {
                    return Action::Nothing;
                }
                let i = self.selected;
                if self.rows[i].numeric() {
                    self.mode = Mode::Edit { buffer: String::new() };
                    let mut m = String::from_str("Type a value for ");
                    append_str(&mut m, self.rows[i].ctrl.name);
                    append_str(&mut m, ", Enter to confirm");
                    self.status = m;
                    Action::Nothing
                } else {
                    self.step(1, false)
                }
            },
            KeyCode::Char('d') => {
                let i = self.selected;
                match &self.rows[i].default {
                    Some(v) => Action::Write { row: i, value: v.clone() },
                    None => {
                        let mut m = String::from_str(self.rows[i].ctrl.name);
                        append_str(&mut m, " has no reported default");
                        self.status = m;
                        Action::Nothing
                    },
                }
            },
            KeyCode::Char('s') => Action::SaveProfile,
            KeyCode::Char('a') => Action::ApplyProfile,
            KeyCode::Char('R') => Action::ResetDefaults,
            KeyCode::Char('r') => Action::Reload,
            KeyCode::Char('p') => {
                self.open_profiles(saved);
                Action::Nothing
            },
            KeyCode::Char('?') => {
                self.mode = Mode::Help;
                Action::Nothing
            },
            _ => Action::Nothing,
        }
    }

    pub fn move_by(&mut self, delta: isize)
        requires
            old(self).wf(),
        ensures
            final(self).wf(),
            final(self).same_frame(old(self)),
            final(self).mode@ == old(self).mode@,
            final(self).status@ == old(self).status@,
            final(self).selected == moved(old(self).selected as int, delta as int, old(self).rows@.len() as int),
    {
        if self.rows.len() == 0 {
            return;
        }
        let len = self.rows.len() as u128;
        let sel = self.selected as u128;
        let step: u128 = if delta >= 0 {
            (delta as u128) % len
        } else {
            let back = ((0i128 - delta as i128) as u128) % len;
            (len - back) % len
        };
        let next = (sel + step) % len;
        proof {
            let n = len as int;
            let d = delta as int;
            let s = sel as int;
            if delta >= 0 {
                vstd::arithmetic::div_mod::lemma_add_mod_noop_right(s, d, n);
            } else {
                let b = (-d) % n;
                vstd::arithmetic::div_mod::lemma_add_mod_noop_right(s, n - b, n);
                vstd::arithmetic::div_mod::lemma_mod_add_multiples_vanish(s - b, n);
                vstd::arithmetic::div_mod::lemma_sub_mod_noop_right(s, -d, n);
                assert(s + (n - b) == n + (s - b));
            }
        }
        self.selected = next as usize;
    }
}

/// Moving the selection keeps it on a row, and wraps at both ends: down from
/// the last row is the first, up from the first is the last.
pub proof fn lemma_navigation_wraps(selected: int, delta: int, len: int)
    requires
        len > 0,
        0 <= selected < len,
    ensures
        0 <= moved(selected, delta, len) < len,
        moved(len - 1, 1, len) == 0,
        moved(0, -1, len) == len - 1,
{
    vstd::arithmetic::div_mod::lemma_mod_bound(selected + delta, len);
    vstd::arithmetic::div_mod::lemma_mod_self_0(len);
    vstd::arithmetic::div_mod::lemma_mod_add_multiples_vanish(-1, len);
    vstd::arithmetic::div_mod::lemma_small_mod((len - 1) as nat, len as nat);
}

/// Stepping with the keyboard only ever asks to write a control that is
/// writable and not locked by another control, and a numeric step stays
/// within the control's range.
pub proof fn lemma_steps_are_guarded(u: Ui, direction: int, big: bool)
    requires
        u.wf(),
        direction == 1 || direction == -1,
    ensures
        step_spec(u, screen_of(u), direction, big).1 matches ActionView::Write { row, value } ==> {
            &&& row == u.selected
            &&& guard_problem(u.rows@, row) is None
            &&& u.rows@[row].ctrl.kind is Int ==> (u.rows@[row].range matches Some((lo, hi))
                ==> (lo <= hi ==> exists|v: int| lo <= v <= hi && value == int_digits(v)))
        },
{
    let sc = screen_of(u);
    let (v, st) = next_value_spec(u.rows@, sc.selected, direction, big, sc.status);
    if v is Some && u.rows@.len() > 0 {
        let row = u.rows@[sc.selected];
        if row.ctrl.kind is Int {
            if let Some((lo, hi)) = row.range {
                if lo <= hi {
                    if let Some(cur) = row_number(row) {
                        let w = clamped(cur + direction * stride(row, big), lo as int, hi as int);
                        assert(lo <= w <= hi);
                    }
                }
            }
        }
    }
}

/// A click only ever asks to write a control that is writable and not
/// locked, and never asks to write the value the row already shows; a drag
/// stays on the control it started on, never moving the selection and only
/// ever writing the selected row.
pub proof fn lemma_clicks_are_guarded(u: Ui, x: int, y: int, dragging: bool)
    requires
        u.wf(),
    ensures
        click_spec(u, x, y, dragging).2 matches ActionView::Write { row, value } ==> {
            &&& 0 <= row < u.rows@.len()
            &&& guard_problem(u.rows@, row) is None
            &&& !(u.rows@[row].value matches Some(cur) && cur@ == value)
            &&& dragging ==> row == u.selected
        },
        dragging ==> click_spec(u, x, y, dragging).0 == u.selected,
{
    match first_hit_from(u.hits@, y, 0) {
        Some(j) => {
            lemma_first_hit_from(u.hits@, y, 0);
            let hit = u.hits@[j];
            lemma_choice_at_from(hit.choices@, x, u.rows@[hit.index as int].value, 0);
        },
        None => {},
    }
}

/// Every character of `b` may stand in a profile name.
pub open spec fn safe_name(b: Seq<char>) -> bool {
    forall|i: int| 0 <= i < b.len() ==> name_char(#[trigger] b[i])
}

/// Profile names stay safe as file names: typing into the new-profile
/// dialog only ever adds letters, digits, `-` and `_`, and the profile it
/// asks to create has a name made of nothing else, and never an empty one.
pub proof fn lemma_new_profile_names_are_safe(u: Ui, sc: Screen, key: Key)
    requires
        sc.mode matches ModeView::NewProfile { buffer } && safe_name(buffer),
    ensures
        dialog_spec(u, sc, key) matches Some((next, action)) && {
            &&& next.mode matches ModeView::NewProfile { buffer } ==> safe_name(buffer)
            &&& action matches ActionView::CreateProfile(n) ==> n.len() > 0 && safe_name(n)
        },
{
    if let ModeView::NewProfile { buffer } = sc.mode {
        match key.code {
            KeyCode::Char(c) => {
                if name_char(c) {
                    assert forall|i: int| 0 <= i < buffer.push(c).len() implies name_char(#[trigger] buffer.push(c)[i]) by {
                        if i < buffer.len() {
                            assert(buffer.push(c)[i] == buffer[i]);
                        }
                    }
                }
            },
            KeyCode::Backspace => {
                assert forall|i: int| 0 <= i < popped(buffer).len() implies name_char(#[trigger] popped(buffer)[i]) by {
                    assert(popped(buffer)[i] == buffer[i]);
                }
            },
            KeyCode::Enter => {
                crate::text::lemma_trimmed_within(buffer);
                let (a, b) = choose|a: int, b: int| 0 <= a <= b <= buffer.len() && trimmed(buffer) == buffer.subrange(a, b);
                assert forall|i: int| 0 <= i < trimmed(buffer).len() implies name_char(#[trigger] trimmed(buffer)[i]) by {
                    assert(trimmed(buffer)[i] == buffer[a + i]);
                }
            },
            _ => {},
        }
    }
}

/// An open new-profile dialog holds only characters a profile name may.
pub open spec fn names_safe(sc: Screen) -> bool {
    sc.mode matches ModeView::NewProfile { buffer } ==> safe_name(buffer)
}

/// Whether an action creates a profile with an unsafe or empty name.
pub open spec fn creates_unsafe(a: ActionView) -> bool {
    a matches ActionView::CreateProfile(n) && !(n.len() > 0 && safe_name(n))
}

/// What a sequence of key presses asks for, one action per key, starting
/// from the screen `sc` of `u`.
pub open spec fn keys_actions(u: Ui, sc: Screen, keys: Seq<Key>, saved: Seq<Seq<char>>) -> Seq<ActionView>
    decreases keys.len(),
{
    if keys.len() == 0 {
        seq![]
    } else {
        let (next, a) = key_spec(u, sc, keys[0], saved);
        seq![a] + keys_actions(u, next, keys.drop_first(), saved)
    }
}

proof fn lemma_key_keeps_names_safe(u: Ui, sc: Screen, key: Key, saved: Seq<Seq<char>>)
    requires
        names_safe(sc),
    ensures
        names_safe(key_spec(u, sc, key, saved).0),
        !creates_unsafe(key_spec(u, sc, key, saved).1),
{
    assert(safe_name(Seq::<char>::empty()));
    if sc.mode is NewProfile {
        lemma_new_profile_names_are_safe(u, sc, key);
    }
}

/// Profile names stay safe whatever keys are pressed: from any screen whose
/// new-profile dialog (if open) holds a safe name, as it does when the
/// dialog opens empty, no key press in any sequence asks to create a
/// profile with an empty name or one holding anything but letters, digits,
/// `-` and `_`.
pub proof fn lemma_profile_names_safe_over_keys(u: Ui, sc: Screen, keys: Seq<Key>, saved: Seq<Seq<char>>)
    requires
        names_safe(sc),
    ensures
        forall|i: int| 0 <= i < keys_actions(u, sc, keys, saved).len() ==> !creates_unsafe(
            #[trigger] keys_actions(u, sc, keys, saved)[i],
        ),
    decreases keys.len(),
{
    if keys.len() > 0 {
        let (next, a) = key_spec(u, sc, keys[0], saved);
        lemma_key_keeps_names_safe(u, sc, keys[0], saved);
        lemma_profile_names_safe_over_keys(u, next, keys.drop_first(), saved);
        let rest = keys_actions(u, next, keys.drop_first(), saved);
        assert forall|i: int| 0 <= i < keys_actions(u, sc, keys, saved).len() implies !creates_unsafe(
            #[trigger] keys_actions(u, sc, keys, saved)[i],
        ) by {
            if i > 0 {
                assert(keys_actions(u, sc, keys, saved)[i] == rest[i - 1]);
            }
        }
    }
}

proof fn lemma_choice_at_from(cs: Seq<(u16, u16, &'static str)>, x: int, value: Option<String>, i: int)
    requires
        0 <= i,
    ensures
        choice_at_from(cs, x, value, i) matches Some(n) ==> !(value matches Some(v) && v@ == n),
    decreases cs.len() - i,
{
    if i < cs.len() && !(cs[i].0 <= x < cs[i].1 && !(value matches Some(v) && v@ == cs[i].2@)) {
        lemma_choice_at_from(cs, x, value, i + 1);
    }
}

proof fn lemma_half_up(a: int, d: int)
    requires
        d > 0,
    ensures
        (2 * (d * a) + d) / (2 * d) == a,
{
    assert(2 * (d * a) + d == a * (2 * d) + d) by (nonlinear_arith);
    vstd::arithmetic::div_mod::lemma_fundamental_div_mod_converse(2 * (d * a) + d, 2 * d, a, d);
}

/// A bar is exactly `width` cells; a value at or below the bottom of the range
/// fills none of them, one at or above the top fills all of them, and any
/// value fills between none and all.
pub proof fn lemma_bar_scales_within_range(value: int, lo: int, hi: int, width: nat)
    requires
        lo < hi,
    ensures
        bar_text(value, lo, hi, width).len() == width,
        0 <= filled_cells(value, lo, hi, width as int) <= width,
        value <= lo ==> filled_cells(value, lo, hi, width as int) == 0,
        value >= hi ==> filled_cells(value, lo, hi, width as int) == width,
{
    let d = hi - lo;
    let c = clamped(value - lo, 0, d);
    let w = width as int;
    assert(0 <= c * w <= d * w) by (nonlinear_arith)
        requires
            0 <= c <= d,
            0 <= w,
    ;
    lemma_half_up(w, d);
    lemma_half_up(0, d);
    assert(d * 0 == 0);
    if value <= lo {
        assert(c == 0);
        assert(c * w == 0) by (nonlinear_arith)
            requires
                c == 0,
        ;
    }
    vstd::arithmetic::div_mod::lemma_div_is_ordered(2 * (c * w) + d, 2 * (d * w) + d, 2 * d);
    vstd::arithmetic::div_mod::lemma_div_is_ordered(d, 2 * (c * w) + d, 2 * d);
    if value >= hi {
        assert(c * w == d * w);
    }
}

/// The resolution a click snaps to: the row's step, or one when that is
/// not positive.
pub open spec fn snap_step(row: Row) -> int {
    if row.step >= 1 { row.step as int } else { 1 }
}

/// A click on a bar picks a value inside the control's range, snapped to the
/// control's resolution (or the maximum itself), and the ends of a bar give
/// exactly the minimum and the maximum: the first cell is the minimum, and on
/// a bar of more than one cell the last cell is the maximum.
pub proof fn lemma_bar_clicks_stay_in_range(row: Row, x: int, x0: int, x1: int)
    requires
        x1 > x0,
        row.range matches Some((lo, hi)) && lo < hi,
    ensures
        row.range matches Some((lo, hi)) && {
            &&& value_at_spec(row, x, x0, x1) matches Some(v) && lo <= v <= hi
                && ((v - lo) % snap_step(row) == 0 || v == hi)
            &&& value_at_spec(row, x0, x0, x1) == Some(lo as int)
            &&& x1 - x0 > 1 ==> value_at_spec(row, x1 - 1, x0, x1) == Some(hi as int)
        },
{
    let (lo, hi) = match row.range {
        Some((a, b)) => (a as int, b as int),
        None => (0, 0),
    };
    let width = x1 - x0;
    let step = if row.step >= 1 { row.step as int } else { 1 };
    vstd::arithmetic::div_mod::lemma_basic_div(step / 2, step);
    assert(trunc_div(step / 2, step) == 0);
    if width > 1 {
        let d = width - 1;
        assert(lo * d + 0 * (hi - lo) == d * lo) by (nonlinear_arith);
        lemma_round_exact(lo, d);
        assert(clamped(x0 - x0, 0, d) == 0);
        assert(round_div(lo * d + 0 * (hi - lo), d) == lo);
        assert(clamped(x1 - 1 - x0, 0, d) == d);
    }
    if !(width > 1 && clamped(x - x0, 0, width - 1) == width - 1) {
        let raw = if width > 1 {
            let k = clamped(x - x0, 0, width - 1);
            round_div(lo * (width - 1) + k * (hi - lo), width - 1)
        } else {
            lo
        };
        let t = trunc_div(raw - lo + step / 2, step);
        assert(value_at_spec(row, x, x0, x1) == Some(clamped(lo + t * step, lo, hi)));
        lemma_snapped(lo, hi, t, step);
    }
    let t = trunc_div(lo - lo + step / 2, step);
    assert(t == 0);
    assert(t * step == 0) by (nonlinear_arith)
        requires
            t == 0,
    ;
    assert(clamped(lo + t * step, lo, hi) == lo);
    assert(value_at_spec(row, x0, x0, x1) == Some(lo));
}

/// A value moved from the bottom of the range by whole steps, then clamped
/// to the range, is a whole number of steps from the bottom or is the top.
proof fn lemma_snapped(lo: int, hi: int, t: int, step: int)
    requires
        lo < hi,
        step >= 1,
    ensures
        (clamped(lo + t * step, lo, hi) - lo) % step == 0 || clamped(lo + t * step, lo, hi) == hi,
{
    let v = clamped(lo + t * step, lo, hi);
    if lo <= lo + t * step <= hi {
        vstd::arithmetic::div_mod::lemma_mod_multiples_basic(t, step);
        assert(v - lo == t * step);
    } else if lo + t * step < lo {
        vstd::arithmetic::div_mod::lemma_small_mod(0, step as nat);
        assert(v - lo == 0);
    }
}

proof fn lemma_round_exact(a: int, d: int)
    requires
        d > 0,
    ensures
        round_div(d * a, d) == a,
{
    if a >= 0 {
        assert(d * a >= 0) by (nonlinear_arith)
            requires
                a >= 0,
                d > 0,
        ;
        lemma_half_up(a, d);
    } else {
        assert(d * a < 0) by (nonlinear_arith)
            requires
                a < 0,
                d > 0,
        ;
        lemma_half_up(-a, d);
        assert(-2 * (d * a) + d == 2 * (d * (-a)) + d) by (nonlinear_arith);
    }
}

} // verus!
