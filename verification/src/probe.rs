//! Read-only reconnaissance of a camera's extension units: which selectors
//! exist, what they will admit to, and what they currently hold. What any of
//! it means takes a USB capture of the vendor's own application.

use vstd::prelude::*;
use crate::text::{append_hex, append_int, append_str, hex_padded, nat_digits};
use crate::usb::{format_guid, guid_text, GET_CUR, GET_INFO, GET_LEN, INFO_GET, INFO_SET, SET_CUR};

verus! {

pub struct Selector {
    pub selector: u8,
    /// GET_INFO capability bits.
    pub info: u8,
    /// GET_LEN, when the camera answers it.
    pub len: Option<u16>,
    /// GET_CUR bytes, when the selector is readable.
    pub current: Option<Vec<u8>>,
}

/// Bytes as two-digit lower-case hex, separated by single spaces.
pub open spec fn hex_text(b: Seq<u8>) -> Seq<char>
    decreases b.len(),
{
    if b.len() == 0 {
        seq![]
    } else if b.len() == 1 {
        hex_padded(b[0] as nat, 2)
    } else {
        hex_text(b.drop_last()) + seq![' '] + hex_padded(b.last() as nat, 2)
    }
}

/// `bytes` as space-separated two-digit hex.
pub fn hex(bytes: &[u8]) -> (r: String)
    ensures
        r@ == hex_text(bytes@),
{
    let mut r = String::new();
    let mut i: usize = 0;
    while i < bytes.len()
        invariant
            i <= bytes.len(),
            r@ == hex_text(bytes@.subrange(0, i as int)),
        decreases bytes.len() - i,
    {
        proof {
            let next = bytes@.subrange(0, i + 1);
            assert(next.drop_last() =~= bytes@.subrange(0, i as int));
        }
        if i > 0 {
            r.push(' ');
        }
        append_hex(&mut r, bytes[i] as u64, 2);
        i = i + 1;
        proof {
            if i == 1 {
                assert(r@ =~= hex_text(bytes@.subrange(0, 1)));
            } else {
                assert(r@ =~= hex_text(bytes@.subrange(0, i as int)));
            }
        }
    }
    proof {
        assert(bytes@.subrange(0, bytes@.len() as int) =~= bytes@);
    }
    r
}

/// How the capability bits read.
pub open spec fn caps_text(info: u8) -> Seq<char> {
    if info & INFO_GET != 0 && info & INFO_SET != 0 {
        "get set"@
    } else if info & INFO_GET != 0 {
        "get"@
    } else if info & INFO_SET != 0 {
        "write-only"@
    } else {
        "neither"@
    }
}

pub open spec fn selector_line(s: Selector) -> Seq<char> {
    "  selector 0x"@ + hex_padded(s.selector as nat, 2) + "  info 0x"@ + hex_padded(
        s.info as nat,
        2,
    ) + " ("@ + caps_text(s.info) + ")  len "@ + (match s.len {
        Some(l) => nat_digits(l as nat),
        None => "?"@,
    }) + "  "@ + (match s.current {
        Some(b) => hex_text(b@),
        None => "-"@,
    }) + "\n"@
}

pub open spec fn selector_lines(found: Seq<Selector>) -> Seq<char>
    decreases found.len(),
{
    if found.len() == 0 {
        seq![]
    } else {
        selector_lines(found.drop_last()) + selector_line(found.last())
    }
}

/// The probe report for one extension unit.
pub open spec fn report_text(guid: Seq<u8>, vid: u16, pid: u16, found: Seq<Selector>) -> Seq<char> {
    let head = "extension unit "@ + guid_text(guid) + "  on "@ + hex_padded(vid as nat, 4) + ":"@
        + hex_padded(pid as nat, 4) + "\n"@;
    if found.len() == 0 {
        head + "  no selector answered GET_INFO\n"@
    } else {
        head + selector_lines(found)
    }
}

fn caps(info: u8) -> (r: &'static str)
    ensures
        r@ == caps_text(info),
{
    let get = info & INFO_GET != 0;
    let set = info & INFO_SET != 0;
    if get && set {
        "get set"
    } else if get {
        "get"
    } else if set {
        "write-only"
    } else {
        "neither"
    }
}

/// Describe what was found on one extension unit.
pub fn report(guid: &[u8; 16], vid: u16, pid: u16, found: &[Selector]) -> (r: String)
    ensures
        r@ == report_text(guid@, vid, pid, found@),
{
    let mut out = String::from_str("extension unit ");
    let g = format_guid(guid);
    append_str(&mut out, g.as_str());
    append_str(&mut out, "  on ");
    append_hex(&mut out, vid as u64, 4);
    append_str(&mut out, ":");
    append_hex(&mut out, pid as u64, 4);
    append_str(&mut out, "\n");
    if found.len() == 0 {
        append_str(&mut out, "  no selector answered GET_INFO\n");
        return out;
    }
    let ghost head = out@;
    let mut i: usize = 0;
    while i < found.len()
        invariant
            i <= found.len(),
            out@ == head + selector_lines(found@.subrange(0, i as int)),
        decreases found.len() - i,
    {
        let s = &found[i];
        let ghost before = out@;
        append_str(&mut out, "  selector 0x");
        append_hex(&mut out, s.selector as u64, 2);
        append_str(&mut out, "  info 0x");
        append_hex(&mut out, s.info as u64, 2);
        append_str(&mut out, " (");
        append_str(&mut out, caps(s.info));
        append_str(&mut out, ")  len ");
        match s.len {
            Some(l) => {
                append_int(&mut out, l as i64);
            },
            None => {
                append_str(&mut out, "?");
            },
        }
        append_str(&mut out, "  ");
        match &s.current {
            Some(b) => {
                let h = hex(b.as_slice());
                append_str(&mut out, h.as_str());
            },
            None => {
                append_str(&mut out, "-");
            },
        }
        append_str(&mut out, "\n");
        proof {
            assert(out@ =~= before + selector_line(found@[i as int]));
            let next = found@.subrange(0, i + 1);
            assert(next.drop_last() =~= found@.subrange(0, i as int));
        }
        i = i + 1;
    }
    proof {
        assert(found@.subrange(0, found@.len() as int) =~= found@);
    }
    out
}

/// A request the probe makes of one selector. There is no SET request: the
/// probe only ever reads.
pub enum Query {
    /// GET_INFO, one byte of capability bits.
    Info,
    /// GET_LEN, the two-byte little-endian data length.
    Len,
    /// GET_CUR, this many bytes.
    Cur(u16),
}

/// The UVC request code of `q` and how many bytes it asks for.
pub open spec fn query_request(q: Query) -> (u8, usize) {
    match q {
        Query::Info => (GET_INFO, 1),
        Query::Len => (GET_LEN, 2),
        Query::Cur(l) => (GET_CUR, l as usize),
    }
}

impl Query {
    /// The UVC request code and the number of bytes to ask for.
    pub fn request(&self) -> (r: (u8, usize))
        ensures
            r == query_request(*self),
    {
        match self {
            Query::Info => (GET_INFO, 1),
            Query::Len => (GET_LEN, 2),
            Query::Cur(l) => (GET_CUR, *l as usize),
        }
    }
}

/// Where the walk of one selector stands.
pub enum Walk {
    /// GET_INFO is still to be asked.
    Start,
    /// GET_INFO gave these capability bits; GET_LEN is to be asked.
    Known(u8),
    /// The selector is readable and this long; GET_CUR is to be asked.
    Reading(u8, u16),
    /// Done: what the selector answered.
    Found(Selector),
    /// Done: the selector refused GET_INFO or reported no capability at all.
    Absent,
}

/// The request the walk makes next, or `None` once it is done.
pub open spec fn next_query(w: Walk) -> Option<Query> {
    match w {
        Walk::Start => Some(Query::Info),
        Walk::Known(_) => Some(Query::Len),
        Walk::Reading(_, l) => Some(Query::Cur(l)),
        _ => None,
    }
}

/// A GET_LEN reply read as a length: exactly two bytes, little-endian.
pub open spec fn reply_len(answer: Option<Vec<u8>>) -> Option<u16> {
    match answer {
        Some(b) => if b@.len() == 2 {
            Some((b@[0] as int + 256 * b@[1] as int) as u16)
        } else {
            None
        },
        None => None,
    }
}

/// The walk after the camera answered its last request with `answer`
/// (`None` when the request failed).
pub open spec fn advanced(w: Walk, selector: u8, answer: Option<Vec<u8>>) -> Walk {
    match w {
        Walk::Start => match answer {
            Some(b) => if b@.len() > 0 && b@[0] != 0 {
                Walk::Known(b@[0])
            } else {
                Walk::Absent
            },
            None => Walk::Absent,
        },
        Walk::Known(info) => {
            let len = reply_len(answer);
            if info & INFO_GET != 0 && len is Some {
                Walk::Reading(info, len->0)
            } else {
                Walk::Found(Selector { selector, info, len, current: None })
            }
        },
        Walk::Reading(info, l) => Walk::Found(Selector { selector, info, len: Some(l), current: answer }),
        _ => w,
    }
}

/// How many requests the walk can still make.
pub open spec fn requests_left(w: Walk) -> nat {
    match w {
        Walk::Start => 3,
        Walk::Known(_) => 2,
        Walk::Reading(_, _) => 1,
        _ => 0,
    }
}

/// The request to make next for this selector, if any.
pub fn query(w: &Walk) -> (r: Option<Query>)
    ensures
        r == next_query(*w),
{
    match w {
        Walk::Start => Some(Query::Info),
        Walk::Known(_) => Some(Query::Len),
        Walk::Reading(_, l) => Some(Query::Cur(*l)),
        _ => None,
    }
}

/// Take the camera's answer to the request `query` named, and move on.
pub fn advance(w: Walk, selector: u8, answer: Option<Vec<u8>>) -> (r: Walk)
    ensures
        r == advanced(w, selector, answer),
{
    match w {
        Walk::Start => match answer {
            Some(b) => if b.len() > 0 && b[0] != 0 {
                Walk::Known(b[0])
            } else {
                Walk::Absent
            },
            None => Walk::Absent,
        },
        Walk::Known(info) => {
            let len = match answer {
                Some(b) => if b.len() == 2 {
                    Some(b[0] as u16 + 256 * (b[1] as u16))
                } else {
                    None
                },
                None => None,
            };
            match len {
                Some(l) => if info & INFO_GET != 0 {
                    Walk::Reading(info, l)
                } else {
                    Walk::Found(Selector { selector, info, len, current: None })
                },
                None => Walk::Found(Selector { selector, info, len, current: None }),
            }
        },
        Walk::Reading(info, l) => Walk::Found(Selector { selector, info, len: Some(l), current: answer }),
        _ => w,
    }
}

/// The probe only reads: every request it can make is GET_INFO, GET_LEN or
/// GET_CUR, never SET_CUR; GET_CUR is asked only of a selector whose
/// capability bits allow reading, with the length it reported; and the walk
/// of a selector ends after at most three requests.
pub proof fn lemma_probe_only_reads(w: Walk, selector: u8, answer: Option<Vec<u8>>)
    ensures
        next_query(w) matches Some(q) ==> query_request(q).0 != SET_CUR && (query_request(q).0 == GET_INFO
            || query_request(q).0 == GET_LEN || query_request(q).0 == GET_CUR),
        advanced(w, selector, answer) matches Walk::Reading(info, l) ==> info & INFO_GET != 0
            && w is Known && reply_len(answer) == Some(l),
        next_query(w) is Some ==> requests_left(advanced(w, selector, answer)) < requests_left(w),
        next_query(w) is None <==> requests_left(w) == 0,
{
}

/// The closing note of a probe.
pub const PROBE_FOOTER: &'static str = "Paste this into an issue to have your camera's support added.\nSelector numbers and current values are facts; what they mean is not\nderivable from this output. See docs/adding-a-camera.md.\n";

/// The reports on the extension units walked, one after another, each
/// followed by a blank line.
pub open spec fn units_text(vid: u16, pid: u16, units: Seq<(Seq<u8>, Seq<Selector>)>) -> Seq<char>
    decreases units.len(),
{
    if units.len() == 0 {
        seq![]
    } else {
        units_text(vid, pid, units.drop_last()) + report_text(units.last().0, vid, pid, units.last().1) + "\n"@
    }
}

/// What a probe prints for the camera `name`: that it has no extension unit,
/// or the report on each one and the closing note.
pub open spec fn probe_text(name: Seq<char>, vid: u16, pid: u16, units: Seq<(Seq<u8>, Seq<Selector>)>) -> Seq<char> {
    if units.len() == 0 {
        name + " has no extension units.\n"@
    } else {
        units_text(vid, pid, units) + PROBE_FOOTER@
    }
}

pub open spec fn units_view(units: Seq<([u8; 16], Vec<Selector>)>) -> Seq<(Seq<u8>, Seq<Selector>)> {
    units.map_values(|u: ([u8; 16], Vec<Selector>)| (u.0@, u.1@))
}

/// The whole probe output, from what walking each extension unit found.
pub fn probe_output(name: &str, vid: u16, pid: u16, units: &Vec<([u8; 16], Vec<Selector>)>) -> (r: String)
    ensures
        r@ == probe_text(name@, vid, pid, units_view(units@)),
{
    if units.len() == 0 {
        let mut out = String::from_str(name);
        append_str(&mut out, " has no extension units.\n");
        return out;
    }
    let ghost uv = units_view(units@);
    let mut out = String::new();
    let mut i: usize = 0;
    while i < units.len()
        invariant
            i <= units@.len(),
            uv == units_view(units@),
            out@ == units_text(vid, pid, uv.subrange(0, i as int)),
        decreases units.len() - i,
    {
        let r = report(&units[i].0, vid, pid, units[i].1.as_slice());
        append_str(&mut out, r.as_str());
        append_str(&mut out, "\n");
        proof {
            let next = uv.subrange(0, i + 1);
            assert(next.drop_last() =~= uv.subrange(0, i as int));
            assert(next.last() == (units@[i as int].0@, units@[i as int].1@));
        }
        i = i + 1;
    }
    proof {
        assert(uv.subrange(0, units@.len() as int) =~= uv);
    }
    append_str(&mut out, PROBE_FOOTER);
    out
}

} // verus!
