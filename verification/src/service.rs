//! The per-user launchd agent that reapplies a profile at login and whenever
//! the camera comes back: the plist it is installed from, what `launchctl`
//! reports about it, and which `launchctl` command each request comes down
//! to. Running `launchctl` and touching the files happens outside this crate.

use vstd::prelude::*;
use crate::text::{
    append_str, chars_of, find_chars, find_from, fmt_u64, hex_char, index_from, join_path, join_strings,
    joined, joined_path, lemma_find_from, lemma_find_shift, lemma_find_skip, lemma_index_from,
    lemma_replace_step, lemma_split_shift, lines, lines_of, nat_digits, occurs_at, replace_str,
    replaced, skip_chars, split_from, split_spec, split_str, starts_with, str_eq, string_views,
    trim, trimmed,
};
use crate::tui::str_views;

verus! {

pub const LABEL: &'static str = "local.kiyoctl";

/// The home directory, or `/tmp` when it is unknown.
pub open spec fn home_or_tmp(home: Option<Seq<char>>) -> Seq<char> {
    match home {
        Some(h) => h,
        None => "/tmp"@,
    }
}

pub open spec fn opt_view(o: Option<&str>) -> Option<Seq<char>> {
    match o {
        Some(s) => Some(s@),
        None => None,
    }
}

fn home_dir(home: Option<&str>) -> (r: String)
    ensures
        r@ == home_or_tmp(opt_view(home)),
{
    match home {
        Some(h) => String::from_str(h),
        None => String::from_str("/tmp"),
    }
}

/// Where the agent's plist is installed, under the home directory `home`.
pub fn plist_path(home: Option<&str>) -> (r: String)
    ensures
        r@ == joined_path(joined_path(home_or_tmp(opt_view(home)), "Library/LaunchAgents"@), LABEL@ + ".plist"@),
{
    let h = home_dir(home);
    let dir = join_path(h.as_str(), "Library/LaunchAgents");
    let mut file = String::from_str(LABEL);
    append_str(&mut file, ".plist");
    join_path(dir.as_str(), file.as_str())
}

/// Where the binary the agent runs is installed, under the home directory
/// `home`.
pub fn installed_binary(home: Option<&str>) -> (r: String)
    ensures
        r@ == joined_path(home_or_tmp(opt_view(home)), ".local/bin/kiyoctl"@),
{
    let h = home_dir(home);
    join_path(h.as_str(), ".local/bin/kiyoctl")
}

/// One character as it stands in XML text.
pub open spec fn escaped_char(c: char) -> Seq<char> {
    if c == '&' {
        "&amp;"@
    } else if c == '<' {
        "&lt;"@
    } else if c == '>' {
        "&gt;"@
    } else {
        seq![c]
    }
}

/// `s` with `&`, `<` and `>` written as XML entities.
pub open spec fn escaped(s: Seq<char>) -> Seq<char>
    decreases s.len(),
{
    if s.len() == 0 {
        seq![]
    } else {
        escaped(s.drop_last()) + escaped_char(s.last())
    }
}

pub fn xml_escape(s: &str) -> (r: String)
    ensures
        r@ == escaped(s@),
{
    let v = chars_of(s);
    let mut r = String::new();
    let mut i: usize = 0;
    while i < v.len()
        invariant
            v@ == s@,
            i <= v@.len(),
            r@ == escaped(v@.subrange(0, i as int)),
        decreases v.len() - i,
    {
        let ghost pre = v@.subrange(0, i + 1);
        proof {
            assert(pre.drop_last() =~= v@.subrange(0, i as int));
        }
        let c = v[i];
        if c == '&' {
            append_str(&mut r, "&amp;");
        } else if c == '<' {
            append_str(&mut r, "&lt;");
        } else if c == '>' {
            append_str(&mut r, "&gt;");
        } else {
            r.push(c);
        }
        i = i + 1;
    }
    proof {
        assert(v@.subrange(0, v@.len() as int) =~= v@);
    }
    r
}

/// The entities `xml_escape` writes, read back: `&lt;`, then `&gt;`, then
/// `&amp;`, each replaced throughout.
pub open spec fn unescaped(s: Seq<char>) -> Seq<char> {
    replaced(replaced(replaced(s, "&lt;"@, "<"@), "&gt;"@, ">"@), "&amp;"@, "&"@)
}

/// One of the entities `xml_escape` writes.
pub open spec fn is_entity(t: Seq<char>) -> bool {
    t == "&lt;"@ || t == "&gt;"@ || t == "&amp;"@
}

/// A piece of escaped text: an entity, or one character that is not `&`.
pub open spec fn is_token(t: Seq<char>) -> bool {
    (t.len() == 1 && t[0] != '&') || is_entity(t)
}

/// The pieces `f` gives for each character of `s`, in order.
pub open spec fn pieces(f: spec_fn(char) -> Seq<char>, s: Seq<char>) -> Seq<char>
    decreases s.len(),
{
    if s.len() == 0 {
        seq![]
    } else {
        f(s[0]) + pieces(f, s.drop_first())
    }
}

proof fn lemma_entities()
    ensures
        "&lt;"@ =~= seq!['&', 'l', 't', ';'],
        "&gt;"@ =~= seq!['&', 'g', 't', ';'],
        "&amp;"@ =~= seq!['&', 'a', 'm', 'p', ';'],
        "<"@ =~= seq!['<'],
        ">"@ =~= seq!['>'],
        "&"@ =~= seq!['&'],
{
    reveal_strlit("&lt;");
    reveal_strlit("&gt;");
    reveal_strlit("&amp;");
    reveal_strlit("<");
    reveal_strlit(">");
    reveal_strlit("&");
}

/// No entity other than the piece itself can begin inside a piece.
proof fn lemma_no_entity_inside(t: Seq<char>, y: Seq<char>, pat: Seq<char>)
    requires
        is_entity(pat),
        is_token(t),
        t != pat,
    ensures
        forall|u: int| 0 <= u < t.len() ==> !occurs_at(t + y, pat, u),
{
    lemma_entities();
    let x = t + y;
    assert forall|u: int| 0 <= u < t.len() implies !occurs_at(x, pat, u) by {
        if occurs_at(x, pat, u) {
            assert(x.subrange(u, u + pat.len())[0] == pat[0]);
            assert(x[u] == '&');
            if u == 0 {
                assert(x.subrange(0, pat.len() as int)[1] == pat[1]);
                assert(x[1] == t[1]);
            } else {
                assert(x[u] == t[u]);
            }
        }
    }
}

/// Replacing an entity in text that starts with a piece: the piece is
/// replaced when it is that entity, and kept otherwise, since no entity can
/// begin inside a piece.
proof fn lemma_replace_token(t: Seq<char>, y: Seq<char>, pat: Seq<char>, rep: Seq<char>)
    requires
        is_entity(pat),
        is_token(t),
    ensures
        replaced(t + y, pat, rep) == (if t == pat { rep } else { t }) + replaced(y, pat, rep),
{
    lemma_entities();
    let x = t + y;
    lemma_replace_step(x, pat, rep, 0);
    lemma_replace_step(y, pat, rep, 0);
    if t == pat {
        assert(x.subrange(0, pat.len() as int) =~= pat);
        assert(occurs_at(x, pat, 0));
        assert(find_from(x, pat, 0) == Some(0int));
        lemma_split_shift(t, y, pat, 0);
        assert(x.subrange(0, 0) =~= Seq::<char>::empty());
        assert(rep + replaced(y, pat, rep) =~= x.subrange(0, 0) + rep + replaced(y, pat, rep));
    } else {
        lemma_no_entity_inside(t, y, pat);
        lemma_find_skip(x, pat, t.len() as int);
        lemma_find_shift(t, y, pat, 0);
        lemma_find_from(y, pat, 0);
        match find_from(y, pat, 0) {
            Some(k) => {
                assert(find_from(x, pat, 0) == Some(k + t.len()));
                lemma_split_shift(t, y, pat, k + pat.len());
                assert(x.subrange(0, k + t.len()) =~= t + y.subrange(0, k));
                assert(t.len() + (k + pat.len()) == k + t.len() + pat.len());
                assert(x.subrange(0, k + t.len()) + rep + joined(split_from(x, pat, k + t.len() + pat.len()), rep)
                    =~= t + (y.subrange(0, k) + rep + joined(split_from(y, pat, k + pat.len()), rep)));
            },
            None => {
                if t.len() + pat.len() <= x.len() {
                    assert(find_from(x, pat, 0) == find_from(x, pat, t.len() as int));
                }
                assert(find_from(x, pat, 0) is None);
                assert(x.subrange(0, x.len() as int) =~= t + y.subrange(0, y.len() as int));
            },
        }
    }
}

/// Replacing an entity throughout text made of pieces replaces it in each
/// piece.
proof fn lemma_replace_pieces(
    f: spec_fn(char) -> Seq<char>,
    g: spec_fn(char) -> Seq<char>,
    pat: Seq<char>,
    rep: Seq<char>,
    s: Seq<char>,
)
    requires
        is_entity(pat),
        forall|c: char| #[trigger] is_token(f(c)),
        forall|c: char| #[trigger] g(c) == (if f(c) == pat { rep } else { f(c) }),
    ensures
        replaced(pieces(f, s), pat, rep) == pieces(g, s),
    decreases s.len(),
{
    lemma_entities();
    if s.len() == 0 {
        lemma_replace_step(Seq::<char>::empty(), pat, rep, 0);
        assert(Seq::<char>::empty().subrange(0, 0) =~= Seq::<char>::empty());
    } else {
        assert(is_token(f(s[0])));
        assert(g(s[0]) == (if f(s[0]) == pat { rep } else { f(s[0]) }));
        lemma_replace_token(f(s[0]), pieces(f, s.drop_first()), pat, rep);
        lemma_replace_pieces(f, g, pat, rep, s.drop_first());
    }
}

proof fn lemma_pieces_push(f: spec_fn(char) -> Seq<char>, s: Seq<char>, c: char)
    ensures
        pieces(f, s.push(c)) == pieces(f, s) + f(c),
    decreases s.len(),
{
    if s.len() == 0 {
        assert(s.push(c).drop_first() =~= Seq::<char>::empty());
        assert(pieces(f, s.push(c).drop_first()) =~= Seq::<char>::empty());
        assert(s.push(c)[0] == c);
        assert(pieces(f, s) =~= Seq::<char>::empty());
        assert(pieces(f, s.push(c)) =~= f(c));
    } else {
        assert(s.push(c).drop_first() =~= s.drop_first().push(c));
        lemma_pieces_push(f, s.drop_first(), c);
        assert(f(s[0]) + (pieces(f, s.drop_first()) + f(c)) =~= f(s[0]) + pieces(f, s.drop_first()) + f(c));
    }
}

proof fn lemma_escaped_pieces(s: Seq<char>)
    ensures
        escaped(s) == pieces(|c: char| escaped_char(c), s),
    decreases s.len(),
{
    if s.len() > 0 {
        lemma_escaped_pieces(s.drop_last());
        lemma_pieces_push(|c: char| escaped_char(c), s.drop_last(), s.last());
        assert(s.drop_last().push(s.last()) =~= s);
    }
}

proof fn lemma_pieces_identity(s: Seq<char>)
    ensures
        pieces(|c: char| seq![c], s) == s,
    decreases s.len(),
{
    if s.len() > 0 {
        lemma_pieces_identity(s.drop_first());
        assert(seq![s[0]] + s.drop_first() =~= s);
    }
}

/// `xml_unescape` undoes `xml_escape`: any text written into the plist reads
/// back as it was.
pub proof fn lemma_unescape_escaped(s: Seq<char>)
    ensures
        unescaped(escaped(s)) == s,
{
    lemma_entities();
    let e = |c: char| escaped_char(c);
    let t1 = |c: char| if escaped_char(c) == "&lt;"@ { "<"@ } else { escaped_char(c) };
    let t2 = |c: char| if t1(c) == "&gt;"@ { ">"@ } else { t1(c) };
    let t3 = |c: char| if t2(c) == "&amp;"@ { "&"@ } else { t2(c) };
    assert forall|c: char| #[trigger] is_token(e(c)) by {}
    assert forall|c: char| #[trigger] is_token(t1(c)) by {}
    assert forall|c: char| #[trigger] is_token(t2(c)) by {}
    lemma_escaped_pieces(s);
    lemma_replace_pieces(e, t1, "&lt;"@, "<"@, s);
    lemma_replace_pieces(t1, t2, "&gt;"@, ">"@, s);
    lemma_replace_pieces(t2, t3, "&amp;"@, "&"@, s);
    assert forall|c: char| t3(c) == seq![c] by {}
    assert(t3 =~= |c: char| seq![c]);
    lemma_pieces_identity(s);
}

pub fn xml_unescape(s: &str) -> (r: String)
    ensures
        r@ == unescaped(s@),
{
    proof {
        reveal_strlit("&lt;");
        reveal_strlit("&gt;");
        reveal_strlit("&amp;");
    }
    let a = replace_str(s, "&lt;", "<");
    let b = replace_str(a.as_str(), "&gt;", ">");
    replace_str(b.as_str(), "&amp;", "&")
}

/// The command line the agent runs: the binary in daemon mode with its
/// polling interval, then the profile it is pinned to and the camera it
/// watches, when those are given. Without a profile the agent follows
/// whichever profile is in use.
pub open spec fn agent_args(binary: Seq<char>, profile: Option<Seq<char>>, device: Option<Seq<char>>, interval: nat) -> Seq<Seq<char>> {
    let base = seq![binary, "daemon"@, "--interval"@, nat_digits(interval)];
    let with_profile = match profile {
        Some(p) => base + seq!["--profile"@, p],
        None => base,
    };
    match device {
        Some(d) => with_profile + seq!["--device"@, d],
        None => with_profile,
    }
}

/// Each argument as a `<string>` line of the plist's array.
pub open spec fn args_xml(args: Seq<Seq<char>>) -> Seq<char>
    decreases args.len(),
{
    if args.len() == 0 {
        seq![]
    } else {
        args_xml(args.drop_last()) + "    <string>"@ + escaped(args.last()) + "</string>\n"@
    }
}

pub open spec fn plist_head() -> Seq<char> {
    "<?xml version=\"1.0\" encoding=\"UTF-8\"?>\n<!DOCTYPE plist PUBLIC \"-//Apple//DTD PLIST 1.0//EN\" \"http://www.apple.com/DTDs/PropertyList-1.0.dtd\">\n<plist version=\"1.0\">\n<dict>\n  <key>Label</key>\n  <string>"@
}

pub open spec fn plist_after_label() -> Seq<char> {
    "</string>\n  <key>ProgramArguments</key>\n  <array>\n"@
}

pub open spec fn plist_after_args() -> Seq<char> {
    "  </array>\n  <key>RunAtLoad</key>\n  <true/>\n  <key>KeepAlive</key>\n  <true/>\n  <key>ProcessType</key>\n  <string>Background</string>\n  <key>StandardOutPath</key>\n  <string>"@
}

pub open spec fn plist_between_logs() -> Seq<char> {
    "</string>\n  <key>StandardErrorPath</key>\n  <string>"@
}

pub open spec fn plist_tail() -> Seq<char> {
    "</string>\n</dict>\n</plist>\n"@
}

/// The agent's plist: its label, the command line, and the log both output
/// streams go to.
pub open spec fn plist_text(args: Seq<Seq<char>>, log: Seq<char>) -> Seq<char> {
    plist_head() + LABEL@ + plist_after_label() + args_xml(args) + plist_after_args() + escaped(log)
        + plist_between_logs() + escaped(log) + plist_tail()
}

/// The plist that installs the agent running `binary`, logging to `log`.
pub fn plist(binary: &str, profile: Option<&str>, device: Option<&str>, interval: u64, log: &str) -> (r: String)
    ensures
        r@ == plist_text(agent_args(binary@, opt_view(profile), opt_view(device), interval as nat), log@),
{
    let mut args: Vec<String> = Vec::new();
    args.push(String::from_str(binary));
    args.push(String::from_str("daemon"));
    args.push(String::from_str("--interval"));
    args.push(fmt_u64(interval));
    match profile {
        Some(p) => {
            args.push(String::from_str("--profile"));
            args.push(String::from_str(p));
        },
        None => {},
    }
    match device {
        Some(d) => {
            args.push(String::from_str("--device"));
            args.push(String::from_str(d));
        },
        None => {},
    }
    let ghost want = agent_args(binary@, opt_view(profile), opt_view(device), interval as nat);
    proof {
        assert(str_views(args@) =~= want);
    }
    let mut xml = String::new();
    let mut i: usize = 0;
    while i < args.len()
        invariant
            i <= args@.len(),
            str_views(args@) == want,
            xml@ == args_xml(want.subrange(0, i as int)),
        decreases args.len() - i,
    {
        let ghost pre = want.subrange(0, i + 1);
        proof {
            assert(pre.drop_last() =~= want.subrange(0, i as int));
            assert(pre.last() == args@[i as int]@);
        }
        append_str(&mut xml, "    <string>");
        let e = xml_escape(args[i].as_str());
        append_str(&mut xml, e.as_str());
        append_str(&mut xml, "</string>\n");
        i = i + 1;
    }
    proof {
        assert(want.subrange(0, args@.len() as int) =~= want);
    }
    let log_xml = xml_escape(log);
    let mut r = String::from_str("<?xml version=\"1.0\" encoding=\"UTF-8\"?>\n<!DOCTYPE plist PUBLIC \"-//Apple//DTD PLIST 1.0//EN\" \"http://www.apple.com/DTDs/PropertyList-1.0.dtd\">\n<plist version=\"1.0\">\n<dict>\n  <key>Label</key>\n  <string>");
    append_str(&mut r, LABEL);
    append_str(&mut r, "</string>\n  <key>ProgramArguments</key>\n  <array>\n");
    append_str(&mut r, xml.as_str());
    append_str(&mut r, "  </array>\n  <key>RunAtLoad</key>\n  <true/>\n  <key>KeepAlive</key>\n  <true/>\n  <key>ProcessType</key>\n  <string>Background</string>\n  <key>StandardOutPath</key>\n  <string>");
    append_str(&mut r, log_xml.as_str());
    append_str(&mut r, "</string>\n  <key>StandardErrorPath</key>\n  <string>");
    append_str(&mut r, log_xml.as_str());
    append_str(&mut r, "</string>\n</dict>\n</plist>\n");
    r
}

/// The user's launchd domain.
pub fn domain(uid: u32) -> (r: String)
    ensures
        r@ == "gui/"@ + nat_digits(uid as nat),
{
    let mut r = String::from_str("gui/");
    let n = fmt_u64(uid as u64);
    append_str(&mut r, n.as_str());
    r
}

/// The agent as a launchd service target.
pub fn target(uid: u32) -> (r: String)
    ensures
        r@ == "gui/"@ + nat_digits(uid as nat) + "/"@ + LABEL@,
{
    let mut r = domain(uid);
    append_str(&mut r, "/");
    append_str(&mut r, LABEL);
    r
}

/// What a failed `launchctl` run is reported as: what it printed on stderr,
/// or, when that was empty, which command failed.
pub fn launchctl_failure(args: &Vec<String>, stderr: &str) -> (r: String)
    ensures
        r@ == (if trimmed(stderr@).len() == 0 {
            "launchctl "@ + joined(str_views(args@), " "@) + " failed"@
        } else {
            trimmed(stderr@)
        }),
{
    let t = trim(stderr);
    if t.unicode_len() == 0 {
        let mut r = String::from_str("launchctl ");
        let j = join_strings(args, " ");
        proof {
            assert(string_views(args@) =~= str_views(args@));
        }
        append_str(&mut r, j.as_str());
        append_str(&mut r, " failed");
        r
    } else {
        t
    }
}

/// What launchd knows about the agent, and what it was asked to watch.
pub struct Agent {
    pub state: String,
    pub pid: Option<u32>,
    pub profile: Option<String>,
    pub device: Option<String>,
    pub interval: Option<String>,
}

impl Agent {
    pub fn running(&self) -> (r: bool)
        ensures
            r == self.pid is Some,
    {
        self.pid.is_some()
    }
}

/// The value after `name` in an argument list.
pub open spec fn flag_value_spec(args: Seq<Seq<char>>, name: Seq<char>) -> Option<Seq<char>> {
    match index_from(args, name, 0) {
        Some(i) => if i + 1 < args.len() {
            Some(args[i + 1])
        } else {
            None
        },
        None => None,
    }
}

pub fn flag_value(args: &Vec<String>, name: &str) -> (r: Option<String>)
    ensures
        match r {
            Some(v) => flag_value_spec(str_views(args@), name@) == Some(v@),
            None => flag_value_spec(str_views(args@), name@) is None,
        },
{
    let ghost views = str_views(args@);
    let mut i: usize = 0;
    while i < args.len() && !str_eq(args[i].as_str(), name)
        invariant
            i <= args@.len(),
            views == str_views(args@),
            index_from(views, name@, 0) == index_from(views, name@, i as int),
        decreases args.len() - i,
    {
        i = i + 1;
    }
    if i < args.len() && i + 1 < args.len() {
        Some(args[i + 1].clone())
    } else {
        None
    }
}

/// The lines of `launchctl print`, trimmed.
pub open spec fn print_lines(text: Seq<char>) -> Seq<Seq<char>> {
    lines_of(text).map_values(|l: Seq<char>| trimmed(l))
}

/// The lines from position `i` up to the next `}` line.
pub open spec fn block_from(ls: Seq<Seq<char>>, i: int) -> Seq<Seq<char>>
    decreases ls.len() - i,
{
    if i < 0 || i >= ls.len() || ls[i] == "}"@ {
        seq![]
    } else {
        seq![ls[i]] + block_from(ls, i + 1)
    }
}

/// The `arguments = { ... }` block of `launchctl print`, one entry per line.
pub open spec fn arguments_spec(text: Seq<char>) -> Seq<Seq<char>> {
    let ls = print_lines(text);
    match index_from(ls, "arguments = {"@, 0) {
        Some(k) => block_from(ls, k + 1),
        None => seq![],
    }
}

fn trimmed_lines(text: &str) -> (r: Vec<String>)
    ensures
        str_views(r@) == print_lines(text@),
{
    let ls = lines(text);
    let mut r: Vec<String> = Vec::new();
    let mut i: usize = 0;
    while i < ls.len()
        invariant
            i <= ls@.len(),
            string_views(ls@) == lines_of(text@),
            r@.len() == i,
            forall|j: int| 0 <= j < i ==> (#[trigger] r@[j])@ == trimmed(ls@[j]@),
        decreases ls.len() - i,
    {
        r.push(trim(ls[i].as_str()));
        i = i + 1;
    }
    proof {
        assert(str_views(r@) =~= print_lines(text@));
    }
    r
}

pub fn arguments(text: &str) -> (r: Vec<String>)
    ensures
        str_views(r@) == arguments_spec(text@),
{
    let ls = trimmed_lines(text);
    let ghost views = str_views(ls@);
    let mut k: usize = 0;
    while k < ls.len() && !str_eq(ls[k].as_str(), "arguments = {")
        invariant
            k <= ls@.len(),
            views == str_views(ls@),
            index_from(views, "arguments = {"@, 0) == index_from(views, "arguments = {"@, k as int),
        decreases ls.len() - k,
    {
        k = k + 1;
    }
    let mut r: Vec<String> = Vec::new();
    if k == ls.len() {
        proof {
            assert(str_views(r@) =~= arguments_spec(text@));
        }
        return r;
    }
    proof {
        lemma_index_from(views, "arguments = {"@, 0);
    }
    let mut i = k + 1;
    while i < ls.len() && !str_eq(ls[i].as_str(), "}")
        invariant
            k < i <= ls@.len(),
            views == str_views(ls@),
            str_views(r@) + block_from(views, i as int) == block_from(views, k + 1),
        decreases ls.len() - i,
    {
        let ghost before = str_views(r@);
        r.push(ls[i].clone());
        proof {
            assert(str_views(r@) =~= before.push(views[i as int]));
            assert(str_views(r@) + block_from(views, i + 1) =~= before + block_from(views, i as int));
        }
        i = i + 1;
    }
    proof {
        assert(block_from(views, i as int) =~= Seq::<Seq<char>>::empty());
        assert(str_views(r@) + block_from(views, i as int) =~= str_views(r@));
    }
    r
}

/// The first line at or after `i` that starts with `prefix`, without it.
pub open spec fn field_from(ls: Seq<Seq<char>>, prefix: Seq<char>, i: int) -> Option<Seq<char>>
    decreases ls.len() - i,
{
    if i < 0 || i >= ls.len() {
        None
    } else if prefix.len() <= ls[i].len() && ls[i].subrange(0, prefix.len() as int) == prefix {
        Some(ls[i].subrange(prefix.len() as int, ls[i].len() as int))
    } else {
        field_from(ls, prefix, i + 1)
    }
}

/// What `str::parse::<u32>` accepts: an optional `+`, then at least one
/// decimal digit, the value fitting in a u32.
pub open spec fn parsed_u32(s: Seq<char>) -> Option<int> {
    let body = if s.len() > 0 && s[0] == '+' { s.drop_first() } else { s };
    if body.len() > 0 && crate::text::all_digits(body) && crate::text::digits_value(body) <= u32::MAX {
        Some(crate::text::digits_value(body) as int)
    } else {
        None
    }
}

fn parse_u32(s: &str) -> (r: Option<u32>)
    ensures
        match r {
            Some(v) => parsed_u32(s@) == Some(v as int),
            None => parsed_u32(s@) is None,
        },
{
    let v = chars_of(s);
    if v.len() > 0 && v[0] == '-' {
        return None;
    }
    match crate::text::parse_i64(s) {
        Some(n) => {
            if 0 <= n && n <= 0xffff_ffff {
                Some(n as u32)
            } else {
                None
            }
        },
        None => None,
    }
}

fn field(ls: &Vec<String>, key: &str) -> (r: Option<String>)
    ensures
        match r {
            Some(v) => field_from(str_views(ls@), key@ + " = "@, 0) == Some(v@),
            None => field_from(str_views(ls@), key@ + " = "@, 0) is None,
        },
{
    let mut prefix = String::from_str(key);
    append_str(&mut prefix, " = ");
    let ghost views = str_views(ls@);
    let mut i: usize = 0;
    while i < ls.len()
        invariant
            i <= ls@.len(),
            views == str_views(ls@),
            prefix@ == key@ + " = "@,
            field_from(views, prefix@, 0) == field_from(views, prefix@, i as int),
        decreases ls.len() - i,
    {
        if starts_with(ls[i].as_str(), prefix.as_str()) {
            let n = prefix.unicode_len();
            return Some(skip_chars(ls[i].as_str(), n));
        }
        i = i + 1;
    }
    None
}

/// What `launchctl print` says of the agent: its state (`loaded` when it
/// names none), its pid when it is running, and the flags it was started
/// with.
pub open spec fn agent_state(text: Seq<char>) -> Seq<char> {
    match field_from(print_lines(text), "state"@ + " = "@, 0) {
        Some(s) => s,
        None => "loaded"@,
    }
}

pub open spec fn agent_pid(text: Seq<char>) -> Option<int> {
    match field_from(print_lines(text), "pid"@ + " = "@, 0) {
        Some(p) => parsed_u32(p),
        None => None,
    }
}

pub open spec fn opt_string(o: Option<String>) -> Option<Seq<char>> {
    match o {
        Some(s) => Some(s@),
        None => None,
    }
}

/// Read what `launchctl print` reported about the agent.
pub fn parse_agent(text: &str) -> (r: Agent)
    ensures
        r.state@ == agent_state(text@),
        (match r.pid {
            Some(p) => agent_pid(text@) == Some(p as int),
            None => agent_pid(text@) is None,
        }),
        opt_string(r.profile) == flag_value_spec(arguments_spec(text@), "--profile"@),
        opt_string(r.device) == flag_value_spec(arguments_spec(text@), "--device"@),
        opt_string(r.interval) == flag_value_spec(arguments_spec(text@), "--interval"@),
{
    let ls = trimmed_lines(text);
    let state = match field(&ls, "state") {
        Some(s) => s,
        None => String::from_str("loaded"),
    };
    let pid = match field(&ls, "pid") {
        Some(p) => parse_u32(p.as_str()),
        None => None,
    };
    let args = arguments(text);
    Agent {
        state,
        pid,
        profile: flag_value(&args, "--profile"),
        device: flag_value(&args, "--device"),
        interval: flag_value(&args, "--interval"),
    }
}

/// The text of each `<string>` element: what follows each `<string>`, up to
/// its `</string>`.
pub open spec fn string_values(pieces: Seq<Seq<char>>) -> Seq<Seq<char>>
    decreases pieces.len(),
{
    if pieces.len() == 0 {
        seq![]
    } else {
        let rest = string_values(pieces.drop_last());
        match find_from(pieces.last(), "</string>"@, 0) {
            Some(k) => rest.push(pieces.last().subrange(0, k)),
            None => rest,
        }
    }
}

/// A daemon flag as recorded in the installed plist `text`: what the agent
/// will run with once loaded, readable while it is stopped.
pub open spec fn plist_flag_spec(text: Seq<char>, name: Seq<char>) -> Option<Seq<char>> {
    match flag_value_spec(string_values(split_spec(text, "<string>"@).drop_first()), name) {
        Some(v) => Some(unescaped(v)),
        None => None,
    }
}

pub fn plist_flag(text: &str, name: &str) -> (r: Option<String>)
    ensures
        opt_string(r) == plist_flag_spec(text@, name@),
{
    proof {
        reveal_strlit("<string>");
        reveal_strlit("</string>");
    }
    let pieces = split_str(text, "<string>");
    let close = chars_of("</string>");
    let mut strings: Vec<String> = Vec::new();
    let ghost pv = string_views(pieces@);
    proof {
        lemma_find_from(text@, "<string>"@, 0);
        assert(pv.len() > 0);
        assert(pv.subrange(1, 1) =~= Seq::<Seq<char>>::empty());
    }
    let mut i: usize = 1;
    while i < pieces.len()
        invariant
            1 <= i <= pieces@.len(),
            pv == string_views(pieces@),
            close@ == "</string>"@,
            close@.len() > 0,
            str_views(strings@) == string_values(pv.subrange(1, i as int)),
        decreases pieces.len() - i,
    {
        let ghost pre = pv.subrange(1, i + 1);
        proof {
            assert(pre.drop_last() =~= pv.subrange(1, i as int));
            assert(pre.last() == pieces@[i as int]@);
        }
        let p = chars_of(pieces[i].as_str());
        match find_chars(&p, &close, 0) {
            Some(k) => {
                proof {
                    lemma_find_from(p@, close@, 0);
                }
                let mut v = String::new();
                let mut t: usize = 0;
                while t < k
                    invariant
                        t <= k,
                        k <= p@.len(),
                        v@ == p@.subrange(0, t as int),
                    decreases k - t,
                {
                    v.push(p[t]);
                    t = t + 1;
                    proof {
                        assert(v@ =~= p@.subrange(0, t as int));
                    }
                }
                let ghost before = str_views(strings@);
                strings.push(v);
                proof {
                    assert(str_views(strings@) =~= before.push(p@.subrange(0, k as int)));
                }
            },
            None => {},
        }
        i = i + 1;
    }
    proof {
        assert(pv.subrange(1, pieces@.len() as int) =~= pv.drop_first());
    }
    match flag_value(&strings, name) {
        Some(v) => Some(xml_unescape(v.as_str())),
        None => None,
    }
}

pub open spec fn target_text(uid: u32) -> Seq<char> {
    "gui/"@ + nat_digits(uid as nat) + "/"@ + LABEL@
}

pub open spec fn domain_text(uid: u32) -> Seq<char> {
    "gui/"@ + nat_digits(uid as nat)
}

/// Starting the agent: load it from its plist, or kick it awake if it is
/// loaded but idle. Refused when it is not installed.
pub open spec fn start_spec(plist: Seq<char>, installed: bool, loaded: bool, uid: u32) -> Result<Seq<Seq<char>>, Seq<char>> {
    if !installed {
        Err("the login agent is not installed ("@ + plist + " does not exist) — run `kiyoctl install` first"@)
    } else if loaded {
        Ok(seq!["kickstart"@, target_text(uid)])
    } else {
        Ok(seq!["bootstrap"@, domain_text(uid), plist])
    }
}

pub open spec fn result_view(r: Result<Vec<String>, String>) -> Result<Seq<Seq<char>>, Seq<char>> {
    match r {
        Ok(v) => Ok(str_views(v@)),
        Err(e) => Err(e@),
    }
}

/// The `launchctl` arguments that start the agent installed at `plist`, given
/// whether that file exists and whether the agent is loaded. Idempotent.
pub fn start(plist: &str, installed: bool, loaded: bool, uid: u32) -> (r: Result<Vec<String>, String>)
    ensures
        result_view(r) == start_spec(plist@, installed, loaded, uid),
{
    if !installed {
        let mut e = String::from_str("the login agent is not installed (");
        append_str(&mut e, plist);
        append_str(&mut e, " does not exist) — run `kiyoctl install` first");
        return Err(e);
    }
    let mut v: Vec<String> = Vec::new();
    if loaded {
        v.push(String::from_str("kickstart"));
        v.push(target(uid));
    } else {
        v.push(String::from_str("bootstrap"));
        v.push(domain(uid));
        v.push(String::from_str(plist));
    }
    proof {
        assert(str_views(v@) =~= start_spec(plist@, installed, loaded, uid)->Ok_0);
    }
    Ok(v)
}

/// The `launchctl` arguments that unload the agent. It comes back at the
/// next login unless uninstalled.
pub fn stop(loaded: bool, uid: u32) -> (r: Result<Vec<String>, String>)
    ensures
        result_view(r) == (if loaded {
            Ok(seq!["bootout"@, target_text(uid)])
        } else {
            Err("the login agent is not loaded"@)
        }),
{
    if !loaded {
        return Err(String::from_str("the login agent is not loaded"));
    }
    let mut v: Vec<String> = Vec::new();
    v.push(String::from_str("bootout"));
    v.push(target(uid));
    proof {
        assert(str_views(v@) =~= seq!["bootout"@, target_text(uid)]);
    }
    Ok(v)
}

/// The `launchctl` arguments that restart the agent: a forced kickstart of a
/// loaded agent, or else a start.
pub fn restart(plist: &str, installed: bool, loaded: bool, uid: u32) -> (r: Result<Vec<String>, String>)
    ensures
        result_view(r) == (if loaded {
            Ok(seq!["kickstart"@, "-k"@, target_text(uid)])
        } else {
            start_spec(plist@, installed, loaded, uid)
        }),
{
    if loaded {
        let mut v: Vec<String> = Vec::new();
        v.push(String::from_str("kickstart"));
        v.push(String::from_str("-k"));
        v.push(target(uid));
        proof {
            assert(str_views(v@) =~= seq!["kickstart"@, "-k"@, target_text(uid)]);
        }
        return Ok(v);
    }
    start(plist, installed, loaded, uid)
}

/// The `launchctl` arguments that make the running daemon re-read its
/// profile and write it to the camera, or why that cannot be done. `agent`
/// is what launchd reports, None when the agent is not loaded.
pub fn reload(agent: Option<&Agent>, uid: u32) -> (r: Result<Vec<String>, String>)
    ensures
        result_view(r) == (match agent {
            Some(a) => if a.pid is Some {
                Ok(seq!["kill"@, "SIGHUP"@, target_text(uid)])
            } else {
                Err("the login agent is loaded but not running — try `kiyoctl daemon start`"@)
            },
            None => Err("the login agent is not running — use `kiyoctl apply` to apply the profile once"@),
        }),
{
    match agent {
        Some(a) => {
            if a.running() {
                let mut v: Vec<String> = Vec::new();
                v.push(String::from_str("kill"));
                v.push(String::from_str("SIGHUP"));
                v.push(target(uid));
                proof {
                    assert(str_views(v@) =~= seq!["kill"@, "SIGHUP"@, target_text(uid)]);
                }
                Ok(v)
            } else {
                Err(String::from_str("the login agent is loaded but not running — try `kiyoctl daemon start`"))
            }
        },
        None => Err(String::from_str("the login agent is not running — use `kiyoctl apply` to apply the profile once")),
    }
}

/// The headline of `status`, and the flags the agent runs with: as launchd
/// reports them when it is loaded, else as the installed plist `plist_text`
/// records them. None when it is not installed.
pub open spec fn status_head(agent: Option<Agent>, installed: bool, plist_text: Option<Seq<char>>) -> Option<(Seq<char>, Option<Seq<char>>, Option<Seq<char>>, Option<Seq<char>>)> {
    match agent {
        Some(a) => Some((
            match a.pid {
                Some(pid) => "Login agent: "@ + a.state@ + " (pid "@ + nat_digits(pid as nat) + ")"@,
                None => "Login agent: loaded but not running ("@ + a.state@ + ")"@,
            },
            opt_string(a.profile),
            opt_string(a.device),
            opt_string(a.interval),
        )),
        None => if installed {
            Some((
                "Login agent: stopped. Start it with `kiyoctl daemon start`."@,
                match plist_text {
                    Some(t) => plist_flag_spec(t, "--profile"@),
                    None => None,
                },
                match plist_text {
                    Some(t) => plist_flag_spec(t, "--device"@),
                    None => None,
                },
                match plist_text {
                    Some(t) => plist_flag_spec(t, "--interval"@),
                    None => None,
                },
            ))
        } else {
            None
        },
    }
}

/// What `status` prints: whether the agent is running, then which profile
/// and camera it watches, how often, and where its plist and log are.
/// `active` is the profile in use, which an agent not pinned to one follows.
pub open spec fn status_spec(
    agent: Option<Agent>,
    installed: bool,
    plist_text: Option<Seq<char>>,
    active: Seq<char>,
    plist: Seq<char>,
    log: Seq<char>,
) -> Seq<Seq<char>> {
    match status_head(agent, installed, plist_text) {
        None => seq!["Login agent: not installed. Install it with `kiyoctl install`."@],
        Some((head, profile, device, interval)) => seq![head, match profile {
            Some(p) => "  profile:  "@ + p + " (pinned at install)"@,
            None => "  profile:  "@ + active + " (whichever profile is in use)"@,
        }] + (match device {
            Some(d) => seq!["  device:   "@ + d],
            None => Seq::<Seq<char>>::empty(),
        }) + seq![
            "  interval: "@ + (match interval {
                Some(i) => i,
                None => "2"@,
            }) + "s"@,
            "  plist:    "@ + plist,
            "  log:      "@ + log,
        ]
    }
}

pub open spec fn opt_text(o: Option<&str>) -> Option<Seq<char>> {
    match o {
        Some(s) => Some(s@),
        None => None,
    }
}

fn flag_in(plist_text: Option<&str>, name: &str) -> (r: Option<String>)
    ensures
        opt_string(r) == (match opt_text(plist_text) {
            Some(t) => plist_flag_spec(t, name@),
            None => None,
        }),
{
    match plist_text {
        Some(t) => plist_flag(t, name),
        None => None,
    }
}

/// The lines `status` prints. `agent` is what launchd reports, `installed`
/// whether the plist exists and `plist_text` what it holds, when it could
/// be read.
pub fn status_lines(
    agent: Option<&Agent>,
    installed: bool,
    plist_text: Option<&str>,
    active: &str,
    plist: &str,
    log: &str,
) -> (r: Vec<String>)
    ensures
        str_views(r@) == status_spec(
            match agent {
                Some(a) => Some(*a),
                None => None,
            },
            installed,
            opt_text(plist_text),
            active@,
            plist@,
            log@,
        ),
{
    proof {
        reveal_strlit("--profile");
        reveal_strlit("--device");
        reveal_strlit("--interval");
    }
    let (head, profile, device, interval) = match agent {
        Some(a) => {
            let head = match a.pid {
                Some(pid) => {
                    let mut h = String::from_str("Login agent: ");
                    append_str(&mut h, a.state.as_str());
                    append_str(&mut h, " (pid ");
                    let n = fmt_u64(pid as u64);
                    append_str(&mut h, n.as_str());
                    append_str(&mut h, ")");
                    h
                },
                None => {
                    let mut h = String::from_str("Login agent: loaded but not running (");
                    append_str(&mut h, a.state.as_str());
                    append_str(&mut h, ")");
                    h
                },
            };
            (head, a.profile.clone(), a.device.clone(), a.interval.clone())
        },
        None => {
            if !installed {
                let mut out: Vec<String> = Vec::new();
                out.push(String::from_str("Login agent: not installed. Install it with `kiyoctl install`."));
                proof {
                    assert(str_views(out@) =~= seq!["Login agent: not installed. Install it with `kiyoctl install`."@]);
                }
                return out;
            }
            (
                String::from_str("Login agent: stopped. Start it with `kiyoctl daemon start`."),
                flag_in(plist_text, "--profile"),
                flag_in(plist_text, "--device"),
                flag_in(plist_text, "--interval"),
            )
        },
    };
    let mut out: Vec<String> = Vec::new();
    out.push(head);
    let mut p = String::from_str("  profile:  ");
    match &profile {
        Some(name) => {
            append_str(&mut p, name.as_str());
            append_str(&mut p, " (pinned at install)");
        },
        None => {
            append_str(&mut p, active);
            append_str(&mut p, " (whichever profile is in use)");
        },
    }
    out.push(p);
    let ghost first = str_views(out@);
    match &device {
        Some(d) => {
            let mut l = String::from_str("  device:   ");
            append_str(&mut l, d.as_str());
            out.push(l);
        },
        None => {},
    }
    let ghost second = str_views(out@);
    let mut l = String::from_str("  interval: ");
    match &interval {
        Some(i) => append_str(&mut l, i.as_str()),
        None => append_str(&mut l, "2"),
    }
    append_str(&mut l, "s");
    out.push(l);
    let mut pl = String::from_str("  plist:    ");
    append_str(&mut pl, plist);
    out.push(pl);
    let mut lg = String::from_str("  log:      ");
    append_str(&mut lg, log);
    out.push(lg);
    proof {
        let want = status_spec(
            match agent {
                Some(a) => Some(*a),
                None => None,
            },
            installed,
            opt_text(plist_text),
            active@,
            plist@,
            log@,
        );
        let h = status_head(
            match agent {
                Some(a) => Some(*a),
                None => None,
            },
            installed,
            opt_text(plist_text),
        );
        assert(h == Some((head@, opt_string(profile), opt_string(device), opt_string(interval))));
        assert(second =~= first + (match opt_string(device) {
            Some(d) => seq!["  device:   "@ + d],
            None => Seq::<Seq<char>>::empty(),
        }));
        assert(str_views(out@) =~= want);
    }
    out
}

/// No `<string>` tag can start inside `x`: no `<` is followed by `s`.
pub open spec fn no_tag(x: Seq<char>) -> bool {
    forall|u: int| 0 <= u < x.len() - 1 ==> !(#[trigger] x[u] == '<' && x[u + 1] == 's')
}

/// `x` holds no `<` at all, as escaped text does not.
pub open spec fn no_open(x: Seq<char>) -> bool {
    forall|u: int| 0 <= u < x.len() ==> #[trigger] x[u] != '<'
}

proof fn lemma_tags()
    ensures
        "<string>"@ =~= seq!['<', 's', 't', 'r', 'i', 'n', 'g', '>'],
        "</string>"@ =~= seq!['<', '/', 's', 't', 'r', 'i', 'n', 'g', '>'],
{
    reveal_strlit("<string>");
    reveal_strlit("</string>");
}

/// Splitting at a `<string>` tag that follows text no tag can start in.
proof fn lemma_split_tag(x: Seq<char>, y: Seq<char>)
    requires
        no_tag(x),
    ensures
        split_spec(x + "<string>"@ + y, "<string>"@) == seq![x] + split_spec(y, "<string>"@),
{
    lemma_tags();
    let tag = "<string>"@;
    let t = x + tag + y;
    assert forall|u: int| 0 <= u < x.len() implies !occurs_at(t, tag, u) by {
        if occurs_at(t, tag, u) {
            assert(t.subrange(u, u + 8)[0] == '<');
            assert(t.subrange(u, u + 8)[1] == 's');
            assert(t[u] == '<' && t[u + 1] == 's');
            if u + 1 < x.len() {
                assert(x[u] == '<' && x[u + 1] == 's');
            } else {
                assert(t[u + 1] == tag[0]);
            }
        }
    }
    lemma_find_skip(t, tag, x.len() as int);
    assert(t.subrange(x.len() as int, x.len() as int + 8) =~= tag);
    assert(find_from(t, tag, x.len() as int) == Some(x.len() as int));
    lemma_split_shift(x + tag, y, tag, 0);
    assert(t.subrange(0, x.len() as int) =~= x);
    assert((x + tag).len() + 0 == x.len() + tag.len());
}

/// Text no tag can start in is a single piece.
proof fn lemma_split_last(z: Seq<char>)
    requires
        no_tag(z),
    ensures
        split_spec(z, "<string>"@) == seq![z],
{
    lemma_tags();
    let tag = "<string>"@;
    assert forall|u: int| 0 <= u implies !occurs_at(z, tag, u) by {
        if occurs_at(z, tag, u) {
            assert(z.subrange(u, u + 8)[0] == '<');
            assert(z.subrange(u, u + 8)[1] == 's');
            assert(z[u] == '<' && z[u + 1] == 's');
        }
    }
    lemma_find_from(z, tag, 0);
    assert(find_from(z, tag, 0) is None);
    assert(z.subrange(0, z.len() as int) =~= z);
}

proof fn lemma_no_tag_concat(a: Seq<char>, b: Seq<char>)
    requires
        no_tag(a),
        no_tag(b),
        a.len() == 0 || b.len() == 0 || a.last() != '<' || b[0] != 's',
    ensures
        no_tag(a + b),
{
    let t = a + b;
    assert forall|u: int| 0 <= u < t.len() - 1 implies !(#[trigger] t[u] == '<' && t[u + 1] == 's') by {
        if u + 1 < a.len() {
            assert(t[u] == a[u] && t[u + 1] == a[u + 1]);
        } else if u >= a.len() {
            assert(t[u] == b[u - a.len()] && t[u + 1] == b[u + 1 - a.len()]);
        } else {
            assert(t[u] == a[a.len() - 1] && t[u + 1] == b[0]);
        }
    }
}

proof fn lemma_no_open_no_tag(x: Seq<char>)
    requires
        no_open(x),
    ensures
        no_tag(x),
{
    assert forall|u: int| 0 <= u < x.len() - 1 implies !(#[trigger] x[u] == '<' && x[u + 1] == 's') by {
        assert(x[u] != '<');
    }
}

proof fn lemma_escaped_no_open(s: Seq<char>)
    ensures
        no_open(escaped(s)),
    decreases s.len(),
{
    lemma_entities();
    if s.len() > 0 {
        lemma_escaped_no_open(s.drop_last());
        let a = escaped(s.drop_last());
        let b = escaped_char(s.last());
        assert forall|u: int| 0 <= u < (a + b).len() implies #[trigger] (a + b)[u] != '<' by {
            if u < a.len() {
                assert((a + b)[u] == a[u]);
            } else {
                assert((a + b)[u] == b[u - a.len()]);
            }
        }
    }
}

/// The first `</string>` after text with no `<` in it ends that text.
proof fn lemma_close_after(e: Seq<char>, more: Seq<char>)
    requires
        no_open(e),
    ensures
        string_values(seq![e + "</string>"@ + more]) == seq![e],
{
    lemma_tags();
    let close = "</string>"@;
    let t = e + close + more;
    assert forall|u: int| 0 <= u < e.len() implies !occurs_at(t, close, u) by {
        if occurs_at(t, close, u) {
            assert(t.subrange(u, u + 9)[0] == '<');
            assert(t[u] == e[u]);
        }
    }
    lemma_find_skip(t, close, e.len() as int);
    assert(t.subrange(e.len() as int, e.len() as int + 9) =~= close);
    assert(find_from(t, close, 0) == Some(e.len() as int));
    assert(seq![t].drop_last() =~= Seq::<Seq<char>>::empty());
    assert(string_values(seq![t].drop_last()) =~= Seq::<Seq<char>>::empty());
    assert(seq![t].last() == t);
    assert(t.subrange(0, e.len() as int) =~= e);
    assert(string_values(seq![t]) =~= seq![e]);
}

proof fn lemma_string_values_append(p: Seq<Seq<char>>, q: Seq<Seq<char>>)
    ensures
        string_values(p + q) == string_values(p) + string_values(q),
    decreases q.len(),
{
    if q.len() == 0 {
        assert(p + q =~= p);
        assert(string_values(q) =~= Seq::<Seq<char>>::empty());
        assert(string_values(p) + string_values(q) =~= string_values(p));
    } else {
        assert((p + q).drop_last() =~= p + q.drop_last());
        assert((p + q).last() == q.last());
        lemma_string_values_append(p, q.drop_last());
        match find_from(q.last(), "</string>"@, 0) {
            Some(k) => {
                assert(string_values(p) + string_values(q.drop_last()).push(q.last().subrange(0, k)) =~= (
                string_values(p) + string_values(q.drop_last())).push(q.last().subrange(0, k)));
            },
            None => {},
        }
    }
}

/// What stands between the last argument and the next `<string>` tag.
pub open spec fn after_array() -> Seq<char> {
    "  </array>\n  <key>RunAtLoad</key>\n  <true/>\n  <key>KeepAlive</key>\n  <true/>\n  <key>ProcessType</key>\n  "@
}

/// What follows an argument's `<string>` element: the next one's indent,
/// or the end of the array.
pub open spec fn lead(args: Seq<Seq<char>>) -> Seq<char> {
    if args.len() == 0 {
        after_array()
    } else {
        "    "@
    }
}

/// The arguments' lines, built from the front.
pub open spec fn args_front(args: Seq<Seq<char>>) -> Seq<char>
    decreases args.len(),
{
    if args.len() == 0 {
        seq![]
    } else {
        "    <string>"@ + escaped(args[0]) + "</string>\n"@ + args_front(args.drop_first())
    }
}

/// The pieces the arguments' lines fall into when split at `<string>`.
pub open spec fn arg_pieces(args: Seq<Seq<char>>) -> Seq<Seq<char>>
    decreases args.len(),
{
    if args.len() == 0 {
        seq![]
    } else {
        seq![escaped(args[0]) + "</string>"@ + ("\n"@ + lead(args.drop_first()))] + arg_pieces(args.drop_first())
    }
}

proof fn lemma_pieces_literals()
    ensures
        "    <string>"@ =~= "    "@ + "<string>"@,
        "</string>\n"@ =~= "</string>"@ + "\n"@,
        "    "@ =~= seq![' ', ' ', ' ', ' '],
        "\n"@ =~= seq!['\n'],
        no_tag(after_array()),
        after_array()[0] == ' ',
        no_tag("</string>"@ + "\n"@),
{
    reveal_strlit("    <string>");
    reveal_strlit("</string>\n");
    reveal_strlit("    ");
    reveal_strlit("\n");
    reveal_strlit("  </array>\n  <key>RunAtLoad</key>\n  <true/>\n  <key>KeepAlive</key>\n  <true/>\n  <key>ProcessType</key>\n  ");
    lemma_tags();
}

proof fn lemma_args_front_push(args: Seq<Seq<char>>, a: Seq<char>)
    ensures
        args_front(args.push(a)) == args_front(args) + ("    <string>"@ + escaped(a) + "</string>\n"@),
    decreases args.len(),
{
    if args.len() == 0 {
        assert(args.push(a).drop_first() =~= Seq::<Seq<char>>::empty());
        assert(args.push(a)[0] == a);
        assert(args_front(args.push(a).drop_first()) =~= Seq::<char>::empty());
        assert(args_front(args) =~= Seq::<char>::empty());
        assert(args_front(args.push(a)) =~= args_front(args) + ("    <string>"@ + escaped(a) + "</string>\n"@));
    } else {
        assert(args.push(a).drop_first() =~= args.drop_first().push(a));
        assert(args.push(a)[0] == args[0]);
        lemma_args_front_push(args.drop_first(), a);
        let h = "    <string>"@ + escaped(args[0]) + "</string>\n"@;
        assert(h + (args_front(args.drop_first()) + ("    <string>"@ + escaped(a) + "</string>\n"@)) =~= h
            + args_front(args.drop_first()) + ("    <string>"@ + escaped(a) + "</string>\n"@));
    }
}

proof fn lemma_args_xml_front(args: Seq<Seq<char>>)
    ensures
        args_xml(args) == args_front(args),
    decreases args.len(),
{
    if args.len() > 0 {
        lemma_args_xml_front(args.drop_last());
        lemma_args_front_push(args.drop_last(), args.last());
        assert(args.drop_last().push(args.last()) =~= args);
        let e = escaped(args.last());
        assert(args_xml(args.drop_last()) + "    <string>"@ + e + "</string>\n"@ =~= args_xml(args.drop_last()) + (
        "    <string>"@ + e + "</string>\n"@));
    }
}

/// Splitting the array of arguments at `<string>`: what came before with the
/// indent of the first argument, then each argument's piece, then the rest.
proof fn lemma_split_args(w: Seq<char>, args: Seq<Seq<char>>, rest: Seq<char>)
    requires
        no_tag(w),
    ensures
        split_spec(w + args_front(args) + after_array() + "<string>"@ + rest, "<string>"@) == seq![w + lead(args)]
            + arg_pieces(args) + split_spec(rest, "<string>"@),
    decreases args.len(),
{
    lemma_pieces_literals();
    lemma_tags();
    let tag = "<string>"@;
    if args.len() == 0 {
        lemma_no_tag_concat(w, after_array());
        assert(w + args_front(args) + after_array() + tag + rest =~= (w + after_array()) + tag + rest);
        lemma_split_tag(w + after_array(), rest);
        assert(arg_pieces(args) =~= Seq::<Seq<char>>::empty());
        assert(seq![w + lead(args)] + arg_pieces(args) + split_spec(rest, tag) =~= seq![w + after_array()] + split_spec(rest, tag));
    } else {
        let a = args[0];
        let more = args.drop_first();
        let e = escaped(a);
        let w2 = e + ("</string>"@ + "\n"@);
        lemma_escaped_no_open(a);
        lemma_no_open_no_tag(e);
        lemma_no_tag_concat(e, "</string>"@ + "\n"@);
        assert(e + ("</string>"@ + "\n"@) =~= e + "</string>\n"@);
        lemma_no_tag_concat(w, "    "@);
        assert(w + args_front(args) + after_array() + tag + rest =~= (w + "    "@) + tag + (w2 + args_front(more)
            + after_array() + tag + rest));
        lemma_split_tag(w + "    "@, w2 + args_front(more) + after_array() + tag + rest);
        lemma_split_args(w2, more, rest);
        assert(arg_pieces(args) == seq![e + "</string>"@ + ("\n"@ + lead(more))] + arg_pieces(more));
        assert(w2 + lead(more) =~= e + "</string>"@ + ("\n"@ + lead(more)));
        assert(seq![w + "    "@] + (seq![w2 + lead(more)] + arg_pieces(more) + split_spec(rest, tag)) =~= seq![w
            + lead(args)] + arg_pieces(args) + split_spec(rest, tag));
    }
}

proof fn lemma_arg_values(args: Seq<Seq<char>>)
    ensures
        string_values(arg_pieces(args)) == args.map_values(|a: Seq<char>| escaped(a)),
    decreases args.len(),
{
    if args.len() == 0 {
        assert(string_values(arg_pieces(args)) =~= args.map_values(|a: Seq<char>| escaped(a)));
    } else {
        let more = args.drop_first();
        let piece = escaped(args[0]) + "</string>"@ + ("\n"@ + lead(more));
        lemma_escaped_no_open(args[0]);
        lemma_close_after(escaped(args[0]), "\n"@ + lead(more));
        lemma_string_values_append(seq![piece], arg_pieces(more));
        lemma_arg_values(more);
        assert(args.map_values(|a: Seq<char>| escaped(a)) =~= seq![escaped(args[0])] + more.map_values(
            |a: Seq<char>| escaped(a),
        ));
    }
}

proof fn lemma_plist_literals()
    ensures
        plist_head() =~= "<?xml version=\"1.0\" encoding=\"UTF-8\"?>\n<!DOCTYPE plist PUBLIC \"-//Apple//DTD PLIST 1.0//EN\" \"http://www.apple.com/DTDs/PropertyList-1.0.dtd\">\n<plist version=\"1.0\">\n<dict>\n  <key>Label</key>\n  "@
            + "<string>"@,
        no_tag("<?xml version=\"1.0\" encoding=\"UTF-8\"?>\n<!DOCTYPE plist PUBLIC \"-//Apple//DTD PLIST 1.0//EN\" \"http://www.apple.com/DTDs/PropertyList-1.0.dtd\">\n<plist version=\"1.0\">\n<dict>\n  <key>Label</key>\n  "@),
        plist_after_label() =~= "</string>"@ + "\n  <key>ProgramArguments</key>\n  <array>\n"@,
        no_tag(LABEL@ + plist_after_label()),
        no_open(LABEL@),
        plist_after_args() =~= after_array() + "<string>"@ + ("Background"@ + "</string>"@ + "\n  <key>StandardOutPath</key>\n  "@)
            + "<string>"@,
        no_tag("Background"@ + "</string>"@ + "\n  <key>StandardOutPath</key>\n  "@),
        no_open("Background"@),
        plist_between_logs() =~= "</string>"@ + "\n  <key>StandardErrorPath</key>\n  "@ + "<string>"@,
        no_tag("</string>"@ + "\n  <key>StandardErrorPath</key>\n  "@),
        plist_tail() =~= "</string>"@ + "\n</dict>\n</plist>\n"@,
        no_tag("</string>"@ + "\n</dict>\n</plist>\n"@),
{
    lemma_tags();
    reveal_strlit("<?xml version=\"1.0\" encoding=\"UTF-8\"?>\n<!DOCTYPE plist PUBLIC \"-//Apple//DTD PLIST 1.0//EN\" \"http://www.apple.com/DTDs/PropertyList-1.0.dtd\">\n<plist version=\"1.0\">\n<dict>\n  <key>Label</key>\n  <string>");
    reveal_strlit("<?xml version=\"1.0\" encoding=\"UTF-8\"?>\n<!DOCTYPE plist PUBLIC \"-//Apple//DTD PLIST 1.0//EN\" \"http://www.apple.com/DTDs/PropertyList-1.0.dtd\">\n<plist version=\"1.0\">\n<dict>\n  <key>Label</key>\n  ");
    reveal_strlit("</string>\n  <key>ProgramArguments</key>\n  <array>\n");
    reveal_strlit("\n  <key>ProgramArguments</key>\n  <array>\n");
    reveal_strlit("local.kiyoctl");
    reveal_strlit("  </array>\n  <key>RunAtLoad</key>\n  <true/>\n  <key>KeepAlive</key>\n  <true/>\n  <key>ProcessType</key>\n  <string>Background</string>\n  <key>StandardOutPath</key>\n  <string>");
    reveal_strlit("  </array>\n  <key>RunAtLoad</key>\n  <true/>\n  <key>KeepAlive</key>\n  <true/>\n  <key>ProcessType</key>\n  ");
    reveal_strlit("Background");
    reveal_strlit("\n  <key>StandardOutPath</key>\n  ");
    reveal_strlit("</string>\n  <key>StandardErrorPath</key>\n  <string>");
    reveal_strlit("\n  <key>StandardErrorPath</key>\n  ");
    reveal_strlit("</string>\n</dict>\n</plist>\n");
    reveal_strlit("\n</dict>\n</plist>\n");
}

/// The text of every `<string>` element of the plist after the first `<string>`
/// tag: the label, each argument and the log paths, as written, escaped.
proof fn lemma_plist_values(args: Seq<Seq<char>>, log: Seq<char>)
    ensures
        string_values(split_spec(plist_text(args, log), "<string>"@).drop_first()) == seq![LABEL@]
            + args.map_values(|a: Seq<char>| escaped(a)) + seq!["Background"@, escaped(log), escaped(log)],
{
    lemma_plist_literals();
    lemma_tags();
    let tag = "<string>"@;
    let h = "<?xml version=\"1.0\" encoding=\"UTF-8\"?>\n<!DOCTYPE plist PUBLIC \"-//Apple//DTD PLIST 1.0//EN\" \"http://www.apple.com/DTDs/PropertyList-1.0.dtd\">\n<plist version=\"1.0\">\n<dict>\n  <key>Label</key>\n  "@;
    let w = LABEL@ + plist_after_label();
    let el = escaped(log);
    let bg = "Background"@ + "</string>"@ + "\n  <key>StandardOutPath</key>\n  "@;
    let bt = el + ("</string>"@ + "\n  <key>StandardErrorPath</key>\n  "@);
    let r3 = el + ("</string>"@ + "\n</dict>\n</plist>\n"@);
    let r2 = bt + tag + r3;
    let r1 = bg + tag + r2;
    lemma_args_xml_front(args);
    assert(plist_text(args, log) =~= h + tag + (w + args_front(args) + after_array() + tag + r1));
    lemma_split_tag(h, w + args_front(args) + after_array() + tag + r1);
    lemma_split_args(w, args, r1);
    lemma_split_tag(bg, r2);
    lemma_escaped_no_open(log);
    lemma_no_open_no_tag(el);
    lemma_no_tag_concat(el, "</string>"@ + "\n  <key>StandardErrorPath</key>\n  "@);
    lemma_split_tag(bt, r3);
    lemma_no_tag_concat(el, "</string>"@ + "\n</dict>\n</plist>\n"@);
    lemma_split_last(r3);
    let ps = seq![w + lead(args)] + arg_pieces(args) + seq![bg, bt, r3];
    assert(split_spec(plist_text(args, log), tag).drop_first() =~= ps);
    assert(w + lead(args) =~= LABEL@ + "</string>"@ + ("\n  <key>ProgramArguments</key>\n  <array>\n"@ + lead(args)));
    lemma_close_after(LABEL@, "\n  <key>ProgramArguments</key>\n  <array>\n"@ + lead(args));
    lemma_close_after("Background"@, "\n  <key>StandardOutPath</key>\n  "@);
    assert(bt =~= el + "</string>"@ + "\n  <key>StandardErrorPath</key>\n  "@);
    lemma_close_after(el, "\n  <key>StandardErrorPath</key>\n  "@);
    assert(r3 =~= el + "</string>"@ + "\n</dict>\n</plist>\n"@);
    lemma_close_after(el, "\n</dict>\n</plist>\n"@);
    lemma_arg_values(args);
    lemma_string_values_append(seq![w + lead(args)], arg_pieces(args));
    lemma_string_values_append(seq![w + lead(args)] + arg_pieces(args), seq![bg, bt, r3]);
    lemma_string_values_append(seq![bg], seq![bt, r3]);
    lemma_string_values_append(seq![bt], seq![r3]);
    assert(seq![bg] + seq![bt, r3] =~= seq![bg, bt, r3]);
    assert(seq![bt] + seq![r3] =~= seq![bt, r3]);
    assert(string_values(seq![bg, bt, r3]) =~= seq!["Background"@, el, el]);
}

/// Text with none of the characters XML escapes.
pub open spec fn plain(s: Seq<char>) -> bool {
    forall|i: int| 0 <= i < s.len() ==> #[trigger] s[i] != '&' && s[i] != '<' && s[i] != '>'
}

/// Not one of the flags the agent's command line carries.
pub open spec fn not_flag(s: Seq<char>) -> bool {
    s != "--profile"@ && s != "--device"@ && s != "--interval"@
}

proof fn lemma_plain_escaped(s: Seq<char>)
    requires
        plain(s),
    ensures
        escaped(s) == s,
    decreases s.len(),
{
    if s.len() > 0 {
        assert(plain(s.drop_last()));
        lemma_plain_escaped(s.drop_last());
        assert(s.drop_last() + seq![s.last()] =~= s);
    }
}

proof fn lemma_replaced_absent(x: Seq<char>, pat: Seq<char>, rep: Seq<char>)
    requires
        pat.len() > 0,
        pat[0] == '&',
        forall|i: int| 0 <= i < x.len() ==> #[trigger] x[i] != '&',
    ensures
        replaced(x, pat, rep) == x,
{
    assert forall|u: int| 0 <= u implies !occurs_at(x, pat, u) by {
        if occurs_at(x, pat, u) {
            assert(x.subrange(u, u + pat.len())[0] == pat[0]);
        }
    }
    lemma_find_from(x, pat, 0);
    lemma_replace_step(x, pat, rep, 0);
    assert(x.subrange(0, x.len() as int) =~= x);
}

/// Text with no `&` is its own unescaping.
proof fn lemma_unescaped_plain(x: Seq<char>)
    requires
        forall|i: int| 0 <= i < x.len() ==> #[trigger] x[i] != '&',
    ensures
        unescaped(x) == x,
{
    lemma_entities();
    lemma_replaced_absent(x, "&lt;"@, "<"@);
    lemma_replaced_absent(x, "&gt;"@, ">"@);
    lemma_replaced_absent(x, "&amp;"@, "&"@);
}

/// Escaped text equal to text with nothing to escape was that text.
proof fn lemma_escaped_is_plain(x: Seq<char>, name: Seq<char>)
    requires
        plain(name),
        escaped(x) == name,
    ensures
        x == name,
{
    lemma_unescape_escaped(x);
    assert forall|i: int| 0 <= i < name.len() implies #[trigger] name[i] != '&' by {
        assert(plain(name));
    }
    lemma_unescaped_plain(name);
}

proof fn lemma_digit_chars(n: nat)
    ensures
        nat_digits(n).len() > 0,
        forall|i: int| 0 <= i < nat_digits(n).len() ==> '0' <= #[trigger] nat_digits(n)[i] <= '9',
    decreases n,
{
    if n >= 10 {
        lemma_digit_chars(n / 10);
        assert(hex_char((n % 10) as int) == ((48 + (n % 10) as int) as char));
    }
}

proof fn lemma_flag_literals()
    ensures
        "--profile"@ =~= seq!['-', '-', 'p', 'r', 'o', 'f', 'i', 'l', 'e'],
        "--device"@ =~= seq!['-', '-', 'd', 'e', 'v', 'i', 'c', 'e'],
        "--interval"@ =~= seq!['-', '-', 'i', 'n', 't', 'e', 'r', 'v', 'a', 'l'],
        "daemon"@ =~= seq!['d', 'a', 'e', 'm', 'o', 'n'],
        "Background"@ =~= seq!['B', 'a', 'c', 'k', 'g', 'r', 'o', 'u', 'n', 'd'],
        LABEL@ =~= seq!['l', 'o', 'c', 'a', 'l', '.', 'k', 'i', 'y', 'o', 'c', 't', 'l'],
{
    reveal_strlit("--profile");
    reveal_strlit("--device");
    reveal_strlit("--interval");
    reveal_strlit("daemon");
    reveal_strlit("Background");
    reveal_strlit("local.kiyoctl");
}

/// What `status` reads from the installed plist while the agent is stopped
/// is what `install` wrote into it: the profile it was pinned to, the camera
/// it was told to watch, and how often it polls. This holds whenever none of
/// the values written is itself one of those flags' names.
pub proof fn lemma_plist_flags_read_back(
    binary: Seq<char>,
    profile: Option<Seq<char>>,
    device: Option<Seq<char>>,
    interval: nat,
    log: Seq<char>,
)
    requires
        not_flag(binary),
        not_flag(log),
        profile matches Some(p) ==> not_flag(p),
        device matches Some(d) ==> not_flag(d),
    ensures
        plist_flag_spec(plist_text(agent_args(binary, profile, device, interval), log), "--profile"@) == profile,
        plist_flag_spec(plist_text(agent_args(binary, profile, device, interval), log), "--device"@) == device,
        plist_flag_spec(plist_text(agent_args(binary, profile, device, interval), log), "--interval"@) == Some(
            nat_digits(interval),
        ),
{
    lemma_flag_literals();
    let args = agent_args(binary, profile, device, interval);
    let digits = nat_digits(interval);
    lemma_digit_chars(interval);
    let v = seq![LABEL@] + args.map_values(|a: Seq<char>| escaped(a)) + seq!["Background"@, escaped(log), escaped(log)];
    lemma_plist_values(args, log);
    assert(plain("--profile"@));
    assert(plain("--device"@));
    assert(plain("--interval"@));
    assert(plain("daemon"@));
    assert(plain(digits));
    lemma_plain_escaped("--profile"@);
    lemma_plain_escaped("--device"@);
    lemma_plain_escaped("--interval"@);
    lemma_plain_escaped("daemon"@);
    lemma_plain_escaped(digits);
    assert forall|x: Seq<char>| not_flag(x) implies #[trigger] not_flag(escaped(x)) by {
        if escaped(x) == "--profile"@ {
            lemma_escaped_is_plain(x, "--profile"@);
        }
        if escaped(x) == "--device"@ {
            lemma_escaped_is_plain(x, "--device"@);
        }
        if escaped(x) == "--interval"@ {
            lemma_escaped_is_plain(x, "--interval"@);
        }
    }
    assert(not_flag(escaped(binary)));
    assert(not_flag(escaped(log)));
    assert(digits[0] != '-');
    assert(not_flag(digits));
    assert(not_flag(LABEL@));
    assert(not_flag("daemon"@));
    assert(not_flag("Background"@));
    assert forall|i: int| 0 <= i < digits.len() implies #[trigger] digits[i] != '&' by {}
    lemma_unescaped_plain(digits);
    reveal_with_fuel(index_from, 12);
    match profile {
        Some(p) => {
            assert(not_flag(escaped(p)));
            lemma_unescape_escaped(p);
        },
        None => {},
    }
    match device {
        Some(d) => {
            assert(not_flag(escaped(d)));
            lemma_unescape_escaped(d);
        },
        None => {},
    }
    assert(v[1] == escaped(binary));
    assert(v[2] == "daemon"@);
    assert(v[3] == "--interval"@);
    assert(v[4] == digits);
}

} // verus!
