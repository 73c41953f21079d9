//! Character-level helpers shared by the formatting and parsing code.

use vstd::prelude::*;

verus! {

/// `String::push` appends one character.
pub assume_specification[ String::push ](s: &mut String, ch: char)
    ensures
        final(s)@ == old(s)@.push(ch),
;

/// The characters of a string slice, in order.
pub(crate) fn chars_of(s: &str) -> (v: Vec<char>)
    ensures
        v@ == s@,
{
    let n = s.unicode_len();
    let mut v: Vec<char> = Vec::new();
    let mut i: usize = 0;
    while i < n
        invariant
            n == s@.len(),
            i <= n,
            v@ == s@.subrange(0, i as int),
        decreases n - i,
    {
        v.push(s.get_char(i));
        i = i + 1;
        proof {
            assert(v@ =~= s@.subrange(0, i as int));
        }
    }
    proof {
        assert(s@.subrange(0, n as int) =~= s@);
    }
    v
}

/// What an optional reference points at.
pub open spec fn opt_deref<T>(o: Option<&T>) -> Option<T> {
    match o {
        Some(x) => Some(*x),
        None => None,
    }
}

/// An optional i64 as an optional integer.
pub open spec fn opt_int(o: Option<i64>) -> Option<int> {
    match o {
        Some(x) => Some(x as int),
        None => None,
    }
}

pub open spec fn hex_char(d: int) -> char {
    if d < 10 {
        (48 + d) as char
    } else {
        (87 + d) as char
    }
}

/// Decimal digits of a natural number, most significant first.
pub open spec fn nat_digits(n: nat) -> Seq<char>
    decreases n,
{
    if n < 10 {
        seq![hex_char(n as int)]
    } else {
        nat_digits(n / 10).push(hex_char((n % 10) as int))
    }
}

/// `i64::to_string`: decimal, with a leading `-` for negatives.
pub open spec fn int_digits(i: int) -> Seq<char> {
    if i < 0 {
        seq!['-'] + nat_digits((-i) as nat)
    } else {
        nat_digits(i as nat)
    }
}

/// Lower-case hexadecimal digits, most significant first.
pub open spec fn hex_digits(n: nat) -> Seq<char>
    decreases n,
{
    if n < 16 {
        seq![hex_char(n as int)]
    } else {
        hex_digits(n / 16).push(hex_char((n % 16) as int))
    }
}

/// `format!("{:0w$x}", n)`: hex digits left-padded with zeros to `width`.
pub open spec fn hex_padded(n: nat, width: nat) -> Seq<char> {
    let d = hex_digits(n);
    if d.len() >= width {
        d
    } else {
        Seq::new((width - d.len()) as nat, |_i: int| '0') + d
    }
}

pub fn digit_char(d: u8) -> (c: char)
    requires
        d < 16,
    ensures
        c == hex_char(d as int),
{
    if d < 10 {
        (48u8 + d) as char
    } else {
        (87u8 + d) as char
    }
}

fn push_decimal(s: &mut String, n: u64)
    ensures
        final(s)@ == old(s)@ + nat_digits(n as nat),
    decreases n,
{
    if n >= 10 {
        push_decimal(s, n / 10);
    }
    let c = digit_char((n % 10) as u8);
    s.push(c);
}

fn push_hex(s: &mut String, n: u64)
    ensures
        final(s)@ == old(s)@ + hex_digits(n as nat),
    decreases n,
{
    if n >= 16 {
        push_hex(s, n / 16);
    }
    let c = digit_char((n % 16) as u8);
    s.push(c);
}

/// Appends the decimal form of `n`.
pub fn append_int(s: &mut String, n: i64)
    ensures
        final(s)@ == old(s)@ + int_digits(n as int),
{
    if n < 0 {
        s.push('-');
        let mag: u64 = (0i128 - n as i128) as u64;
        push_decimal(s, mag);
    } else {
        push_decimal(s, n as u64);
    }
}

/// The decimal form of `n`, as `n.to_string()` gives it.
pub fn fmt_int(n: i64) -> (s: String)
    ensures
        s@ == int_digits(n as int),
{
    let mut s = String::new();
    append_int(&mut s, n);
    s
}

/// Appends `n` in lower-case hex, zero-padded to `width` digits.
pub fn append_hex(s: &mut String, n: u64, width: usize)
    ensures
        final(s)@ == old(s)@ + hex_padded(n as nat, width as nat),
{
    let mut digits = String::new();
    push_hex(&mut digits, n);
    let len = digits.unicode_len();
    let ghost start = s@;
    if len < width {
        let mut k: usize = 0;
        while k < width - len
            invariant
                len < width,
                len == digits@.len(),
                digits@ == hex_digits(n as nat),
                k <= width - len,
                s@ == start + Seq::new(k as nat, |_i: int| '0'),
            decreases width - len - k,
        {
            s.push('0');
            k = k + 1;
            proof {
                assert(s@ =~= start + Seq::new(k as nat, |_i: int| '0'));
            }
        }
    }
    append_str(s, digits.as_str());
    proof {
        if len < width {
            assert(final(s)@ =~= start + hex_padded(n as nat, width as nat));
        }
    }
}

/// Appends `t` to `s`.
pub fn append_str(s: &mut String, t: &str)
    ensures
        final(s)@ == old(s)@ + t@,
{
    s.append(t);
}

/// A string made of the given characters.
pub fn from_chars(v: &Vec<char>) -> (s: String)
    ensures
        s@ == v@,
{
    let mut s = String::new();
    let mut i: usize = 0;
    while i < v.len()
        invariant
            i <= v.len(),
            s@ == v@.subrange(0, i as int),
        decreases v.len() - i,
    {
        s.push(v[i]);
        i = i + 1;
        proof {
            assert(s@ =~= v@.subrange(0, i as int));
        }
    }
    proof {
        assert(v@.subrange(0, v.len() as int) =~= v@);
    }
    s
}

/// Whether two string slices hold the same characters.
pub fn str_eq(a: &str, b: &str) -> (r: bool)
    ensures
        r == (a@ == b@),
{
    let x = chars_of(a);
    let y = chars_of(b);
    seq_eq(&x, &y)
}

pub fn seq_eq(x: &Vec<char>, y: &Vec<char>) -> (r: bool)
    ensures
        r == (x@ == y@),
{
    if x.len() != y.len() {
        return false;
    }
    let mut i: usize = 0;
    while i < x.len()
        invariant
            x.len() == y.len(),
            i <= x.len(),
            forall|j: int| 0 <= j < i ==> x@[j] == y@[j],
        decreases x.len() - i,
    {
        if x[i] != y[i] {
            return false;
        }
        i = i + 1;
    }
    proof {
        assert(x@ =~= y@);
    }
    true
}


/// The Unicode `White_Space` property, which `char::is_whitespace` reports:
/// the controls U+0009 to U+000D, the space, U+0085, the no-break space,
/// U+1680, the spaces U+2000 to U+200A, the line and paragraph separators
/// U+2028 and U+2029, U+202F, U+205F and U+3000.
pub open spec fn unicode_whitespace(c: char) -> bool {
    ('\u{9}' <= c && c <= '\u{d}') || c == ' ' || c == '\u{85}' || c == '\u{a0}' || c == '\u{1680}'
        || ('\u{2000}' <= c && c <= '\u{200a}') || c == '\u{2028}' || c == '\u{2029}' || c == '\u{202f}'
        || c == '\u{205f}' || c == '\u{3000}'
}

/// Whether `c` is white space, as `char::is_whitespace` reports it.
pub fn is_whitespace(c: char) -> (r: bool)
    ensures
        r == unicode_whitespace(c),
{
    ('\u{9}' <= c && c <= '\u{d}') || c == ' ' || c == '\u{85}' || c == '\u{a0}' || c == '\u{1680}'
        || ('\u{2000}' <= c && c <= '\u{200a}') || c == '\u{2028}' || c == '\u{2029}' || c == '\u{202f}'
        || c == '\u{205f}' || c == '\u{3000}'
}

/// The lower-case mapping of a whole string, as `str::to_lowercase` computes it.
pub uninterp spec fn lowercase(s: Seq<char>) -> Seq<char>;

/// One ASCII character in lower case: `A` to `Z` become `a` to `z`.
pub open spec fn ascii_lower(c: char) -> char {
    if 'A' <= c && c <= 'Z' {
        ((c as int) + 32) as char
    } else {
        c
    }
}

/// `str::to_lowercase`. On text that is all ASCII the Unicode mapping is
/// the ASCII one, character for character.
#[verifier::external_body]
pub(crate) fn to_lowercase(s: &str) -> (r: String)
    ensures
        r@ == lowercase(s@),
        (forall|i: int| 0 <= i < s@.len() ==> (#[trigger] s@[i] as int) < 128) ==> r@ == s@.map_values(
            |c: char| ascii_lower(c),
        ),
{
    s.to_lowercase()
}

/// Index of the first non-whitespace character at or after `i`.
pub open spec fn skip_ws(s: Seq<char>, i: int) -> int
    decreases s.len() - i,
{
    if i < s.len() && unicode_whitespace(s[i]) {
        skip_ws(s, i + 1)
    } else {
        i
    }
}

/// One past the last non-whitespace character before `j`, not going below `lo`.
pub open spec fn skip_ws_back(s: Seq<char>, lo: int, j: int) -> int
    decreases j - lo,
{
    if j > lo && unicode_whitespace(s[j - 1]) {
        skip_ws_back(s, lo, j - 1)
    } else {
        j
    }
}

/// Trimming only ever removes characters: what is left is a run of the
/// original text.
pub proof fn lemma_trimmed_within(s: Seq<char>)
    ensures
        exists|a: int, b: int| 0 <= a <= b <= s.len() && trimmed(s) == s.subrange(a, b),
{
    lemma_skip_ws_bounds(s, 0);
    let a = skip_ws(s, 0);
    lemma_skip_ws_back_bounds(s, a, s.len() as int);
    let b = skip_ws_back(s, a, s.len() as int);
    assert(trimmed(s) == s.subrange(a, b));
}

/// `str::trim`: leading and trailing whitespace removed.
pub open spec fn trimmed(s: Seq<char>) -> Seq<char> {
    let a = skip_ws(s, 0);
    let b = skip_ws_back(s, a, s.len() as int);
    s.subrange(a, b)
}

proof fn lemma_skip_ws_bounds(s: Seq<char>, i: int)
    requires
        0 <= i <= s.len(),
    ensures
        i <= skip_ws(s, i) <= s.len(),
    decreases s.len() - i,
{
    if i < s.len() && unicode_whitespace(s[i]) {
        lemma_skip_ws_bounds(s, i + 1);
    }
}

proof fn lemma_skip_ws_back_bounds(s: Seq<char>, lo: int, j: int)
    requires
        0 <= lo <= j <= s.len(),
    ensures
        lo <= skip_ws_back(s, lo, j) <= j,
    decreases j - lo,
{
    if j > lo && unicode_whitespace(s[j - 1]) {
        lemma_skip_ws_back_bounds(s, lo, j - 1);
    }
}

/// The characters of `s` with surrounding whitespace removed.
pub fn trim_chars(s: &Vec<char>) -> (r: Vec<char>)
    ensures
        r@ == trimmed(s@),
{
    let mut a: usize = 0;
    while a < s.len() && is_whitespace(s[a])
        invariant
            a <= s.len(),
            skip_ws(s@, 0) == skip_ws(s@, a as int),
        decreases s.len() - a,
    {
        a = a + 1;
    }
    let mut b: usize = s.len();
    proof {
        lemma_skip_ws_bounds(s@, 0);
    }
    while b > a && is_whitespace(s[b - 1])
        invariant
            a <= b <= s.len(),
            a == skip_ws(s@, 0),
            skip_ws_back(s@, a as int, s.len() as int) == skip_ws_back(s@, a as int, b as int),
        decreases b,
    {
        b = b - 1;
    }
    let mut r: Vec<char> = Vec::new();
    let mut k: usize = a;
    while k < b
        invariant
            a <= k <= b,
            b <= s.len(),
            r@ == s@.subrange(a as int, k as int),
        decreases b - k,
    {
        r.push(s[k]);
        k = k + 1;
        proof {
            assert(r@ =~= s@.subrange(a as int, k as int));
        }
    }
    r
}

/// `s.trim()` as an owned string.
pub fn trim(s: &str) -> (r: String)
    ensures
        r@ == trimmed(s@),
{
    let v = chars_of(s);
    let t = trim_chars(&v);
    from_chars(&t)
}

pub open spec fn is_digit(c: char) -> bool {
    '0' <= c <= '9'
}

/// The value of a run of decimal digits.
pub open spec fn digits_value(s: Seq<char>) -> nat
    decreases s.len(),
{
    if s.len() == 0 {
        0
    } else {
        digits_value(s.drop_last()) * 10 + ((s.last() as int - 48) as nat)
    }
}

pub open spec fn all_digits(s: Seq<char>) -> bool {
    forall|i: int| 0 <= i < s.len() ==> is_digit(#[trigger] s[i])
}

/// What `str::parse::<i64>` accepts: an optional sign, then at least one
/// decimal digit, the value fitting in an i64.
pub open spec fn parsed_i64(s: Seq<char>) -> Option<int> {
    let neg = s.len() > 0 && s[0] == '-';
    let body = if s.len() > 0 && (s[0] == '-' || s[0] == '+') {
        s.drop_first()
    } else {
        s
    };
    let v = if neg {
        -digits_value(body)
    } else {
        digits_value(body) as int
    };
    if body.len() > 0 && all_digits(body) && i64::MIN <= v <= i64::MAX {
        Some(v)
    } else {
        None
    }
}

proof fn lemma_digits_value_prefix(s: Seq<char>, k: int)
    requires
        0 <= k <= s.len(),
        all_digits(s),
    ensures
        digits_value(s.subrange(0, k)) <= digits_value(s),
    decreases s.len(),
{
    if k < s.len() {
        assert(s.drop_last() =~= s.subrange(0, s.len() - 1));
        assert(s.subrange(0, s.len() - 1).subrange(0, k) =~= s.subrange(0, k));
        lemma_digits_value_prefix(s.drop_last(), k);
    } else {
        assert(s.subrange(0, k) =~= s);
    }
}

/// `s.parse::<i64>().ok()`.
pub fn parse_i64(s: &str) -> (r: Option<i64>)
    ensures
        opt_int(r) == parsed_i64(s@),
{
    let v = chars_of(s);
    parse_i64_chars(&v)
}

pub fn parse_i64_chars(s: &Vec<char>) -> (r: Option<i64>)
    ensures
        opt_int(r) == parsed_i64(s@),
{
    let n = s.len();
    let mut start: usize = 0;
    let mut neg = false;
    if n > 0 && (s[0] == '-' || s[0] == '+') {
        neg = s[0] == '-';
        start = 1;
    }
    let ghost body = if n > 0 && (s@[0] == '-' || s@[0] == '+') {
        s@.drop_first()
    } else {
        s@
    };
    proof {
        assert(body =~= s@.subrange(start as int, n as int));
    }
    if start >= n {
        return None;
    }
    let limit: u64 = 0x8000_0000_0000_0000u64;
    let mut acc: u64 = 0;
    let mut i: usize = start;
    while i < n
        invariant
            start <= i <= n,
            n == s@.len(),
            start == (if n > 0 && (s@[0] == '-' || s@[0] == '+') { 1int } else { 0int }),
            neg == (n > 0 && s@[0] == '-'),
            body == (if n > 0 && (s@[0] == '-' || s@[0] == '+') { s@.drop_first() } else { s@ }),
            body == s@.subrange(start as int, n as int),
            acc as nat == digits_value(body.subrange(0, i - start)),
            limit == 0x8000_0000_0000_0000u64,
            acc <= limit,
            all_digits(body.subrange(0, i - start)),
        decreases n - i,
    {
        let c = s[i];
        if c < '0' || c > '9' {
            proof {
                assert(!is_digit(body[i - start]));
                assert(!all_digits(body));
            }
            return None;
        }
        let d = (c as u32 - 48) as u64;
        assert(d <= 9);
        proof {
            let pre = body.subrange(0, i - start + 1);
            assert(pre.drop_last() =~= body.subrange(0, i - start));
            assert(pre.last() == c);
            assert(all_digits(pre));
        }
        if acc > (limit - d) / 10 {
            proof {
                let pre = body.subrange(0, i - start + 1);
                assert(acc * 10 + d > limit) by (nonlinear_arith)
                    requires
                        acc > (limit - d) / 10,
                        d <= 9,
                        limit == 0x8000_0000_0000_0000u64,
                ;
                assert(digits_value(pre) == acc * 10 + d);
                assert(digits_value(pre) > limit);
                if all_digits(body) {
                    lemma_digits_value_prefix(body, i - start + 1);
                }
            }
            return None;
        }
        acc = acc * 10 + d;
        i = i + 1;
    }
    proof {
        assert(body.subrange(0, n - start) =~= body);
    }
    if neg {
        if acc == limit {
            Some(-0x7fff_ffff_ffff_ffffi64 - 1)
        } else {
            Some(0 - (acc as i64))
        }
    } else if acc == limit {
        None
    } else {
        Some(acc as i64)
    }
}

/// `parts` joined with `sep` between consecutive parts.
pub open spec fn joined(parts: Seq<Seq<char>>, sep: Seq<char>) -> Seq<char>
    decreases parts.len(),
{
    if parts.len() == 0 {
        seq![]
    } else if parts.len() == 1 {
        parts[0]
    } else {
        joined(parts.drop_last(), sep) + sep + parts.last()
    }
}

/// `parts.join(sep)`.
pub fn join(parts: &Vec<&str>, sep: &str) -> (r: String)
    ensures
        r@ == joined(parts@.map_values(|p: &str| p@), sep@),
{
    let ghost views = parts@.map_values(|p: &str| p@);
    let mut r = String::new();
    let mut i: usize = 0;
    while i < parts.len()
        invariant
            i <= parts.len(),
            views == parts@.map_values(|p: &str| p@),
            r@ == joined(views.subrange(0, i as int), sep@),
        decreases parts.len() - i,
    {
        proof {
            let next = views.subrange(0, i + 1);
            assert(next.drop_last() =~= views.subrange(0, i as int));
        }
        if i > 0 {
            append_str(&mut r, sep);
        }
        append_str(&mut r, parts[i]);
        i = i + 1;
        proof {
            if i == 1 {
                assert(r@ =~= joined(views.subrange(0, 1), sep@));
            }
        }
    }
    proof {
        assert(views.subrange(0, parts@.len() as int) =~= views);
    }
    r
}


/// Strict lexicographic order by code point (the order of `String`'s `Ord`).
pub open spec fn seq_less(a: Seq<char>, b: Seq<char>) -> bool
    decreases a.len(),
{
    if a.len() == 0 {
        b.len() > 0
    } else if b.len() == 0 {
        false
    } else if a[0] != b[0] {
        a[0] < b[0]
    } else {
        seq_less(a.drop_first(), b.drop_first())
    }
}

pub proof fn lemma_seq_less_irreflexive(a: Seq<char>)
    ensures
        !seq_less(a, a),
    decreases a.len(),
{
    if a.len() > 0 {
        lemma_seq_less_irreflexive(a.drop_first());
    }
}

pub proof fn lemma_seq_less_total(a: Seq<char>, b: Seq<char>)
    ensures
        seq_less(a, b) || a == b || seq_less(b, a),
        !(seq_less(a, b) && seq_less(b, a)),
    decreases a.len(),
{
    if a.len() > 0 && b.len() > 0 {
        if a[0] == b[0] {
            lemma_seq_less_total(a.drop_first(), b.drop_first());
            if a.drop_first() == b.drop_first() {
                assert(a =~= seq![a[0]] + a.drop_first());
                assert(b =~= seq![b[0]] + b.drop_first());
            }
        }
    } else if a.len() == 0 && b.len() == 0 {
        assert(a =~= b);
    }
}

pub proof fn lemma_seq_less_transitive(a: Seq<char>, b: Seq<char>, c: Seq<char>)
    requires
        seq_less(a, b),
        seq_less(b, c),
    ensures
        seq_less(a, c),
    decreases a.len(),
{
    if a.len() > 0 && b.len() > 0 && c.len() > 0 {
        if a[0] == b[0] && b[0] == c[0] {
            lemma_seq_less_transitive(a.drop_first(), b.drop_first(), c.drop_first());
        }
    }
}

/// Compare two character sequences: -1, 0 or 1 as `a` sorts before, equal
/// to, or after `b`.
pub fn compare_chars(a: &Vec<char>, b: &Vec<char>) -> (r: i8)
    ensures
        r == 0 <==> a@ == b@,
        r < 0 <==> seq_less(a@, b@),
        r > 0 <==> seq_less(b@, a@),
{
    proof {
        lemma_seq_less_total(a@, b@);
        assert(a@.subrange(0, a@.len() as int) =~= a@);
        assert(b@.subrange(0, b@.len() as int) =~= b@);
    }
    let mut i: usize = 0;
    while i < a.len() && i < b.len()
        invariant
            i <= a.len(),
            i <= b.len(),
            forall|j: int| 0 <= j < i ==> a@[j] == b@[j],
            seq_less(a@, b@) == seq_less(a@.subrange(i as int, a@.len() as int), b@.subrange(i as int, b@.len() as int)),
            seq_less(b@, a@) == seq_less(b@.subrange(i as int, b@.len() as int), a@.subrange(i as int, a@.len() as int)),
        decreases a.len() - i,
    {
        let ghost ra = a@.subrange(i as int, a@.len() as int);
        let ghost rb = b@.subrange(i as int, b@.len() as int);
        proof {
            assert(ra.drop_first() =~= a@.subrange(i + 1, a@.len() as int));
            assert(rb.drop_first() =~= b@.subrange(i + 1, b@.len() as int));
            assert(ra[0] == a@[i as int]);
            assert(rb[0] == b@[i as int]);
        }
        if a[i] != b[i] {
            if a[i] < b[i] {
                return -1;
            } else {
                return 1;
            }
        }
        i = i + 1;
    }
    let ghost ra = a@.subrange(i as int, a@.len() as int);
    let ghost rb = b@.subrange(i as int, b@.len() as int);
    if a.len() == b.len() {
        proof {
            assert(a@ =~= b@);
        }
        0
    } else if a.len() < b.len() {
        proof {
            assert(ra.len() == 0);
        }
        -1
    } else {
        proof {
            assert(rb.len() == 0);
        }
        1
    }
}


/// The value of a hexadecimal digit in either case, or -1.
pub open spec fn hex_val(c: char) -> int {
    if '0' <= c <= '9' {
        c as int - 48
    } else if 'a' <= c <= 'f' {
        c as int - 87
    } else if 'A' <= c <= 'F' {
        c as int - 55
    } else {
        -1
    }
}

pub open spec fn all_hex(s: Seq<char>) -> bool {
    forall|i: int| 0 <= i < s.len() ==> hex_val(#[trigger] s[i]) >= 0
}

/// The value of a run of hexadecimal digits.
pub open spec fn hex_value(s: Seq<char>) -> int
    decreases s.len(),
{
    if s.len() == 0 {
        0
    } else {
        hex_value(s.drop_last()) * 16 + hex_val(s.last())
    }
}

/// What `u16::from_str_radix(s, 16)` accepts: an optional `+`, then at least
/// one hexadecimal digit, the value fitting in a u16.
pub open spec fn parsed_hex_u16(s: Seq<char>) -> Option<int> {
    let body = if s.len() > 0 && s[0] == '+' {
        s.drop_first()
    } else {
        s
    };
    if body.len() > 0 && all_hex(body) && hex_value(body) <= 0xffff {
        Some(hex_value(body))
    } else {
        None
    }
}

proof fn lemma_hex_value_nonneg(s: Seq<char>)
    requires
        all_hex(s),
    ensures
        hex_value(s) >= 0,
    decreases s.len(),
{
    if s.len() > 0 {
        assert(all_hex(s.drop_last()));
        lemma_hex_value_nonneg(s.drop_last());
        assert(hex_val(s[s.len() - 1]) >= 0);
    }
}

proof fn lemma_hex_value_prefix(s: Seq<char>, k: int)
    requires
        0 <= k <= s.len(),
        all_hex(s),
    ensures
        hex_value(s.subrange(0, k)) <= hex_value(s),
    decreases s.len(),
{
    if k < s.len() {
        assert(s.drop_last() =~= s.subrange(0, s.len() - 1));
        assert(s.subrange(0, s.len() - 1).subrange(0, k) =~= s.subrange(0, k));
        assert(all_hex(s.drop_last()));
        lemma_hex_value_prefix(s.drop_last(), k);
        lemma_hex_value_nonneg(s.drop_last());
        assert(hex_val(s[s.len() - 1]) >= 0);
    } else {
        assert(s.subrange(0, k) =~= s);
    }
}

proof fn lemma_hex_char_value(d: int)
    requires
        0 <= d < 16,
    ensures
        hex_val(hex_char(d)) == d,
{
    if d < 10 {
        assert(hex_char(d) as int == 48 + d);
    } else {
        assert(hex_char(d) as int == 87 + d);
    }
}

proof fn lemma_hex_digits_value(n: nat)
    ensures
        hex_digits(n).len() >= 1,
        all_hex(hex_digits(n)),
        hex_value(hex_digits(n)) == n,
    decreases n,
{
    if n < 16 {
        lemma_hex_char_value(n as int);
        assert(hex_digits(n).drop_last() =~= Seq::<char>::empty());
        assert(hex_value(Seq::<char>::empty()) == 0);
        assert(hex_value(hex_digits(n)) == hex_val(hex_char(n as int)));
    } else {
        lemma_hex_digits_value(n / 16);
        lemma_hex_char_value((n % 16) as int);
        let d = hex_digits(n);
        assert(d.drop_last() =~= hex_digits(n / 16));
        assert(d.last() == hex_char((n % 16) as int));
        assert(hex_value(d) == hex_value(hex_digits(n / 16)) * 16 + hex_val(hex_char((n % 16) as int)));
        assert forall|i: int| 0 <= i < d.len() implies hex_val(#[trigger] d[i]) >= 0 by {
            if i < d.len() - 1 {
                assert(d[i] == hex_digits(n / 16)[i]);
            }
        }
    }
}

proof fn lemma_hex_value_leading_zero(s: Seq<char>)
    ensures
        hex_value(seq!['0'] + s) == hex_value(s),
    decreases s.len(),
{
    let t = seq!['0'] + s;
    if s.len() == 0 {
        assert(t.drop_last() =~= Seq::<char>::empty());
        assert(hex_value(Seq::<char>::empty()) == 0);
        assert(t.last() == '0');
        assert(s =~= Seq::<char>::empty());
    } else {
        assert(t.drop_last() =~= seq!['0'] + s.drop_last());
        assert(t.last() == s.last());
        lemma_hex_value_leading_zero(s.drop_last());
    }
}

proof fn lemma_hex_value_zero_pad(z: nat, s: Seq<char>)
    ensures
        hex_value(Seq::new(z, |_i: int| '0') + s) == hex_value(s),
        all_hex(s) ==> all_hex(Seq::new(z, |_i: int| '0') + s),
    decreases z,
{
    if z > 0 {
        let rest = Seq::new((z - 1) as nat, |_i: int| '0') + s;
        assert(Seq::new(z, |_i: int| '0') + s =~= seq!['0'] + rest);
        lemma_hex_value_zero_pad((z - 1) as nat, s);
        lemma_hex_value_leading_zero(rest);
        if all_hex(s) {
            let t = seq!['0'] + rest;
            assert forall|i: int| 0 <= i < t.len() implies hex_val(#[trigger] t[i]) >= 0 by {
                if i > 0 {
                    assert(t[i] == rest[i - 1]);
                }
            }
        }
    } else {
        assert(Seq::new(z, |_i: int| '0') + s =~= s);
    }
}

/// Zero-padded lower-case hex reads back as the number it was written from.
pub proof fn lemma_hex_padded_value(n: nat, width: nat)
    ensures
        hex_padded(n, width).len() >= 1,
        all_hex(hex_padded(n, width)),
        hex_value(hex_padded(n, width)) == n,
{
    lemma_hex_digits_value(n);
    let d = hex_digits(n);
    if d.len() < width {
        lemma_hex_value_zero_pad((width - d.len()) as nat, d);
    }
}

/// Lower-case hex of a u16 reads back through `parsed_hex_u16`.
pub proof fn lemma_parsed_hex_padded(n: u16, width: nat)
    ensures
        parsed_hex_u16(hex_padded(n as nat, width)) == Some(n as int),
{
    lemma_hex_padded_value(n as nat, width);
    let s = hex_padded(n as nat, width);
    assert(hex_val(s[0]) >= 0);
    assert(s[0] != '+');
}

fn hex_digit_value(c: char) -> (r: i32)
    ensures
        r as int == hex_val(c),
{
    if '0' <= c && c <= '9' {
        (c as u32 - 48) as i32
    } else if 'a' <= c && c <= 'f' {
        (c as u32 - 87) as i32
    } else if 'A' <= c && c <= 'F' {
        (c as u32 - 55) as i32
    } else {
        -1
    }
}

/// `u16::from_str_radix(s, 16).ok()` over the characters of `s`.
pub fn parse_hex_u16(s: &Vec<char>) -> (r: Option<u16>)
    ensures
        match r {
            Some(v) => parsed_hex_u16(s@) == Some(v as int),
            None => parsed_hex_u16(s@) is None,
        },
{
    let n = s.len();
    let start: usize = if n > 0 && s[0] == '+' { 1 } else { 0 };
    let ghost body = if n > 0 && s@[0] == '+' { s@.drop_first() } else { s@ };
    proof {
        assert(body =~= s@.subrange(start as int, n as int));
    }
    if start >= n {
        return None;
    }
    let mut acc: u32 = 0;
    let mut i: usize = start;
    while i < n
        invariant
            start <= i <= n,
            n == s@.len(),
            body == (if n > 0 && s@[0] == '+' { s@.drop_first() } else { s@ }),
            body == s@.subrange(start as int, n as int),
            acc as int == hex_value(body.subrange(0, i - start)),
            acc <= 0xffff,
            all_hex(body.subrange(0, i - start)),
        decreases n - i,
    {
        let d = hex_digit_value(s[i]);
        if d < 0 {
            proof {
                assert(hex_val(body[i - start]) < 0);
                assert(!all_hex(body));
            }
            return None;
        }
        proof {
            let pre = body.subrange(0, i - start + 1);
            assert(pre.drop_last() =~= body.subrange(0, i - start));
            assert(pre.last() == s@[i as int]);
            assert(all_hex(pre));
        }
        let next = acc * 16 + d as u32;
        if next > 0xffff {
            proof {
                let pre = body.subrange(0, i - start + 1);
                assert(hex_value(pre) == acc * 16 + d);
                if all_hex(body) {
                    lemma_hex_value_prefix(body, i - start + 1);
                }
            }
            return None;
        }
        acc = next;
        i = i + 1;
    }
    proof {
        assert(body.subrange(0, n - start) =~= body);
    }
    Some(acc as u16)
}

/// The characters of each name in a list.
pub open spec fn strs_view(s: Seq<&'static str>) -> Seq<Seq<char>> {
    s.map_values(|a: &'static str| a@)
}

/// A static list of names as a vector.
pub fn strs_vec(s: &'static [&'static str]) -> (r: Vec<&'static str>)
    ensures
        r@ == s@,
{
    let mut r: Vec<&'static str> = Vec::new();
    let mut i: usize = 0;
    while i < s.len()
        invariant
            i <= s.len(),
            r@ == s@.subrange(0, i as int),
        decreases s.len() - i,
    {
        r.push(s[i]);
        i = i + 1;
        proof {
            assert(r@ =~= s@.subrange(0, i as int));
        }
    }
    proof {
        assert(s@.subrange(0, s@.len() as int) =~= s@);
    }
    r
}

/// Whether a static list of names holds `x`.
pub fn strs_contain(s: &'static [&'static str], x: &str) -> (r: bool)
    ensures
        r == strs_view(s@).contains(x@),
{
    let mut i: usize = 0;
    while i < s.len()
        invariant
            i <= s.len(),
            forall|j: int| 0 <= j < i ==> s@[j]@ != x@,
        decreases s.len() - i,
    {
        if str_eq(s[i], x) {
            proof {
                assert(strs_view(s@)[i as int] == x@);
            }
            return true;
        }
        i = i + 1;
    }
    proof {
        if strs_view(s@).contains(x@) {
            let j = choose|j: int| 0 <= j < strs_view(s@).len() && strs_view(s@)[j] == x@;
            assert(s@[j]@ == x@);
        }
    }
    false
}

/// Whether `pat` occurs in `s` at position `k`.
pub open spec fn occurs_at(s: Seq<char>, pat: Seq<char>, k: int) -> bool {
    0 <= k && k + pat.len() <= s.len() && s.subrange(k, k + pat.len()) == pat
}

/// The first position at or after `i` where `pat` occurs in `s`.
pub open spec fn find_from(s: Seq<char>, pat: Seq<char>, i: int) -> Option<int>
    decreases s.len() + 1 - i,
{
    if i < 0 || i + pat.len() > s.len() {
        None
    } else if occurs_at(s, pat, i) {
        Some(i)
    } else {
        find_from(s, pat, i + 1)
    }
}

pub proof fn lemma_find_from(s: Seq<char>, pat: Seq<char>, i: int)
    requires
        0 <= i,
    ensures
        find_from(s, pat, i) matches Some(k) ==> i <= k && occurs_at(s, pat, k)
            && forall|t: int| i <= t < k ==> !occurs_at(s, pat, t),
        find_from(s, pat, i) is None ==> forall|t: int| i <= t ==> !occurs_at(s, pat, t),
    decreases s.len() + 1 - i,
{
    if i + pat.len() <= s.len() && !occurs_at(s, pat, i) {
        lemma_find_from(s, pat, i + 1);
    }
}

/// `str::split` by a non-empty pattern, from position `i` on.
pub open spec fn split_from(s: Seq<char>, pat: Seq<char>, i: int) -> Seq<Seq<char>>
    decreases s.len() - i,
{
    if pat.len() == 0 || i < 0 || i > s.len() {
        seq![]
    } else {
        match find_from(s, pat, i) {
            Some(k) => if k >= i {
                proof {
                    lemma_find_from(s, pat, i);
                }
                seq![s.subrange(i, k)] + split_from(s, pat, k + pat.len())
            } else {
                seq![]
            },
            None => seq![s.subrange(i, s.len() as int)],
        }
    }
}

/// `str::split` by a non-empty pattern: the pieces between the matches,
/// found left to right without overlapping.
pub open spec fn split_spec(s: Seq<char>, pat: Seq<char>) -> Seq<Seq<char>> {
    split_from(s, pat, 0)
}

/// `str::replace`: every match of `pat`, left to right, replaced by `rep`.
pub open spec fn replaced(s: Seq<char>, pat: Seq<char>, rep: Seq<char>) -> Seq<char> {
    joined(split_spec(s, pat), rep)
}

/// Joining a first part onto the rest: the part, then the separator and
/// the rest joined, when there is a rest.
pub proof fn lemma_joined_front(a: Seq<char>, rest: Seq<Seq<char>>, sep: Seq<char>)
    ensures
        joined(seq![a] + rest, sep) == (if rest.len() == 0 {
            a
        } else {
            a + sep + joined(rest, sep)
        }),
    decreases rest.len(),
{
    let p = seq![a] + rest;
    if rest.len() == 0 {
        assert(p =~= seq![a]);
    } else {
        assert(p.drop_last() =~= seq![a] + rest.drop_last());
        lemma_joined_front(a, rest.drop_last(), sep);
        if rest.len() == 1 {
            assert(rest.drop_last() =~= Seq::<Seq<char>>::empty());
            assert(joined(rest, sep) == rest[0]);
        } else {
            assert(a + sep + joined(rest.drop_last(), sep) + sep + rest.last() =~= a + sep + (joined(
                rest.drop_last(),
                sep,
            ) + sep + rest.last()));
        }
    }
}

/// Splitting from any position within the text gives at least one piece.
pub proof fn lemma_split_nonempty(s: Seq<char>, pat: Seq<char>, i: int)
    requires
        pat.len() > 0,
        0 <= i <= s.len(),
    ensures
        split_from(s, pat, i).len() >= 1,
{
    lemma_find_from(s, pat, i);
}

/// `replaced` read from the front: up to the first match from `i`, then the
/// replacement, then the rest replaced; or all of the rest when there is no
/// match.
pub proof fn lemma_replace_step(s: Seq<char>, pat: Seq<char>, rep: Seq<char>, i: int)
    requires
        pat.len() > 0,
        0 <= i <= s.len(),
    ensures
        joined(split_from(s, pat, i), rep) == (match find_from(s, pat, i) {
            Some(k) => s.subrange(i, k) + rep + joined(split_from(s, pat, k + pat.len()), rep),
            None => s.subrange(i, s.len() as int),
        }),
{
    lemma_find_from(s, pat, i);
    match find_from(s, pat, i) {
        Some(k) => {
            lemma_split_nonempty(s, pat, k + pat.len());
            lemma_joined_front(s.subrange(i, k), split_from(s, pat, k + pat.len()), rep);
        },
        None => {
            assert(split_from(s, pat, i) =~= seq![s.subrange(i, s.len() as int)]);
        },
    }
}

/// Searching the tail of `a + b` is searching `b`.
pub proof fn lemma_find_shift(a: Seq<char>, b: Seq<char>, pat: Seq<char>, j: int)
    requires
        0 <= j,
    ensures
        find_from(a + b, pat, a.len() + j) == (match find_from(b, pat, j) {
            Some(k) => Some(k + a.len()),
            None => None::<int>,
        }),
    decreases b.len() + 1 - j,
{
    let x = a + b;
    let i = a.len() + j;
    if j + pat.len() <= b.len() {
        assert(x.subrange(i, i + pat.len()) =~= b.subrange(j, j + pat.len()));
        assert(occurs_at(x, pat, i) == occurs_at(b, pat, j));
        if !occurs_at(b, pat, j) {
            lemma_find_shift(a, b, pat, j + 1);
        }
    }
}

/// Splitting the tail of `a + b` is splitting `b`.
pub proof fn lemma_split_shift(a: Seq<char>, b: Seq<char>, pat: Seq<char>, j: int)
    requires
        pat.len() > 0,
        0 <= j <= b.len(),
    ensures
        split_from(a + b, pat, a.len() + j) == split_from(b, pat, j),
    decreases b.len() - j,
{
    let x = a + b;
    lemma_find_shift(a, b, pat, j);
    lemma_find_from(b, pat, j);
    match find_from(b, pat, j) {
        Some(k) => {
            assert(x.subrange(a.len() + j, k + a.len()) =~= b.subrange(j, k));
            lemma_split_shift(a, b, pat, k + pat.len());
            assert(a.len() + (k + pat.len()) == k + a.len() + pat.len());
        },
        None => {
            assert(x.subrange(a.len() + j, x.len() as int) =~= b.subrange(j, b.len() as int));
        },
    }
}

/// A search from the start skips positions where the pattern does not occur.
pub proof fn lemma_find_skip(s: Seq<char>, pat: Seq<char>, t: int)
    requires
        0 <= t,
        forall|u: int| 0 <= u < t ==> !occurs_at(s, pat, u),
    ensures
        t + pat.len() <= s.len() ==> find_from(s, pat, 0) == find_from(s, pat, t),
        t + pat.len() > s.len() ==> find_from(s, pat, 0) is None,
    decreases t,
{
    if t > 0 {
        lemma_find_skip(s, pat, t - 1);
        if t - 1 + pat.len() <= s.len() {
            assert(!occurs_at(s, pat, t - 1));
        }
    }
}

fn occurs_at_exec(s: &Vec<char>, pat: &Vec<char>, k: usize) -> (r: bool)
    ensures
        r == occurs_at(s@, pat@, k as int),
{
    if k > s.len() || pat.len() > s.len() - k {
        return false;
    }
    let mut j: usize = 0;
    while j < pat.len()
        invariant
            s@.len() <= usize::MAX,
            j <= pat@.len(),
            k + pat@.len() <= s@.len(),
            forall|t: int| 0 <= t < j ==> s@[k + t] == pat@[t],
        decreases pat.len() - j,
    {
        if s[k + j] != pat[j] {
            proof {
                assert(s@.subrange(k as int, k + pat@.len())[j as int] != pat@[j as int]);
            }
            return false;
        }
        j = j + 1;
    }
    proof {
        assert(s@.subrange(k as int, k + pat@.len()) =~= pat@);
    }
    true
}

/// The first position at or after `i` where `pat` occurs in `s`.
pub fn find_chars(s: &Vec<char>, pat: &Vec<char>, i: usize) -> (r: Option<usize>)
    requires
        pat@.len() > 0,
    ensures
        match r {
            Some(k) => find_from(s@, pat@, i as int) == Some(k as int),
            None => find_from(s@, pat@, i as int) is None,
        },
{
    let n = s.len();
    let mut k = i;
    while k <= n && pat.len() <= n - k
        invariant
            n == s@.len(),
            pat@.len() > 0,
            i <= k,
            find_from(s@, pat@, i as int) == find_from(s@, pat@, k as int),
        decreases n + 1 - k,
    {
        if occurs_at_exec(s, pat, k) {
            return Some(k);
        }
        k = k + 1;
    }
    None
}

fn sub_string(s: &Vec<char>, a: usize, b: usize) -> (r: String)
    requires
        a <= b <= s@.len(),
    ensures
        r@ == s@.subrange(a as int, b as int),
{
    let mut r = String::new();
    let mut k = a;
    while k < b
        invariant
            a <= k <= b,
            b <= s@.len(),
            r@ == s@.subrange(a as int, k as int),
        decreases b - k,
    {
        r.push(s[k]);
        k = k + 1;
        proof {
            assert(r@ =~= s@.subrange(a as int, k as int));
        }
    }
    r
}

pub open spec fn string_views(v: Seq<String>) -> Seq<Seq<char>> {
    v.map_values(|s: String| s@)
}

/// Each string sorts no later than the ones after it.
pub open spec fn sorted_le(s: Seq<Seq<char>>) -> bool {
    forall|i: int, j: int| 0 <= i < j < s.len() ==> !seq_less(#[trigger] s[j], #[trigger] s[i])
}

/// `v`, sorted: the same strings, each no later than the ones after it.
pub fn sort_strings(v: &Vec<String>) -> (r: Vec<String>)
    ensures
        string_views(r@).to_multiset() == string_views(v@).to_multiset(),
        sorted_le(string_views(r@)),
{
    let mut r: Vec<String> = Vec::new();
    let mut i: usize = 0;
    proof {
        assert(string_views(r@) =~= string_views(v@.subrange(0, 0)));
    }
    while i < v.len()
        invariant
            i <= v@.len(),
            string_views(r@).to_multiset() == string_views(v@.subrange(0, i as int)).to_multiset(),
            sorted_le(string_views(r@)),
        decreases v.len() - i,
    {
        let ghost rv = string_views(r@);
        let x = chars_of(v[i].as_str());
        let mut k: usize = 0;
        let mut found = false;
        while k < r.len() && !found
            invariant
                k <= r@.len(),
                rv == string_views(r@),
                forall|j: int| 0 <= j < k ==> !seq_less(x@, #[trigger] rv[j]),
                found ==> k < r@.len() && seq_less(x@, rv[k as int]),
            decreases r.len() - k + (if found { 0int } else { 1int }),
        {
            let y = chars_of(r[k].as_str());
            if compare_chars(&x, &y) < 0 {
                found = true;
            } else {
                k = k + 1;
            }
        }
        let item = v[i].clone();
        r.insert(k, item);
        proof {
            let nv = string_views(r@);
            assert(nv =~= rv.insert(k as int, x@));
            assert forall|a: int, b: int| 0 <= a < b < nv.len() implies !seq_less(#[trigger] nv[b], #[trigger] nv[a]) by {
                if b < k {
                    assert(nv[a] == rv[a] && nv[b] == rv[b]);
                } else if b == k {
                    assert(nv[a] == rv[a] && nv[b] == x@);
                } else if a < k {
                    assert(nv[a] == rv[a] && nv[b] == rv[b - 1]);
                } else if a == k {
                    assert(nv[a] == x@ && nv[b] == rv[b - 1]);
                    assert(found);
                    lemma_seq_less_total(rv[k as int], rv[b - 1]);
                    if seq_less(rv[k as int], rv[b - 1]) {
                        lemma_seq_less_transitive(x@, rv[k as int], rv[b - 1]);
                    }
                    lemma_seq_less_total(x@, rv[b - 1]);
                } else {
                    assert(nv[a] == rv[a - 1] && nv[b] == rv[b - 1]);
                }
            }
            assert(v@.subrange(0, i + 1) =~= v@.subrange(0, i as int).push(v@[i as int]));
            assert(string_views(v@.subrange(0, i + 1)) =~= string_views(v@.subrange(0, i as int)).push(x@));
            vstd::seq_lib::to_multiset_insert(rv, k as int, x@);
            vstd::seq_lib::to_multiset_build(string_views(v@.subrange(0, i as int)), x@);
        }
        i = i + 1;
    }
    proof {
        assert(v@.subrange(0, v@.len() as int) =~= v@);
    }
    r
}

/// `s.split(pat)`, collected.
pub fn split_str(s: &str, pat: &str) -> (r: Vec<String>)
    requires
        pat@.len() > 0,
    ensures
        string_views(r@) == split_spec(s@, pat@),
{
    let v = chars_of(s);
    let p = chars_of(pat);
    let n = v.len();
    let mut r: Vec<String> = Vec::new();
    let mut i: usize = 0;
    loop
        invariant
            n == v@.len(),
            v@ == s@,
            p@ == pat@,
            p@.len() > 0,
            i <= v@.len(),
            string_views(r@) + split_from(v@, p@, i as int) == split_from(v@, p@, 0),
        decreases v@.len() - i,
    {
        let ghost before = string_views(r@);
        match find_chars(&v, &p, i) {
            Some(k) => {
                proof {
                    lemma_find_from(v@, p@, i as int);
                }
                let piece = sub_string(&v, i, k);
                r.push(piece);
                proof {
                    assert(string_views(r@) =~= before.push(v@.subrange(i as int, k as int)));
                    assert(split_from(v@, p@, i as int) == seq![v@.subrange(i as int, k as int)] + split_from(v@, p@, k + p@.len()));
                    assert(string_views(r@) + split_from(v@, p@, k + p@.len()) =~= before + split_from(v@, p@, i as int));
                }
                i = k + p.len();
            },
            None => {
                let piece = sub_string(&v, i, n);
                r.push(piece);
                proof {
                    assert(string_views(r@) =~= before + split_from(v@, p@, i as int));
                }
                return r;
            },
        }
    }
}

/// `parts.join(sep)` over owned strings.
pub fn join_strings(parts: &Vec<String>, sep: &str) -> (r: String)
    ensures
        r@ == joined(string_views(parts@), sep@),
{
    let ghost views = string_views(parts@);
    let mut r = String::new();
    let mut i: usize = 0;
    while i < parts.len()
        invariant
            i <= parts.len(),
            views == string_views(parts@),
            r@ == joined(views.subrange(0, i as int), sep@),
        decreases parts.len() - i,
    {
        proof {
            let next = views.subrange(0, i + 1);
            assert(next.drop_last() =~= views.subrange(0, i as int));
        }
        if i > 0 {
            append_str(&mut r, sep);
        }
        append_str(&mut r, parts[i].as_str());
        i = i + 1;
        proof {
            if i == 1 {
                assert(r@ =~= joined(views.subrange(0, 1), sep@));
            }
        }
    }
    proof {
        assert(views.subrange(0, parts@.len() as int) =~= views);
    }
    r
}

/// `s.replace(pat, rep)`.
pub fn replace_str(s: &str, pat: &str, rep: &str) -> (r: String)
    requires
        pat@.len() > 0,
    ensures
        r@ == replaced(s@, pat@, rep@),
{
    let pieces = split_str(s, pat);
    join_strings(&pieces, rep)
}

/// Whether `s` begins with `prefix`.
pub fn starts_with(s: &str, prefix: &str) -> (r: bool)
    ensures
        r == (prefix@.len() <= s@.len() && s@.subrange(0, prefix@.len() as int) == prefix@),
{
    let v = chars_of(s);
    let p = chars_of(prefix);
    occurs_at_exec(&v, &p, 0)
}

/// The characters of `s` from position `i` on.
pub fn skip_chars(s: &str, i: usize) -> (r: String)
    requires
        i <= s@.len(),
    ensures
        r@ == s@.subrange(i as int, s@.len() as int),
{
    let v = chars_of(s);
    sub_string(&v, i, v.len())
}

/// The index of the first `\n` at or after `i`, or the length.
pub open spec fn newline_from(s: Seq<char>, i: int) -> int
    decreases s.len() - i,
{
    if i < 0 || i >= s.len() {
        s.len() as int
    } else if s[i] == '\n' {
        i
    } else {
        newline_from(s, i + 1)
    }
}

proof fn lemma_newline_from(s: Seq<char>, i: int)
    requires
        0 <= i <= s.len(),
    ensures
        i <= newline_from(s, i) <= s.len(),
        newline_from(s, i) < s.len() ==> s[newline_from(s, i)] == '\n',
    decreases s.len() - i,
{
    if i < s.len() && s[i] != '\n' {
        lemma_newline_from(s, i + 1);
    }
}

/// `str::lines` from position `i` on: split at each `\n`, dropping a `\r`
/// just before it; a final `\n` ends the last line without starting another.
pub open spec fn lines_from(s: Seq<char>, i: int) -> Seq<Seq<char>>
    decreases s.len() - i,
{
    if i < 0 || i >= s.len() {
        seq![]
    } else {
        let j = newline_from(s, i);
        if i <= j < s.len() {
            let raw = s.subrange(i, j);
            let line = if raw.len() > 0 && raw.last() == '\r' { raw.drop_last() } else { raw };
            seq![line] + lines_from(s, j + 1)
        } else {
            seq![s.subrange(i, s.len() as int)]
        }
    }
}

/// `str::lines`.
pub open spec fn lines_of(s: Seq<char>) -> Seq<Seq<char>> {
    lines_from(s, 0)
}

/// `s.lines()`, collected.
pub fn lines(s: &str) -> (r: Vec<String>)
    ensures
        string_views(r@) == lines_of(s@),
{
    let v = chars_of(s);
    let mut r: Vec<String> = Vec::new();
    let mut i: usize = 0;
    while i < v.len()
        invariant
            v@ == s@,
            i <= v@.len(),
            string_views(r@) + lines_from(v@, i as int) == lines_of(v@),
        decreases v@.len() - i,
    {
        let ghost before = string_views(r@);
        let mut j = i;
        while j < v.len() && v[j] != '\n'
            invariant
                i <= j <= v@.len(),
                newline_from(v@, i as int) == newline_from(v@, j as int),
            decreases v@.len() - j,
        {
            j = j + 1;
        }
        proof {
            lemma_newline_from(v@, j as int);
        }
        if j < v.len() {
            let end = if j > i && v[j - 1] == '\r' { j - 1 } else { j };
            let line = sub_string(&v, i, end);
            r.push(line);
            proof {
                let raw = v@.subrange(i as int, j as int);
                if j > i && v@[j - 1] == '\r' {
                    assert(raw.drop_last() =~= v@.subrange(i as int, end as int));
                } else {
                    assert(raw =~= v@.subrange(i as int, end as int));
                }
                assert(string_views(r@) =~= before.push(v@.subrange(i as int, end as int)));
                assert(string_views(r@) + lines_from(v@, j + 1) =~= before + lines_from(v@, i as int));
            }
            i = j + 1;
        } else {
            let line = sub_string(&v, i, v.len());
            r.push(line);
            proof {
                assert(string_views(r@) =~= before.push(v@.subrange(i as int, v@.len() as int)));
                assert(lines_from(v@, v@.len() as int) =~= Seq::<Seq<char>>::empty());
                assert(string_views(r@) + lines_from(v@, v@.len() as int) =~= before + lines_from(v@, i as int));
            }
            i = v.len();
        }
    }
    proof {
        assert(lines_from(v@, v@.len() as int) =~= Seq::<Seq<char>>::empty());
        assert(string_views(r@) + lines_from(v@, v@.len() as int) =~= string_views(r@));
    }
    r
}

/// The first position at or after `i` where `s` holds `x`.
pub open spec fn index_from(s: Seq<Seq<char>>, x: Seq<char>, i: int) -> Option<int>
    decreases s.len() - i,
{
    if i < 0 || i >= s.len() {
        None
    } else if s[i] == x {
        Some(i)
    } else {
        index_from(s, x, i + 1)
    }
}

pub proof fn lemma_index_from(s: Seq<Seq<char>>, x: Seq<char>, i: int)
    requires
        0 <= i,
    ensures
        index_from(s, x, i) matches Some(k) ==> i <= k < s.len() && s[k] == x,
    decreases s.len() - i,
{
    if i < s.len() && s[i] != x {
        lemma_index_from(s, x, i + 1);
    }
}


/// `Path::join` on Unix: an absolute part replaces the base; otherwise the
/// part is appended after one `/`, none being added to an empty base or one
/// that already ends in `/`.
pub open spec fn joined_path(base: Seq<char>, part: Seq<char>) -> Seq<char> {
    if part.len() > 0 && part[0] == '/' {
        part
    } else if base.len() == 0 {
        part
    } else if base.last() == '/' {
        base + part
    } else {
        base + seq!['/'] + part
    }
}

/// `Path::new(base).join(part)`, as text.
pub fn join_path(base: &str, part: &str) -> (r: String)
    ensures
        r@ == joined_path(base@, part@),
{
    let b = chars_of(base);
    let p = chars_of(part);
    if p.len() > 0 && p[0] == '/' {
        return String::from_str(part);
    }
    if b.len() == 0 {
        return String::from_str(part);
    }
    let mut r = String::from_str(base);
    if b[b.len() - 1] != '/' {
        r.push('/');
    }
    append_str(&mut r, part);
    r
}

/// The decimal form of `n`.
pub fn fmt_u64(n: u64) -> (s: String)
    ensures
        s@ == nat_digits(n as nat),
{
    let mut s = String::new();
    push_decimal(&mut s, n);
    s
}

/// `n` spaces.
pub open spec fn spaces(n: int) -> Seq<char> {
    Seq::new(if n > 0 { n as nat } else { 0 }, |_i: int| ' ')
}

/// `format!("{s:<w$}")`: `s` followed by spaces up to `w` characters.
pub open spec fn pad_right(s: Seq<char>, w: int) -> Seq<char> {
    s + spaces(w - s.len())
}

/// `format!("{s:>w$}")`: spaces up to `w` characters, then `s`.
pub open spec fn pad_left(s: Seq<char>, w: int) -> Seq<char> {
    spaces(w - s.len()) + s
}

fn push_spaces(s: &mut String, n: usize)
    ensures
        final(s)@ == old(s)@ + spaces(n as int),
{
    let ghost start = s@;
    let mut k: usize = 0;
    while k < n
        invariant
            k <= n,
            s@ == start + spaces(k as int),
        decreases n - k,
    {
        s.push(' ');
        k = k + 1;
        proof {
            assert(s@ =~= start + spaces(k as int));
        }
    }
}

/// Appends `t` padded on the right to `w` characters.
pub fn append_padded_right(s: &mut String, t: &str, w: usize)
    ensures
        final(s)@ == old(s)@ + pad_right(t@, w as int),
{
    let n = t.unicode_len();
    append_str(s, t);
    let ghost mid = s@;
    if n < w {
        push_spaces(s, w - n);
    } else {
        proof {
            assert(spaces(w - t@.len()) =~= Seq::<char>::empty());
        }
    }
    proof {
        assert(final(s)@ =~= old(s)@ + pad_right(t@, w as int));
    }
}

/// Appends `t` padded on the left to `w` characters.
pub fn append_padded_left(s: &mut String, t: &str, w: usize)
    ensures
        final(s)@ == old(s)@ + pad_left(t@, w as int),
{
    let n = t.unicode_len();
    if n < w {
        push_spaces(s, w - n);
    } else {
        proof {
            assert(spaces(w - t@.len()) =~= Seq::<char>::empty());
        }
    }
    append_str(s, t);
    proof {
        assert(final(s)@ =~= old(s)@ + pad_left(t@, w as int));
    }
}

/// `format!("{v:0w$}")` for an integer: zeros after the sign up to `w`
/// characters in all.
pub open spec fn zero_padded(v: int, w: int) -> Seq<char> {
    if v < 0 {
        seq!['-'] + pad_zeros(nat_digits((-v) as nat), w - 1)
    } else {
        pad_zeros(nat_digits(v as nat), w)
    }
}

pub open spec fn pad_zeros(d: Seq<char>, w: int) -> Seq<char> {
    Seq::new(if w > d.len() { (w - d.len()) as nat } else { 0 }, |_i: int| '0') + d
}

/// Appends `v` zero-padded to `w` characters.
pub fn append_zero_padded(s: &mut String, v: i64, w: usize)
    ensures
        final(s)@ == old(s)@ + zero_padded(v as int, w as int),
{
    let ghost start = s@;
    let mut digits = String::new();
    let mag: u64 = if v < 0 { (0i128 - v as i128) as u64 } else { v as u64 };
    push_decimal(&mut digits, mag);
    let target: usize = if v < 0 { if w > 0 { w - 1 } else { 0 } } else { w };
    if v < 0 {
        s.push('-');
    }
    let ghost after_sign = s@;
    let len = digits.unicode_len();
    let mut k: usize = 0;
    if len < target {
        while k < target - len
            invariant
                len < target,
                k <= target - len,
                s@ == after_sign + Seq::new(k as nat, |_i: int| '0'),
            decreases target - len - k,
        {
            s.push('0');
            k = k + 1;
            proof {
                assert(s@ =~= after_sign + Seq::new(k as nat, |_i: int| '0'));
            }
        }
    }
    append_str(s, digits.as_str());
    proof {
        let d = nat_digits(mag as nat);
        if v < 0 {
            assert(pad_zeros(d, w - 1) =~= Seq::new(k as nat, |_i: int| '0') + d);
            assert(final(s)@ =~= start + zero_padded(v as int, w as int));
        } else {
            assert(pad_zeros(d, w as int) =~= Seq::new(k as nat, |_i: int| '0') + d);
            assert(final(s)@ =~= start + zero_padded(v as int, w as int));
        }
    }
}

} // verus!
