//! Character-level text helpers shared by the wiki's rendering, search and
//! content-pack code.  Text is handled as sequences of `char`; the spec side
//! speaks of `Seq<char>`, the executable side of `Vec<char>` and `String`.
use vstd::prelude::*;

verus! {

// ---------------------------------------------------------------------------
// Conversions between strings and character vectors
// ---------------------------------------------------------------------------

/// The characters of a string slice, in order.
pub fn chars_of(s: &str) -> (v: Vec<char>)
    ensures
        v@ == s@,
{
    let mut v: Vec<char> = Vec::new();
    for c in it: s.chars()
        invariant
            v@ == it.seq().take(it.index() as int),
    {
        v.push(c);
    }
    v
}

/// Collects characters into a `String` (`String::from_iter`, std's `FromIterator<&char>`).
#[verifier::external_body]
pub fn string_of(v: &Vec<char>) -> (s: String)
    ensures
        s@ == v@,
{
    String::from_iter(v.iter())
}

/// Appends the characters of `s` to `out`.
pub fn push_str(out: &mut Vec<char>, s: &str)
    ensures
        final(out)@ == old(out)@ + s@,
{
    let mut cs = chars_of(s);
    out.append(&mut cs);
}

/// Appends the characters of `v` to `out`.
pub fn push_chars(out: &mut Vec<char>, v: &Vec<char>)
    ensures
        final(out)@ == old(out)@ + v@,
{
    let mut i: usize = 0;
    while i < v.len()
        invariant
            0 <= i <= v.len(),
            out@ == old(out)@ + v@.take(i as int),
        decreases v.len() - i,
    {
        out.push(v[i]);
        i = i + 1;
        assert(v@.take(i as int) == v@.take(i - 1) + seq![v@[i - 1]]);
    }
    assert(v@.take(v.len() as int) == v@);
}

/// The characters `v[start..end]` as a new vector.
pub fn slice_chars(v: &Vec<char>, start: usize, end: usize) -> (r: Vec<char>)
    requires
        start <= end <= v.len(),
    ensures
        r@ == v@.subrange(start as int, end as int),
{
    let mut r: Vec<char> = Vec::new();
    let mut i: usize = start;
    while i < end
        invariant
            start <= i <= end <= v.len(),
            r@ == v@.subrange(start as int, i as int),
        decreases end - i,
    {
        r.push(v[i]);
        i = i + 1;
    }
    r
}

/// Whether two character vectors are equal.
pub fn chars_eq(a: &Vec<char>, b: &Vec<char>) -> (r: bool)
    ensures
        r == (a@ == b@),
{
    if a.len() != b.len() {
        return false;
    }
    let mut i: usize = 0;
    while i < a.len()
        invariant
            a.len() == b.len(),
            0 <= i <= a.len(),
            forall|k: int| 0 <= k < i ==> a@[k] == b@[k],
        decreases a.len() - i,
    {
        if a[i] != b[i] {
            return false;
        }
        i = i + 1;
    }
    assert(a@ =~= b@);
    true
}

/// Whether two string slices hold the same characters.
pub fn str_eq(a: &str, b: &str) -> (r: bool)
    ensures
        r == (a@ == b@),
{
    let va = chars_of(a);
    let vb = chars_of(b);
    chars_eq(&va, &vb)
}

// ---------------------------------------------------------------------------
// Whitespace and trimming
// ---------------------------------------------------------------------------

/// The Unicode `White_Space` property, which `str::trim` and
/// `str::split_whitespace` use.
pub open spec fn is_white_space(c: char) -> bool {
    let u = c as u32;
    ||| 0x09 <= u <= 0x0d
    ||| u == 0x20
    ||| u == 0x85
    ||| u == 0xa0
    ||| u == 0x1680
    ||| 0x2000 <= u <= 0x200a
    ||| u == 0x2028
    ||| u == 0x2029
    ||| u == 0x202f
    ||| u == 0x205f
    ||| u == 0x3000
}

pub fn white_space(c: char) -> (b: bool)
    ensures
        b == is_white_space(c),
{
    let u = c as u32;
    (0x09 <= u && u <= 0x0d) || u == 0x20 || u == 0x85 || u == 0xa0 || u == 0x1680 || (0x2000
        <= u && u <= 0x200a) || u == 0x2028 || u == 0x2029 || u == 0x202f || u == 0x205f || u
        == 0x3000
}

/// Number of whitespace characters at the start of `s`.
pub open spec fn leading_ws(s: Seq<char>) -> nat
    decreases s.len(),
{
    if s.len() == 0 {
        0
    } else if is_white_space(s[0]) {
        1 + leading_ws(s.drop_first())
    } else {
        0
    }
}

/// Number of whitespace characters at the end of `s`.
pub open spec fn trailing_ws(s: Seq<char>) -> nat
    decreases s.len(),
{
    if s.len() == 0 {
        0
    } else if is_white_space(s.last()) {
        1 + trailing_ws(s.drop_last())
    } else {
        0
    }
}

/// `s` with leading and trailing whitespace removed (what `str::trim` gives).
pub open spec fn trim(s: Seq<char>) -> Seq<char> {
    if leading_ws(s) == s.len() {
        Seq::empty()
    } else {
        s.subrange(leading_ws(s) as int, s.len() - trailing_ws(s))
    }
}

/// A sequence has no whitespace at either end.
pub open spec fn is_trimmed(s: Seq<char>) -> bool {
    s.len() > 0 ==> !is_white_space(s[0]) && !is_white_space(s.last())
}

proof fn lemma_leading_ws(s: Seq<char>, i: int)
    requires
        0 <= i <= s.len(),
        forall|k: int| 0 <= k < i ==> is_white_space(#[trigger] s[k]),
        i == s.len() || !is_white_space(s[i]),
    ensures
        leading_ws(s) == i,
    decreases i,
{
    if i > 0 {
        let t = s.drop_first();
        assert forall|k: int| 0 <= k < i - 1 implies is_white_space(#[trigger] t[k]) by {
            assert(t[k] == s[k + 1]);
        }
        if i - 1 < t.len() {
            assert(t[i - 1] == s[i]);
        }
        lemma_leading_ws(t, i - 1);
    }
}

proof fn lemma_trailing_ws(s: Seq<char>, j: int)
    requires
        0 <= j <= s.len(),
        forall|k: int| j <= k < s.len() ==> is_white_space(#[trigger] s[k]),
        j == 0 || !is_white_space(s[j - 1]),
    ensures
        trailing_ws(s) == s.len() - j,
    decreases s.len() - j,
{
    if j < s.len() {
        let t = s.drop_last();
        assert forall|k: int| j <= k < t.len() implies is_white_space(#[trigger] t[k]) by {
            assert(t[k] == s[k]);
        }
        if j > 0 {
            assert(t[j - 1] == s[j - 1]);
        }
        lemma_trailing_ws(t, j);
    }
}

/// Bounds of the trimmed part of `v`: `trim(v@) == v@[start..end]`.
pub fn trim_bounds(v: &Vec<char>, from: usize, to: usize) -> (r: (usize, usize))
    requires
        from <= to <= v.len(),
    ensures
        from <= r.0 <= r.1 <= to,
        v@.subrange(r.0 as int, r.1 as int) == trim(v@.subrange(from as int, to as int)),
{
    let ghost s = v@.subrange(from as int, to as int);
    let mut i: usize = from;
    while i < to && white_space(v[i])
        invariant
            from <= i <= to <= v.len(),
            s == v@.subrange(from as int, to as int),
            forall|k: int| from <= k < i ==> is_white_space(#[trigger] v@[k]),
        decreases to - i,
    {
        i = i + 1;
    }
    proof {
        assert forall|k: int| 0 <= k < i - from implies is_white_space(#[trigger] s[k]) by {
            assert(s[k] == v@[k + from]);
        }
        if i < to {
            assert(s[i - from] == v@[i as int]);
        }
        lemma_leading_ws(s, i - from);
    }
    if i == to {
        assert(v@.subrange(i as int, i as int) =~= Seq::<char>::empty());
        return (i, i);
    }
    let mut j: usize = to;
    while j > i && white_space(v[j - 1])
        invariant
            from <= i < j <= to <= v.len() || (from <= i <= j <= to && j == i),
            i < to,
            !is_white_space(v@[i as int]),
            forall|k: int| j <= k < to ==> is_white_space(#[trigger] v@[k]),
        decreases j,
    {
        j = j - 1;
    }
    proof {
        assert(j > i);
        assert forall|k: int| j - from <= k < s.len() implies is_white_space(#[trigger] s[k]) by {
            assert(s[k] == v@[k + from]);
        }
        assert(s[j - from - 1] == v@[j - 1]);
        lemma_trailing_ws(s, j - from);
        assert(v@.subrange(i as int, j as int) =~= s.subrange(i - from, s.len() - trailing_ws(s)));
    }
    (i, j)
}

/// `s` trimmed, as characters.
pub fn trim_chars(v: &Vec<char>) -> (r: Vec<char>)
    ensures
        r@ == trim(v@),
{
    let (a, b) = trim_bounds(v, 0, v.len());
    assert(v@.subrange(0, v@.len() as int) == v@);
    slice_chars(v, a, b)
}

/// `str::trim`, as characters.
pub fn trim_str(s: &str) -> (r: Vec<char>)
    ensures
        r@ == trim(s@),
{
    let v = chars_of(s);
    trim_chars(&v)
}

/// Whether `s`, once trimmed, is empty.
pub fn is_blank(s: &str) -> (b: bool)
    ensures
        b == (trim(s@).len() == 0),
{
    let t = trim_str(s);
    t.len() == 0
}

pub proof fn lemma_trim_is_trimmed(s: Seq<char>)
    ensures
        is_trimmed(trim(s)),
        trim(s).len() <= s.len(),
    decreases s.len(),
{
    let t = trim(s);
    lemma_leading_ws_bound(s);
    if leading_ws(s) < s.len() {
        lemma_leading_ws_stop(s);
        lemma_trailing_ws_bound(s);
        lemma_trailing_ws_stop(s);
        lemma_ws_overlap(s);
        let l = leading_ws(s) as int;
        let e = s.len() - trailing_ws(s);
        assert(t.len() == e - l);
        assert(t[0] == s[l]);
        assert(t.last() == s[e - 1]);
    }
}

proof fn lemma_leading_ws_bound(s: Seq<char>)
    ensures
        leading_ws(s) <= s.len(),
        forall|k: int| 0 <= k < leading_ws(s) ==> is_white_space(#[trigger] s[k]),
    decreases s.len(),
{
    if s.len() > 0 && is_white_space(s[0]) {
        lemma_leading_ws_bound(s.drop_first());
        assert forall|k: int| 0 <= k < leading_ws(s) implies is_white_space(#[trigger] s[k]) by {
            if k > 0 {
                assert(s[k] == s.drop_first()[k - 1]);
            }
        }
    }
}

proof fn lemma_leading_ws_stop(s: Seq<char>)
    ensures
        leading_ws(s) < s.len() ==> !is_white_space(s[leading_ws(s) as int]),
    decreases s.len(),
{
    if s.len() > 0 && is_white_space(s[0]) {
        lemma_leading_ws_stop(s.drop_first());
    }
}

proof fn lemma_trailing_ws_bound(s: Seq<char>)
    ensures
        trailing_ws(s) <= s.len(),
        forall|k: int| s.len() - trailing_ws(s) <= k < s.len() ==> is_white_space(#[trigger] s[k]),
    decreases s.len(),
{
    if s.len() > 0 && is_white_space(s.last()) {
        lemma_trailing_ws_bound(s.drop_last());
        assert forall|k: int| s.len() - trailing_ws(s) <= k < s.len() implies is_white_space(
            #[trigger] s[k],
        ) by {
            if k < s.len() - 1 {
                assert(s[k] == s.drop_last()[k]);
            }
        }
    }
}

proof fn lemma_trailing_ws_stop(s: Seq<char>)
    ensures
        trailing_ws(s) < s.len() ==> !is_white_space(s[s.len() - trailing_ws(s) - 1]),
    decreases s.len(),
{
    if s.len() > 0 && is_white_space(s.last()) {
        lemma_trailing_ws_stop(s.drop_last());
    }
}

proof fn lemma_ws_overlap(s: Seq<char>)
    requires
        leading_ws(s) < s.len(),
    ensures
        leading_ws(s) + trailing_ws(s) < s.len(),
{
    lemma_leading_ws_bound(s);
    lemma_leading_ws_stop(s);
    lemma_trailing_ws_bound(s);
    let l = leading_ws(s) as int;
    if l + trailing_ws(s) >= s.len() {
        assert(is_white_space(s[l]));
    }
}

// ---------------------------------------------------------------------------
// Case
// ---------------------------------------------------------------------------

/// What `str::to_lowercase` gives for a string: Unicode lowercase mapping,
/// which depends on the Unicode tables alone.
pub uninterp spec fn lowercase(s: Seq<char>) -> Seq<char>;

/// `str::to_lowercase`.
#[verifier::external_body]
pub fn to_lower(s: &str) -> (r: String)
    ensures
        r@ == lowercase(s@),
{
    s.to_lowercase()
}

/// Lowercase of a character vector.
pub fn lower_chars(v: &Vec<char>) -> (r: Vec<char>)
    ensures
        r@ == lowercase(v@),
{
    let s = string_of(v);
    let l = to_lower(s.as_str());
    chars_of(l.as_str())
}

/// ASCII lowercase of one character (what `to_ascii_lowercase` does).
pub open spec fn ascii_lower(c: char) -> char {
    if 'A' <= c <= 'Z' {
        ((c as u32) + 32) as char
    } else {
        c
    }
}

pub fn ascii_lower_char(c: char) -> (r: char)
    ensures
        r == ascii_lower(c),
{
    if 'A' <= c && c <= 'Z' {
        let u = (c as u32) + 32;
        assert(0x61 <= u <= 0x7a);
        char_from_ascii(u)
    } else {
        c
    }
}

/// The character of an ASCII code.
fn char_from_ascii(u: u32) -> (c: char)
    requires
        u < 128,
    ensures
        c == u as char,
        c as u32 == u,
{
    let b: u8 = u as u8;
    b as char
}

/// `s` begins, ignoring ASCII case in `s`, with the lowercase ASCII prefix `p`.
pub open spec fn starts_with_ci(s: Seq<char>, p: Seq<char>) -> bool {
    &&& p.len() <= s.len()
    &&& forall|k: int| 0 <= k < p.len() ==> ascii_lower(#[trigger] s[k]) == p[k]
}

pub fn chars_start_with_ci(v: &Vec<char>, from: usize, to: usize, p: &str) -> (b: bool)
    requires
        from <= to <= v.len(),
    ensures
        b == starts_with_ci(v@.subrange(from as int, to as int), p@),
{
    let pc = chars_of(p);
    let ghost s = v@.subrange(from as int, to as int);
    if pc.len() > to - from {
        return false;
    }
    let mut k: usize = 0;
    while k < pc.len()
        invariant
            pc@ == p@,
            from <= to <= v.len(),
            pc.len() <= to - from,
            s == v@.subrange(from as int, to as int),
            0 <= k <= pc.len(),
            forall|j: int| 0 <= j < k ==> ascii_lower(#[trigger] s[j]) == pc@[j],
        decreases pc.len() - k,
    {
        let c = ascii_lower_char(v[from + k]);
        assert(s[k as int] == v@[from + k]);
        if c != pc[k] {
            return false;
        }
        k = k + 1;
    }
    true
}

// ---------------------------------------------------------------------------
// Decimal and hexadecimal numerals
// ---------------------------------------------------------------------------

pub open spec fn digit_char(d: nat) -> char {
    ((d % 10) + 48) as char
}

/// Decimal numeral of a natural number, without leading zeros ("0" for 0).
pub open spec fn decimal(n: nat) -> Seq<char>
    decreases n,
{
    if n < 10 {
        seq![digit_char(n)]
    } else {
        decimal(n / 10).push(digit_char(n % 10))
    }
}

/// Decimal numeral of an integer, with a leading '-' when negative.
pub open spec fn signed_decimal(n: int) -> Seq<char> {
    if n < 0 {
        seq!['-'] + decimal((-n) as nat)
    } else {
        decimal(n as nat)
    }
}

fn digit(d: u64) -> (c: char)
    requires
        d < 10,
    ensures
        c == digit_char(d as nat),
{
    char_from_ascii((d + 48) as u32)
}

/// Decimal numeral of `n` (what `u64`'s `Display` writes).
pub fn decimal_of(n: u64) -> (r: Vec<char>)
    ensures
        r@ == decimal(n as nat),
    decreases n,
{
    if n < 10 {
        let mut r = Vec::new();
        r.push(digit(n));
        r
    } else {
        let mut r = decimal_of(n / 10);
        r.push(digit(n % 10));
        r
    }
}

/// Decimal numeral of `n` (what `i64`'s `Display` writes).
pub fn signed_decimal_of(n: i64) -> (r: Vec<char>)
    ensures
        r@ == signed_decimal(n as int),
{
    if n < 0 {
        let m: u64 = if n == i64::MIN {
            9223372036854775808u64
        } else {
            (-n) as u64
        };
        let d = decimal_of(m);
        let mut r = Vec::new();
        r.push('-');
        let mut d2 = d;
        r.append(&mut d2);
        r
    } else {
        decimal_of(n as u64)
    }
}

/// Lowercase hexadecimal digit.
pub open spec fn hex_digit(d: nat) -> char {
    if d < 10 {
        (d + 48) as char
    } else {
        (d - 10 + 97) as char
    }
}

/// Two lowercase hexadecimal digits per byte (what `{:02x}` writes for each byte).
pub open spec fn hex_lower(bytes: Seq<u8>) -> Seq<char>
    decreases bytes.len(),
{
    if bytes.len() == 0 {
        Seq::empty()
    } else {
        hex_lower(bytes.drop_last()) + seq![
            hex_digit((bytes.last() / 16) as nat),
            hex_digit((bytes.last() % 16) as nat),
        ]
    }
}

fn hex_digit_of(d: u8) -> (c: char)
    requires
        d < 16,
    ensures
        c == hex_digit(d as nat),
{
    if d < 10 {
        char_from_ascii((d + 48) as u32)
    } else {
        char_from_ascii((d - 10 + 97) as u32)
    }
}

/// Lowercase hexadecimal rendering of bytes.
pub fn hex_of(bytes: &Vec<u8>) -> (r: Vec<char>)
    ensures
        r@ == hex_lower(bytes@),
        r@.len() == 2 * bytes@.len(),
{
    let mut r: Vec<char> = Vec::new();
    let mut i: usize = 0;
    while i < bytes.len()
        invariant
            0 <= i <= bytes.len(),
            r@ == hex_lower(bytes@.take(i as int)),
            r@.len() == 2 * i,
        decreases bytes.len() - i,
    {
        let b = bytes[i];
        r.push(hex_digit_of(b / 16));
        r.push(hex_digit_of(b % 16));
        assert(bytes@.take(i + 1).drop_last() == bytes@.take(i as int));
        i = i + 1;
    }
    assert(bytes@.take(bytes.len() as int) == bytes@);
    r
}

// ---------------------------------------------------------------------------
// Ordering of strings
// ---------------------------------------------------------------------------

/// Lexicographic order of character sequences by code point, which is the
/// order of `String`'s `Ord` (UTF-8 preserves code point order).
pub open spec fn seq_lt(a: Seq<char>, b: Seq<char>) -> bool
    decreases a.len(),
{
    if a.len() == 0 {
        b.len() > 0
    } else if b.len() == 0 {
        false
    } else if a[0] < b[0] {
        true
    } else if a[0] == b[0] {
        seq_lt(a.drop_first(), b.drop_first())
    } else {
        false
    }
}

/// Whether `a` sorts before `b`.
pub fn chars_lt(a: &Vec<char>, b: &Vec<char>) -> (r: bool)
    ensures
        r == seq_lt(a@, b@),
{
    let mut i: usize = 0;
    assert(a@.skip(0) == a@ && b@.skip(0) == b@);
    while i < a.len() && i < b.len() && a[i] == b[i]
        invariant
            0 <= i <= a.len(),
            i <= b.len(),
            a@.take(i as int) == b@.take(i as int),
            seq_lt(a@, b@) == seq_lt(a@.skip(i as int), b@.skip(i as int)),
        decreases a.len() - i,
    {
        proof {
            let sa = a@.skip(i as int);
            let sb = b@.skip(i as int);
            assert(sa.drop_first() == a@.skip(i + 1));
            assert(sb.drop_first() == b@.skip(i + 1));
            assert(a@.take(i + 1) == a@.take(i as int).push(a@[i as int]));
            assert(b@.take(i + 1) == b@.take(i as int).push(b@[i as int]));
        }
        i = i + 1;
    }
    let ghost sa = a@.skip(i as int);
    let ghost sb = b@.skip(i as int);
    if i == a.len() {
        assert(sa.len() == 0);
        i < b.len()
    } else if i == b.len() {
        false
    } else {
        assert(sa[0] == a@[i as int] && sb[0] == b@[i as int]);
        a[i] < b[i]
    }
}

pub proof fn lemma_seq_lt_irreflexive(a: Seq<char>)
    ensures
        !seq_lt(a, a),
    decreases a.len(),
{
    if a.len() > 0 {
        lemma_seq_lt_irreflexive(a.drop_first());
    }
}

pub proof fn lemma_seq_lt_total(a: Seq<char>, b: Seq<char>)
    ensures
        seq_lt(a, b) || seq_lt(b, a) || a == b,
    decreases a.len(),
{
    if a.len() > 0 && b.len() > 0 && a[0] == b[0] {
        lemma_seq_lt_total(a.drop_first(), b.drop_first());
        if a.drop_first() == b.drop_first() {
            assert(a =~= seq![a[0]] + a.drop_first());
            assert(b =~= seq![b[0]] + b.drop_first());
        }
    } else if a.len() > 0 && b.len() > 0 {
    } else if a.len() == 0 && b.len() == 0 {
        assert(a =~= b);
    }
}

pub proof fn lemma_seq_lt_asym(a: Seq<char>, b: Seq<char>)
    ensures
        seq_lt(a, b) ==> !seq_lt(b, a),
    decreases a.len(),
{
    if a.len() > 0 && b.len() > 0 && a[0] == b[0] {
        lemma_seq_lt_asym(a.drop_first(), b.drop_first());
    }
}

pub proof fn lemma_seq_lt_trans(a: Seq<char>, b: Seq<char>, c: Seq<char>)
    requires
        seq_lt(a, b),
        seq_lt(b, c),
    ensures
        seq_lt(a, c),
    decreases a.len(),
{
    if a.len() > 0 && b.len() > 0 && c.len() > 0 && a[0] == b[0] && b[0] == c[0] {
        lemma_seq_lt_trans(a.drop_first(), b.drop_first(), c.drop_first());
    }
}

// ---------------------------------------------------------------------------
// Joining and splitting
// ---------------------------------------------------------------------------

/// The items of `list` separated by `sep`.
pub open spec fn join(list: Seq<Seq<char>>, sep: Seq<char>) -> Seq<char>
    decreases list.len(),
{
    if list.len() == 0 {
        Seq::empty()
    } else if list.len() == 1 {
        list[0]
    } else {
        join(list.drop_last(), sep) + sep + list.last()
    }
}

/// The items of `list` separated by `sep`.
pub fn join_chars(list: &Vec<Vec<char>>, sep: &str) -> (r: Vec<char>)
    ensures
        r@ == join(list@.map_values(|w: Vec<char>| w@), sep@),
{
    let ghost ws = list@.map_values(|w: Vec<char>| w@);
    let mut out: Vec<char> = Vec::new();
    let mut k: usize = 0;
    while k < list.len()
        invariant
            0 <= k <= list.len(),
            ws == list@.map_values(|w: Vec<char>| w@),
            out@ == join(ws.take(k as int), sep@),
        decreases list.len() - k,
    {
        assert(ws.take(k + 1).drop_last() == ws.take(k as int));
        assert(ws.take(k + 1).last() == list@[k as int]@);
        if k > 0 {
            push_str(&mut out, sep);
        } else {
            assert(ws.take(k as int) =~= Seq::<Seq<char>>::empty());
        }
        push_chars(&mut out, &list[k]);
        k = k + 1;
    }
    assert(ws.take(list.len() as int) == ws);
    out
}

/// One character of `str::split_whitespace`: whitespace ends the current
/// word; any other character extends it or starts a new one.
pub open spec fn words_step(acc: (Seq<Seq<char>>, bool), c: char) -> (Seq<Seq<char>>, bool) {
    if is_white_space(c) {
        (acc.0, false)
    } else if acc.1 && acc.0.len() > 0 {
        (acc.0.drop_last().push(acc.0.last().push(c)), true)
    } else {
        (acc.0.push(seq![c]), true)
    }
}

pub open spec fn words_fold(s: Seq<char>) -> (Seq<Seq<char>>, bool)
    decreases s.len(),
{
    if s.len() == 0 {
        (Seq::empty(), false)
    } else {
        words_step(words_fold(s.drop_last()), s.last())
    }
}

/// The maximal runs of non-whitespace characters of `s`, in order.
pub open spec fn words(s: Seq<char>) -> Seq<Seq<char>> {
    words_fold(s).0
}

/// `s` with its words separated by single spaces, and no space at either end.
pub open spec fn collapse_ws(s: Seq<char>) -> Seq<char> {
    join(words(s), seq![' '])
}

/// The words of `v` (`str::split_whitespace`).
pub fn split_words(v: &Vec<char>) -> (r: Vec<Vec<char>>)
    ensures
        r@.map_values(|w: Vec<char>| w@) == words(v@),
{
    let mut done: Vec<Vec<char>> = Vec::new();
    let mut cur: Vec<char> = Vec::new();
    let mut in_word = false;
    let mut i: usize = 0;
    while i < v.len()
        invariant
            0 <= i <= v.len(),
            in_word ==> cur@.len() > 0,
            !in_word ==> cur@.len() == 0,
            words_fold(v@.take(i as int)) == (if in_word {
                done@.map_values(|w: Vec<char>| w@).push(cur@)
            } else {
                done@.map_values(|w: Vec<char>| w@)
            }, in_word),
        decreases v.len() - i,
    {
        let c = v[i];
        let ghost d0 = done@.map_values(|w: Vec<char>| w@);
        let ghost c0 = cur@;
        assert(v@.take(i + 1).drop_last() == v@.take(i as int));
        assert(v@.take(i + 1).last() == c);
        if white_space(c) {
            if in_word {
                let w = cur;
                cur = Vec::new();
                done.push(w);
                assert(done@.map_values(|w: Vec<char>| w@) =~= d0.push(c0));
            }
            in_word = false;
        } else {
            cur.push(c);
            if in_word {
                assert(d0.push(c0).drop_last() == d0);
                assert(d0.push(c0).last() == c0);
                assert(d0.push(c0).len() > 0);
            } else {
                assert(cur@ =~= seq![c]);
            }
            in_word = true;
        }
        i = i + 1;
    }
    if in_word {
        let ghost d0 = done@.map_values(|w: Vec<char>| w@);
        let ghost c0 = cur@;
        done.push(cur);
        assert(done@.map_values(|w: Vec<char>| w@) =~= d0.push(c0));
    }
    assert(v@.take(v.len() as int) == v@);
    done
}

/// `s` with whitespace runs collapsed to single spaces and trimmed
/// (`split_whitespace` joined by `" "`).
pub fn collapse_whitespace(s: &str) -> (r: Vec<char>)
    ensures
        r@ == collapse_ws(s@),
{
    let v = chars_of(s);
    let ws = split_words(&v);
    let r = join_chars(&ws, " ");
    proof {
        reveal_strlit(" ");
        assert(" "@ == seq![' ']);
    }
    r
}

/// Every word is non-empty and free of whitespace.
pub open spec fn words_wf(ws: Seq<Seq<char>>) -> bool {
    forall|i: int|
        0 <= i < ws.len() ==> (#[trigger] ws[i]).len() > 0 && forall|k: int|
            0 <= k < ws[i].len() ==> !is_white_space(#[trigger] ws[i][k])
}

proof fn lemma_words_fold_wf(s: Seq<char>)
    ensures
        words_wf(words_fold(s).0),
        words_fold(s).1 ==> words_fold(s).0.len() > 0,
    decreases s.len(),
{
    if s.len() > 0 {
        lemma_words_fold_wf(s.drop_last());
        let acc = words_fold(s.drop_last());
        let c = s.last();
        let r = words_fold(s).0;
        if !is_white_space(c) {
            if acc.1 && acc.0.len() > 0 {
                let w = acc.0.last().push(c);
                assert(r == acc.0.drop_last().push(w));
                assert forall|i: int| 0 <= i < r.len() implies (#[trigger] r[i]).len() > 0 && forall|k: int|
                    0 <= k < r[i].len() ==> !is_white_space(#[trigger] r[i][k]) by {
                    if i == r.len() - 1 {
                        assert(r[i] == w);
                        assert forall|k: int| 0 <= k < w.len() implies !is_white_space(#[trigger] w[k]) by {
                            if k < w.len() - 1 {
                                assert(w[k] == acc.0[acc.0.len() - 1][k]);
                            }
                        }
                    } else {
                        assert(r[i] == acc.0[i]);
                    }
                }
            } else {
                assert forall|i: int| 0 <= i < r.len() implies (#[trigger] r[i]).len() > 0 && forall|k: int|
                    0 <= k < r[i].len() ==> !is_white_space(#[trigger] r[i][k]) by {
                    if i < r.len() - 1 {
                        assert(r[i] == acc.0[i]);
                    }
                }
            }
        }
    }
}

/// No whitespace at either end, and each whitespace character a single space
/// between two other characters.
pub open spec fn is_collapsed(t: Seq<char>) -> bool {
    forall|i: int|
        0 <= i < t.len() && is_white_space(#[trigger] t[i]) ==> t[i] == ' ' && 0 < i < t.len() - 1
            && !is_white_space(t[i - 1]) && !is_white_space(t[i + 1])
}

proof fn lemma_join_collapsed(ws: Seq<Seq<char>>)
    requires
        words_wf(ws),
    ensures
        is_collapsed(join(ws, seq![' '])),
        ws.len() > 0 ==> join(ws, seq![' ']).len() > 0 && !is_white_space(join(ws, seq![' '])[0])
            && !is_white_space(join(ws, seq![' ']).last()),
    decreases ws.len(),
{
    let t = join(ws, seq![' ']);
    if ws.len() == 1 {
        assert(t == ws[0]);
    } else if ws.len() > 1 {
        let dl = ws.drop_last();
        assert(words_wf(dl)) by {
            assert forall|i: int| 0 <= i < dl.len() implies (#[trigger] dl[i]).len() > 0 by {
                assert(dl[i] == ws[i]);
            }
            assert forall|i: int, k: int| 0 <= i < dl.len() && 0 <= k < dl[i].len() implies !is_white_space(#[trigger] dl[i][k]) by {
                assert(dl[i] == ws[i]);
            }
        }
        lemma_join_collapsed(dl);
        let a = join(dl, seq![' ']);
        let w = ws.last();
        assert(w == ws[ws.len() - 1]);
        assert(t == a + seq![' '] + w);
        assert forall|i: int| 0 <= i < t.len() && is_white_space(#[trigger] t[i]) implies t[i] == ' '
            && 0 < i < t.len() - 1 && !is_white_space(t[i - 1]) && !is_white_space(t[i + 1]) by {
            if i < a.len() {
                assert(t[i] == a[i]);
                if i + 1 < a.len() {
                    assert(t[i + 1] == a[i + 1]);
                }
                if i > 0 {
                    assert(t[i - 1] == a[i - 1]);
                }
            } else if i == a.len() {
                assert(t[i - 1] == a.last());
                assert(t[i + 1] == w[0]);
            } else {
                assert(t[i] == w[i - a.len() - 1]);
            }
        }
        assert(t[0] == a[0]);
        assert(t.last() == w.last());
    }
}

/// Law: collapsed text has no whitespace at either end, and its only
/// whitespace is single spaces between words.
pub proof fn law_collapse_ws(s: Seq<char>)
    ensures
        is_collapsed(collapse_ws(s)),
{
    lemma_words_fold_wf(s);
    lemma_join_collapsed(words(s));
}

} // verus!
