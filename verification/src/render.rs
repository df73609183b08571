//! Render-time wiki links.
//!
//! A page body is HTML.  It splits into text and tags, a tag being `<`, one or
//! more characters other than `>`, then `>`.  Text inside `<script>`, `<style>`,
//! `<code>` and `<pre>` is left alone; in other text, `[[Title]]` (one or more
//! characters other than `[` and `]` between double brackets) is a wiki link.
use vstd::prelude::*;
use crate::models::Page;
use crate::text::{
    chars_of, chars_eq, chars_start_with_ci, lower_chars, lowercase, push_chars, push_str,
    slice_chars, starts_with_ci, ascii_lower, string_of, to_lower, trim, trim_bounds, is_trimmed,
    lemma_trim_is_trimmed, chars_lt, seq_lt, lemma_seq_lt_asym, lemma_seq_lt_total,
    lemma_seq_lt_trans, lemma_seq_lt_irreflexive,
};
use crate::encode::{
    encode_double_quoted_attribute, encode_text, escape_attr, escape_text, url_encode,
    url_encode_str,
};

verus! {

// ---------------------------------------------------------------------------
// The tag grammar
// ---------------------------------------------------------------------------

/// The first position at or after `i` holding `c`, or `s.len()` if none.
pub open spec fn first_from(s: Seq<char>, c: char, i: int) -> int
    decreases s.len() - i,
{
    if i >= s.len() {
        s.len() as int
    } else if i >= 0 && s[i] == c {
        i
    } else {
        first_from(s, c, i + 1)
    }
}

/// End (exclusive) of the tag that starts at `i`, if one does: `<` at `i`, and
/// the first `>` after it at least two positions further on.
pub open spec fn tag_end(s: Seq<char>, i: int) -> Option<int> {
    if 0 <= i < s.len() && s[i] == '<' {
        let j = first_from(s, '>', i + 1);
        if i + 2 <= j < s.len() {
            Some(j + 1)
        } else {
            None
        }
    } else {
        None
    }
}

/// The leftmost tag starting at or after `from`, as (start, end).
pub open spec fn next_tag(s: Seq<char>, from: int) -> Option<(int, int)>
    decreases s.len() - from,
{
    if from < 0 || from >= s.len() {
        None
    } else {
        match tag_end(s, from) {
            Some(e) => Some((from, e)),
            None => next_tag(s, from + 1),
        }
    }
}

/// A tag that opens a region where links are not rendered.
pub open spec fn opens_skip(tag: Seq<char>) -> bool {
    ||| starts_with_ci(tag, "<script"@)
    ||| starts_with_ci(tag, "<style"@)
    ||| starts_with_ci(tag, "<code"@)
    ||| starts_with_ci(tag, "<pre"@)
}

/// A tag that closes such a region.
pub open spec fn closes_skip(tag: Seq<char>) -> bool {
    ||| starts_with_ci(tag, "</script"@)
    ||| starts_with_ci(tag, "</style"@)
    ||| starts_with_ci(tag, "</code"@)
    ||| starts_with_ci(tag, "</pre"@)
}

/// Nesting depth of skipped regions after a tag.
pub open spec fn next_depth(d: nat, tag: Seq<char>) -> nat {
    let d1: nat = if opens_skip(tag) {
        d + 1
    } else {
        d
    };
    if closes_skip(tag) {
        if d1 > 0 {
            (d1 - 1) as nat
        } else {
            0
        }
    } else {
        d1
    }
}

// ---------------------------------------------------------------------------
// The link grammar
// ---------------------------------------------------------------------------

/// The first position at or after `i` holding `[` or `]`, or `t.len()`.
pub open spec fn first_bracket(t: Seq<char>, i: int) -> int
    decreases t.len() - i,
{
    if i >= t.len() {
        t.len() as int
    } else if i >= 0 && (t[i] == '[' || t[i] == ']') {
        i
    } else {
        first_bracket(t, i + 1)
    }
}

/// End (exclusive) of the link that starts at `i`, if one does: `[[`, one or
/// more characters other than brackets, `]]`.
pub open spec fn link_end(t: Seq<char>, i: int) -> Option<int> {
    if 0 <= i && i + 1 < t.len() && t[i] == '[' && t[i + 1] == '[' {
        let k = first_bracket(t, i + 2);
        if k >= i + 3 && k + 1 < t.len() && t[k] == ']' && t[k + 1] == ']' {
            Some(k + 2)
        } else {
            None
        }
    } else {
        None
    }
}

/// The title of the link spanning `t[i..e]`: the text between the brackets, trimmed.
pub open spec fn link_title(t: Seq<char>, i: int, e: int) -> Seq<char> {
    trim(t.subrange(i + 2, e - 2))
}

// ---------------------------------------------------------------------------
// Rendering
// ---------------------------------------------------------------------------

/// The pages that take part in link resolution and link analysis: those
/// that are not archived, in order.
pub open spec fn live(pages: Seq<Page>) -> Seq<Page>
    decreases pages.len(),
{
    if pages.len() == 0 {
        Seq::empty()
    } else if pages.last().archived_at is None {
        live(pages.drop_last()).push(pages.last())
    } else {
        live(pages.drop_last())
    }
}

/// The pages that are not archived, in order.
pub fn live_pages(pages: &Vec<Page>) -> (r: Vec<Page>)
    ensures
        r@ == live(pages@),
{
    let mut r: Vec<Page> = Vec::new();
    let mut i: usize = 0;
    while i < pages.len()
        invariant
            0 <= i <= pages.len(),
            r@ == live(pages@.take(i as int)),
        decreases pages.len() - i,
    {
        assert(pages@.take(i + 1).drop_last() == pages@.take(i as int));
        assert(pages@.take(i + 1).last() == pages@[i as int]);
        if pages[i].archived_at.is_none() {
            r.push(pages[i].clone());
        }
        i = i + 1;
    }
    assert(pages@.take(pages.len() as int) == pages@);
    r
}

proof fn lemma_live(pages: Seq<Page>)
    ensures
        forall|x: Page| #[trigger] live(pages).contains(x) <==> (pages.contains(x) && x.archived_at is None),
    decreases pages.len(),
{
    if pages.len() > 0 {
        let dl = pages.drop_last();
        lemma_live(dl);
        assert forall|x: Page| #[trigger] live(pages).contains(x) <==> (pages.contains(x)
            && x.archived_at is None) by {
            if pages.contains(x) && x.archived_at is None {
                let k = choose|k: int| 0 <= k < pages.len() && pages[k] == x;
                if k < pages.len() - 1 {
                    assert(dl[k] == x);
                    assert(dl.contains(x));
                    assert(live(dl).contains(x));
                    let j = choose|j: int| 0 <= j < live(dl).len() && live(dl)[j] == x;
                    if pages.last().archived_at is None {
                        assert(live(pages) == live(dl).push(pages.last()));
                        assert(live(pages)[j] == x);
                    } else {
                        assert(live(pages) == live(dl));
                    }
                } else {
                    assert(live(pages).last() == x);
                }
            }
            if live(pages).contains(x) {
                let j = choose|j: int| 0 <= j < live(pages).len() && live(pages)[j] == x;
                if pages.last().archived_at is None && j == live(pages).len() - 1 {
                    assert(pages[pages.len() - 1] == x);
                } else {
                    assert(live(dl)[j] == x);
                    assert(live(dl).contains(x));
                    let k = choose|k: int| 0 <= k < dl.len() && dl[k] == x;
                    assert(pages[k] == x);
                }
            }
        }
    }
}

/// The page a lowercase title key resolves to: the last page in `pages`
/// whose lowercased title equals the key.
pub open spec fn find_page(pages: Seq<Page>, key: Seq<char>) -> Option<Page>
    decreases pages.len(),
{
    if pages.len() == 0 {
        None
    } else if lowercase(pages.last().title@) == key {
        Some(pages.last())
    } else {
        find_page(pages.drop_last(), key)
    }
}

/// The slug of the page a lowercase title key resolves to.
pub open spec fn lookup_slug(pages: Seq<Page>, key: Seq<char>) -> Option<Seq<char>> {
    match find_page(pages, key) {
        Some(p) => Some(p.slug@),
        None => None,
    }
}

/// The HTML of one wiki link: an anchor to the page when the title resolves,
/// otherwise an anchor to the creation form prefilled with the title.
pub open spec fn link_html(title: Seq<char>, pages: Seq<Page>) -> Seq<char> {
    match lookup_slug(pages, lowercase(title)) {
        Some(slug) => "<a class=\"wiki-link\" href=\"/pages/"@ + escape_attr(slug) + "\">"@
            + escape_text(title) + "</a>"@,
        None => "<a class=\"wiki-link missing\" href=\"/pages/new?title="@ + url_encode(title)
            + "\" title=\"Missing page\">"@ + escape_text(title)
            + " <span class=\"sr-only\">(Missing page)</span></a>"@,
    }
}

/// Text from `pos` on, with each link replaced by its HTML.
pub open spec fn render_links(t: Seq<char>, pos: int, pages: Seq<Page>) -> Seq<char>
    decreases t.len() - pos,
{
    if pos < 0 || pos >= t.len() {
        Seq::empty()
    } else {
        match link_end(t, pos) {
            Some(e) => if e > pos {
                link_html(link_title(t, pos, e), pages) + render_links(t, e, pages)
            } else {
                Seq::empty()
            },
            None => seq![t[pos]] + render_links(t, pos + 1, pages),
        }
    }
}

/// A text segment as rendered at a given skip depth.
pub open spec fn render_segment(t: Seq<char>, depth: nat, pages: Seq<Page>) -> Seq<char> {
    if depth > 0 {
        t
    } else {
        render_links(t, 0, pages)
    }
}

/// The source from `pos` on, rendered, with skip depth `depth` at `pos`.
pub open spec fn render_source(s: Seq<char>, pos: int, depth: nat, pages: Seq<Page>) -> Seq<
    char,
>
    decreases s.len() - pos,
{
    if pos < 0 || pos > s.len() {
        Seq::empty()
    } else {
        match next_tag(s, pos) {
            None => render_segment(s.subrange(pos, s.len() as int), depth, pages),
            Some((a, e)) => if pos <= a < e <= s.len() {
                render_segment(s.subrange(pos, a), depth, pages) + s.subrange(a, e)
                    + render_source(s, e, next_depth(depth, s.subrange(a, e)), pages)
            } else {
                Seq::empty()
            },
        }
    }
}

/// The rendered HTML of a page body.
pub open spec fn rendered(s: Seq<char>, pages: Seq<Page>) -> Seq<char> {
    render_source(s, 0, 0, pages)
}

// ---------------------------------------------------------------------------
// Link titles
// ---------------------------------------------------------------------------

/// Titles of the links in `t` from `pos` on, in order.
pub open spec fn link_titles(t: Seq<char>, pos: int) -> Seq<Seq<char>>
    decreases t.len() - pos,
{
    if pos < 0 || pos >= t.len() {
        Seq::empty()
    } else {
        match link_end(t, pos) {
            Some(e) => if e > pos {
                seq![link_title(t, pos, e)] + link_titles(t, e)
            } else {
                Seq::empty()
            },
            None => link_titles(t, pos + 1),
        }
    }
}

pub open spec fn segment_titles(t: Seq<char>, depth: nat) -> Seq<Seq<char>> {
    if depth > 0 {
        Seq::empty()
    } else {
        link_titles(t, 0)
    }
}

/// Titles of all links outside skipped regions, from `pos` on, in order.
pub open spec fn source_titles(s: Seq<char>, pos: int, depth: nat) -> Seq<Seq<char>>
    decreases s.len() - pos,
{
    if pos < 0 || pos > s.len() {
        Seq::empty()
    } else {
        match next_tag(s, pos) {
            None => segment_titles(s.subrange(pos, s.len() as int), depth),
            Some((a, e)) => if pos <= a < e <= s.len() {
                segment_titles(s.subrange(pos, a), depth) + source_titles(
                    s,
                    e,
                    next_depth(depth, s.subrange(a, e)),
                )
            } else {
                Seq::empty()
            },
        }
    }
}

/// Lowercase keys of a list of titles.
pub open spec fn title_keys(ts: Seq<Seq<char>>) -> Seq<Seq<char>> {
    ts.map_values(|t: Seq<char>| lowercase(t))
}

/// `prev` with `t` added unless `t` is empty or its lowercase key is already
/// among those of `prev`.
pub open spec fn add_title(prev: Seq<Seq<char>>, t: Seq<char>) -> Seq<Seq<char>> {
    if t.len() == 0 || title_keys(prev).contains(lowercase(t)) {
        prev
    } else {
        prev.push(t)
    }
}

/// `prev` with the titles of `ts` added in order.
pub open spec fn add_titles(prev: Seq<Seq<char>>, ts: Seq<Seq<char>>) -> Seq<Seq<char>>
    decreases ts.len(),
{
    if ts.len() == 0 {
        prev
    } else {
        add_title(add_titles(prev, ts.drop_last()), ts.last())
    }
}

/// The non-empty titles of `ts`, each kept only at the first occurrence of its
/// lowercase key.
pub open spec fn distinct_titles(ts: Seq<Seq<char>>) -> Seq<Seq<char>> {
    add_titles(Seq::empty(), ts)
}

/// The titles a page body links to.
pub open spec fn linked_titles(s: Seq<char>) -> Seq<Seq<char>> {
    distinct_titles(source_titles(s, 0, 0))
}

// ---------------------------------------------------------------------------
// Executable scanning
// ---------------------------------------------------------------------------

proof fn lemma_first_from(s: Seq<char>, c: char, i: int)
    requires
        0 <= i,
    ensures
        i <= first_from(s, c, i) <= s.len() || (i > s.len() && first_from(s, c, i) == s.len()),
        first_from(s, c, i) < s.len() ==> s[first_from(s, c, i)] == c,
        forall|k: int| i <= k < first_from(s, c, i) ==> s[k] != c,
    decreases s.len() - i,
{
    if i < s.len() && s[i] != c {
        lemma_first_from(s, c, i + 1);
    }
}

proof fn lemma_first_bracket(t: Seq<char>, i: int)
    requires
        0 <= i,
    ensures
        i <= first_bracket(t, i) <= t.len() || (i > t.len() && first_bracket(t, i) == t.len()),
        first_bracket(t, i) < t.len() ==> (t[first_bracket(t, i)] == '[' || t[first_bracket(
            t,
            i,
        )] == ']'),
    decreases t.len() - i,
{
    if i < t.len() && !(t[i] == '[' || t[i] == ']') {
        lemma_first_bracket(t, i + 1);
    }
}

/// No tag starts anywhere from `i` on once no `>` follows a `<` at `i`.
proof fn lemma_no_tag_after(s: Seq<char>, i: int, from: int)
    requires
        0 <= from <= i,
        forall|k: int| i < k < s.len() ==> s[k] != '>',
        forall|k: int| from <= k < i ==> tag_end(s, k) is None,
    ensures
        next_tag(s, from) is None,
    decreases s.len() - from,
{
    if from < s.len() {
        if from >= i {
            lemma_first_from(s, '>', from + 1);
            assert(tag_end(s, from) is None);
        }
        lemma_no_tag_after(s, if from + 1 > i { from + 1 } else { i }, from + 1);
    }
}

proof fn lemma_next_tag_skip(s: Seq<char>, from: int, to: int)
    requires
        0 <= from <= to,
        forall|k: int| from <= k < to ==> tag_end(s, k) is None,
    ensures
        next_tag(s, from) == next_tag(s, to),
    decreases to - from,
{
    if from < to {
        lemma_next_tag_skip(s, from + 1, to);
    }
}

pub proof fn lemma_next_tag_bounds(s: Seq<char>, from: int)
    requires
        0 <= from,
    ensures
        next_tag(s, from) matches Some((a, e)) ==> from <= a && a + 3 <= e <= s.len() && tag_end(
            s,
            a,
        ) == Some(e),
    decreases s.len() - from,
{
    if from < s.len() {
        if tag_end(s, from) is None {
            lemma_next_tag_bounds(s, from + 1);
        } else {
            lemma_first_from(s, '>', from + 1);
        }
    }
}

/// The leftmost tag at or after `from`.
fn find_tag(v: &Vec<char>, from: usize) -> (r: Option<(usize, usize)>)
    requires
        from <= v.len(),
    ensures
        match r {
            Some((a, e)) => next_tag(v@, from as int) == Some((a as int, e as int)) && from <= a
                < e <= v.len(),
            None => next_tag(v@, from as int) is None,
        },
{
    let n = v.len();
    let mut i: usize = from;
    while i < n
        invariant
            from <= i <= n == v.len(),
            forall|k: int| from <= k < i ==> tag_end(v@, k) is None,
        decreases n - i,
    {
        if v[i] == '<' {
            // the first '>' after i
            let mut j: usize = i + 1;
            while j < n && v[j] != '>'
                invariant
                    i < j <= n,
                    n == v.len(),
                    forall|k: int| i < k < j ==> v@[k] != '>',
                    first_from(v@, '>', i + 1) == first_from(v@, '>', j as int),
                decreases n - j,
            {
                j = j + 1;
            }
            if j == n {
                proof {
                    lemma_no_tag_after(v@, i as int, from as int);
                }
                return None;
            }
            assert(first_from(v@, '>', j as int) == j);
            if j >= i + 2 {
                proof {
                    lemma_next_tag_skip(v@, from as int, i as int);
                }
                return Some((i, j + 1));
            }
        }
        i = i + 1;
    }
    proof {
        lemma_next_tag_skip(v@, from as int, n as int);
    }
    None
}

/// The link starting at `i` in `t`, if any.
fn link_at(t: &Vec<char>, i: usize) -> (r: Option<usize>)
    requires
        i < t.len(),
    ensures
        match r {
            Some(e) => link_end(t@, i as int) == Some(e as int) && i + 5 <= e <= t.len(),
            None => link_end(t@, i as int) is None,
        },
{
    let n = t.len();
    if !(i + 1 < n && t[i] == '[' && t[i + 1] == '[') {
        return None;
    }
    let mut k: usize = i + 2;
    while k < n && t[k] != '[' && t[k] != ']'
        invariant
            i + 2 <= k <= n == t.len(),
            first_bracket(t@, i + 2) == first_bracket(t@, k as int),
        decreases n - k,
    {
        k = k + 1;
    }
    assert(first_bracket(t@, k as int) == k);
    if k - i >= 3 && k < n - 1 && t[k] == ']' && t[k + 1] == ']' {
        Some(k + 2)
    } else {
        None
    }
}

/// Opening or closing of a skipped region by the tag `v[a..e]`.
fn depth_after(v: &Vec<char>, a: usize, e: usize, depth: usize) -> (r: usize)
    requires
        a <= e <= v.len(),
        depth < usize::MAX,
    ensures
        r == next_depth(depth as nat, v@.subrange(a as int, e as int)),
        r <= depth + 1,
{
    let opens = chars_start_with_ci(v, a, e, "<script") || chars_start_with_ci(v, a, e, "<style")
        || chars_start_with_ci(v, a, e, "<code") || chars_start_with_ci(v, a, e, "<pre");
    let closes = chars_start_with_ci(v, a, e, "</script") || chars_start_with_ci(
        v,
        a,
        e,
        "</style",
    ) || chars_start_with_ci(v, a, e, "</code") || chars_start_with_ci(v, a, e, "</pre");
    let d1 = if opens {
        depth + 1
    } else {
        depth
    };
    if closes {
        if d1 > 0 {
            d1 - 1
        } else {
            0
        }
    } else {
        d1
    }
}

/// Lowercase title keys of the pages, in order.
fn page_keys(pages: &Vec<Page>) -> (keys: Vec<Vec<char>>)
    ensures
        keys@.len() == pages@.len(),
        forall|i: int| 0 <= i < pages@.len() ==> (#[trigger] keys@[i])@ == lowercase(pages@[i].title@),
{
    let mut keys: Vec<Vec<char>> = Vec::new();
    let mut i: usize = 0;
    while i < pages.len()
        invariant
            0 <= i <= pages.len(),
            keys@.len() == i,
            forall|k: int| 0 <= k < i ==> (#[trigger] keys@[k])@ == lowercase(pages@[k].title@),
        decreases pages.len() - i,
    {
        let l = to_lower(pages[i].title.as_str());
        keys.push(chars_of(l.as_str()));
        i = i + 1;
    }
    keys
}

/// Index of the last page whose title key is `key`.
fn lookup_page(pages: &Vec<Page>, keys: &Vec<Vec<char>>, key: &Vec<char>) -> (r: Option<usize>)
    requires
        keys@.len() == pages@.len(),
        forall|i: int| 0 <= i < pages@.len() ==> (#[trigger] keys@[i])@ == lowercase(pages@[i].title@),
    ensures
        match r {
            Some(i) => i < pages@.len() && find_page(pages@, key@) == Some(pages@[i as int])
                && lowercase(pages@[i as int].title@) == key@,
            None => find_page(pages@, key@) is None,
        },
{
    let mut n: usize = pages.len();
    assert(pages@.take(n as int) == pages@);
    while n > 0
        invariant
            0 <= n <= pages@.len(),
            keys@.len() == pages@.len(),
            forall|i: int|
                0 <= i < pages@.len() ==> (#[trigger] keys@[i])@ == lowercase(pages@[i].title@),
            find_page(pages@, key@) == find_page(pages@.take(n as int), key@),
        decreases n,
    {
        let ghost p = pages@.take(n as int);
        assert(p.last() == pages@[n - 1]);
        assert(p.drop_last() == pages@.take(n - 1));
        if chars_eq(&keys[n - 1], key) {
            return Some(n - 1);
        }
        n = n - 1;
    }
    None
}

/// Appends the HTML of the link titled `title`.
fn push_link_html(out: &mut Vec<char>, title: &Vec<char>, pages: &Vec<Page>, keys: &Vec<Vec<char>>)
    requires
        keys@.len() == pages@.len(),
        forall|i: int| 0 <= i < pages@.len() ==> (#[trigger] keys@[i])@ == lowercase(pages@[i].title@),
    ensures
        final(out)@ == old(out)@ + link_html(title@, pages@),
{
    let key = lower_chars(title);
    let title_s = string_of(title);
    let shown = encode_text(title_s.as_str());
    match lookup_page(pages, keys, &key) {
        Some(i) => {
            let href = encode_double_quoted_attribute(pages[i].slug.as_str());
            push_str(out, "<a class=\"wiki-link\" href=\"/pages/");
            push_str(out, href.as_str());
            push_str(out, "\">");
            push_str(out, shown.as_str());
            push_str(out, "</a>");
        },
        None => {
            let q = url_encode_str(title_s.as_str());
            push_str(out, "<a class=\"wiki-link missing\" href=\"/pages/new?title=");
            push_str(out, q.as_str());
            push_str(out, "\" title=\"Missing page\">");
            push_str(out, shown.as_str());
            push_str(out, " <span class=\"sr-only\">(Missing page)</span></a>");
        },
    }
}

/// Appends a text segment, rendered (links replaced) unless `skip`.
fn render_text(
    out: &mut Vec<char>,
    t: &Vec<char>,
    pages: &Vec<Page>,
    keys: &Vec<Vec<char>>,
    skip: bool,
)
    requires
        keys@.len() == pages@.len(),
        forall|i: int| 0 <= i < pages@.len() ==> (#[trigger] keys@[i])@ == lowercase(pages@[i].title@),
    ensures
        final(out)@ == old(out)@ + (if skip {
            t@
        } else {
            render_links(t@, 0, pages@)
        }),
{
    if skip {
        push_chars(out, t);
        return;
    }
    let mut i: usize = 0;
    while i < t.len()
        invariant
            0 <= i <= t.len(),
            keys@.len() == pages@.len(),
            forall|k: int|
                0 <= k < pages@.len() ==> (#[trigger] keys@[k])@ == lowercase(pages@[k].title@),
            out@ + render_links(t@, i as int, pages@) == old(out)@ + render_links(t@, 0, pages@),
        decreases t.len() - i,
    {
        match link_at(t, i) {
            Some(e) => {
                let (a, b) = trim_bounds(t, i + 2, e - 2);
                let title = slice_chars(t, a, b);
                push_link_html(out, &title, pages, keys);
                i = e;
            },
            None => {
                out.push(t[i]);
                i = i + 1;
            },
        }
    }
}

/// A page body with its wiki links resolved against the pages of `pages`
/// that are not archived (archived pages are left out): a title whose lowercase matches a page's lowercased
/// title links to that page's slug, any other title links to the creation
/// form prefilled with it.  Text inside `<script>`, `<style>`, `<code>` and
/// `<pre>` and all tags are copied as they are.
pub fn wiki_html(pages: &Vec<Page>, source: &str) -> (r: String)
    ensures
        r@ == rendered(source@, live(pages@)),
{
    let live_list = live_pages(pages);
    let pages = &live_list;
    let s = chars_of(source);
    let keys = page_keys(pages);
    let n = s.len();
    let mut out: Vec<char> = Vec::new();
    let mut pos: usize = 0;
    let mut depth: usize = 0;
    loop
        invariant_except_break
            s@ == source@,
            n == s.len(),
            pos <= n,
            depth <= pos,
            keys@.len() == pages@.len(),
            forall|k: int|
                0 <= k < pages@.len() ==> (#[trigger] keys@[k])@ == lowercase(pages@[k].title@),
            out@ + render_source(s@, pos as int, depth as nat, pages@) == render_source(
                s@,
                0,
                0,
                pages@,
            ),
        ensures
            out@ == render_source(s@, 0, 0, pages@),
        decreases n - pos,
    {
        match find_tag(&s, pos) {
            None => {
                let seg = slice_chars(&s, pos, n);
                render_text(&mut out, &seg, pages, &keys, depth > 0);
                assert(out@ == render_source(s@, 0, 0, pages@));
                break ;
            },
            Some((a, e)) => {
                let seg = slice_chars(&s, pos, a);
                render_text(&mut out, &seg, pages, &keys, depth > 0);
                let tag = slice_chars(&s, a, e);
                push_chars(&mut out, &tag);
                depth = depth_after(&s, a, e, depth);
                pos = e;
            },
        }
    }
    string_of(&out)
}

/// Views of a vector of strings.
pub open spec fn views(v: Seq<String>) -> Seq<Seq<char>> {
    v.map_values(|x: String| x@)
}

pub proof fn lemma_add_titles_concat(prev: Seq<Seq<char>>, a: Seq<Seq<char>>, b: Seq<Seq<char>>)
    ensures
        add_titles(prev, a + b) == add_titles(add_titles(prev, a), b),
    decreases b.len(),
{
    if b.len() == 0 {
        assert(a + b =~= a);
    } else {
        assert((a + b).drop_last() =~= a + b.drop_last());
        lemma_add_titles_concat(prev, a, b.drop_last());
    }
}

/// Whether `key` is among the keys in `seen`.
fn has_key(seen: &Vec<Vec<char>>, key: &Vec<char>) -> (b: bool)
    ensures
        b == exists|i: int| 0 <= i < seen@.len() && (#[trigger] seen@[i])@ == key@,
{
    let mut i: usize = 0;
    while i < seen.len()
        invariant
            0 <= i <= seen.len(),
            forall|k: int| 0 <= k < i ==> (#[trigger] seen@[k])@ != key@,
        decreases seen.len() - i,
    {
        if chars_eq(&seen[i], key) {
            return true;
        }
        i = i + 1;
    }
    false
}

/// Adds the titles of the links in `t` (unless `skip`) to `titles`, keeping
/// only non-empty titles whose lowercase key is not yet in `seen`.
fn collect_titles(t: &Vec<char>, skip: bool, titles: &mut Vec<String>, seen: &mut Vec<Vec<char>>)
    requires
        old(seen)@.len() == old(titles)@.len(),
        forall|i: int|
            0 <= i < old(seen)@.len() ==> (#[trigger] old(seen)@[i])@ == lowercase(
                old(titles)@[i]@,
            ),
    ensures
        final(seen)@.len() == final(titles)@.len(),
        forall|i: int|
            0 <= i < final(seen)@.len() ==> (#[trigger] final(seen)@[i])@ == lowercase(
                final(titles)@[i]@,
            ),
        views(final(titles)@) == add_titles(views(old(titles)@), segment_titles(t@, if skip { 1 } else { 0 })),
{
    if skip {
        return;
    }
    let ghost start = views(titles@);
    let ghost mut done: Seq<Seq<char>> = Seq::empty();
    let mut i: usize = 0;
    while i < t.len()
        invariant
            0 <= i <= t.len(),
            seen@.len() == titles@.len(),
            forall|k: int| 0 <= k < seen@.len() ==> (#[trigger] seen@[k])@ == lowercase(titles@[k]@),
            done + link_titles(t@, i as int) == link_titles(t@, 0),
            views(titles@) == add_titles(start, done),
        decreases t.len() - i,
    {
        match link_at(t, i) {
            Some(e) => {
                let (a, b) = trim_bounds(t, i + 2, e - 2);
                let title = slice_chars(t, a, b);
                let key = lower_chars(&title);
                proof {
                    assert(done + link_titles(t@, i as int) == done.push(title@) + link_titles(
                        t@,
                        e as int,
                    ));
                    assert(done.push(title@).drop_last() == done);
                }
                let ghost prev = views(titles@);
                let known = has_key(seen, &key);
                proof {
                    if known {
                        let k = choose|k: int| 0 <= k < seen@.len() && (#[trigger] seen@[k])@
                            == key@;
                        assert(title_keys(prev)[k] == key@);
                    } else {
                        assert forall|k: int| 0 <= k < prev.len() implies title_keys(prev)[k]
                            != key@ by {
                            assert(seen@[k]@ == lowercase(titles@[k]@));
                        }
                    }
                }
                if title.len() > 0 && !known {
                    titles.push(string_of(&title));
                    seen.push(key);
                    assert(views(titles@) =~= prev.push(title@));
                }
                proof {
                    done = done.push(title@);
                }
                i = e;
            },
            None => {
                i = i + 1;
            },
        }
    }
    assert(done == link_titles(t@, 0));
}

/// The titles a page body links to, in order of first appearance: one per
/// lowercase key, non-empty, trimmed, and none from inside `<script>`,
/// `<style>`, `<code>` or `<pre>`.
pub fn extract_titles(source: &str) -> (r: Vec<String>)
    ensures
        views(r@) == linked_titles(source@),
{
    let s = chars_of(source);
    let n = s.len();
    let mut titles: Vec<String> = Vec::new();
    let mut seen: Vec<Vec<char>> = Vec::new();
    let mut pos: usize = 0;
    let mut depth: usize = 0;
    let ghost mut done: Seq<Seq<char>> = Seq::empty();
    assert(views(titles@) =~= Seq::<Seq<char>>::empty());
    loop
        invariant_except_break
            s@ == source@,
            n == s.len(),
            pos <= n,
            depth <= pos,
            seen@.len() == titles@.len(),
            forall|k: int| 0 <= k < seen@.len() ==> (#[trigger] seen@[k])@ == lowercase(titles@[k]@),
            done + source_titles(s@, pos as int, depth as nat) == source_titles(s@, 0, 0),
            views(titles@) == distinct_titles(done),
        ensures
            views(titles@) == linked_titles(source@),
        decreases n - pos,
    {
        match find_tag(&s, pos) {
            None => {
                let seg = slice_chars(&s, pos, n);
                let ghost segt = segment_titles(seg@, depth as nat);
                collect_titles(&seg, depth > 0, &mut titles, &mut seen);
                proof {
                    assert(segment_titles(seg@, if depth > 0 { 1 } else { 0 }) == segt);
                    lemma_add_titles_concat(Seq::empty(), done, segt);
                    assert(done + segt == source_titles(s@, 0, 0));
                }
                break ;
            },
            Some((a, e)) => {
                let seg = slice_chars(&s, pos, a);
                let ghost segt = segment_titles(seg@, depth as nat);
                collect_titles(&seg, depth > 0, &mut titles, &mut seen);
                proof {
                    assert(segment_titles(seg@, if depth > 0 { 1 } else { 0 }) == segt);
                    lemma_add_titles_concat(Seq::empty(), done, segt);
                    assert(done + source_titles(s@, pos as int, depth as nat) == (done + segt)
                        + source_titles(s@, e as int, next_depth(depth as nat, s@.subrange(a as int, e as int))));
                    done = done + segt;
                }
                depth = depth_after(&s, a, e, depth);
                pos = e;
            },
        }
    }
    titles
}

// ---------------------------------------------------------------------------
// Link analysis
// ---------------------------------------------------------------------------

/// The pages that the titles `ts` resolve to, in order; titles that resolve
/// to no page are left out.
pub open spec fn resolve_titles(pages: Seq<Page>, ts: Seq<Seq<char>>) -> Seq<Page>
    decreases ts.len(),
{
    if ts.len() == 0 {
        Seq::empty()
    } else {
        let prev = resolve_titles(pages, ts.drop_last());
        match find_page(pages, lowercase(ts.last())) {
            Some(p) => prev.push(p),
            None => prev,
        }
    }
}

/// The pages a body links to, in the order of its links (one per distinct
/// title); archived pages are left out.
pub fn linked_pages(pages: &Vec<Page>, source: &str) -> (r: Vec<Page>)
    ensures
        r@ == resolve_titles(live(pages@), linked_titles(source@)),
{
    let live_list = live_pages(pages);
    let pages = &live_list;
    let keys = page_keys(pages);
    let titles = extract_titles(source);
    let ghost ts = views(titles@);
    let mut r: Vec<Page> = Vec::new();
    let mut i: usize = 0;
    while i < titles.len()
        invariant
            0 <= i <= titles.len(),
            ts == views(titles@),
            ts == linked_titles(source@),
            keys@.len() == pages@.len(),
            forall|k: int|
                0 <= k < pages@.len() ==> (#[trigger] keys@[k])@ == lowercase(pages@[k].title@),
            r@ == resolve_titles(pages@, ts.take(i as int)),
        decreases titles.len() - i,
    {
        let key = chars_of(to_lower(titles[i].as_str()).as_str());
        assert(ts.take(i + 1).drop_last() == ts.take(i as int));
        assert(ts.take(i + 1).last() == titles@[i as int]@);
        match lookup_page(pages, &keys, &key) {
            Some(j) => {
                r.push(pages[j].clone());
            },
            None => {},
        }
        i = i + 1;
    }
    assert(ts.take(titles.len() as int) == ts);
    r
}

/// Whether `p` is a page other than `target` that links to `target`'s title.
pub open spec fn links_to(p: Page, target: Page) -> bool {
    p.id != target.id && title_keys(linked_titles(p.body_html@)).contains(lowercase(target.title@))
}

/// Sort key of a page: its lowercased title.
pub open spec fn title_key(p: Page) -> Seq<char> {
    lowercase(p.title@)
}

/// `sorted` (already in key order) with `p` placed after every page whose key
/// is not greater than its own.
pub open spec fn insert_by_title(sorted: Seq<Page>, p: Page) -> Seq<Page>
    decreases sorted.len(),
{
    if sorted.len() == 0 {
        seq![p]
    } else if seq_lt(title_key(p), title_key(sorted.last())) {
        insert_by_title(sorted.drop_last(), p).push(sorted.last())
    } else {
        sorted.push(p)
    }
}

/// Stable sort of pages by lowercased title.
pub open spec fn sort_by_title(ps: Seq<Page>) -> Seq<Page>
    decreases ps.len(),
{
    if ps.len() == 0 {
        Seq::empty()
    } else {
        insert_by_title(sort_by_title(ps.drop_last()), ps.last())
    }
}

/// The pages linking to `target`, in `pages` order.
pub open spec fn backlink_sources(pages: Seq<Page>, target: Page) -> Seq<Page>
    decreases pages.len(),
{
    if pages.len() == 0 {
        Seq::empty()
    } else {
        let prev = backlink_sources(pages.drop_last(), target);
        if links_to(pages.last(), target) {
            prev.push(pages.last())
        } else {
            prev
        }
    }
}

/// Whether some title in `titles` has lowercase key `key`.
fn has_title_key(titles: &Vec<String>, key: &Vec<char>) -> (b: bool)
    ensures
        b == title_keys(views(titles@)).contains(key@),
{
    let ghost ts = views(titles@);
    let mut i: usize = 0;
    while i < titles.len()
        invariant
            0 <= i <= titles.len(),
            ts == views(titles@),
            forall|k: int| 0 <= k < i ==> title_keys(ts)[k] != key@,
        decreases titles.len() - i,
    {
        let k = chars_of(to_lower(titles[i].as_str()).as_str());
        if chars_eq(&k, key) {
            assert(title_keys(ts)[i as int] == key@);
            return true;
        }
        i = i + 1;
    }
    false
}

/// Inserts `p` (with key `key`) into `sorted`/`keys`, kept in key order.
fn insert_sorted(sorted: &mut Vec<Page>, keys: &mut Vec<Vec<char>>, p: Page, key: Vec<char>)
    requires
        old(keys)@.len() == old(sorted)@.len(),
        forall|i: int| 0 <= i < old(sorted)@.len() ==> (#[trigger] old(keys)@[i])@ == title_key(old(sorted)@[i]),
        key@ == title_key(p),
    ensures
        final(keys)@.len() == final(sorted)@.len(),
        forall|i: int| 0 <= i < final(sorted)@.len() ==> (#[trigger] final(keys)@[i])@ == title_key(final(sorted)@[i]),
        final(sorted)@ == insert_by_title(old(sorted)@, p),
{
    let ghost s0 = sorted@;
    let mut j: usize = sorted.len();
    assert(s0.take(j as int) == s0 && s0.skip(j as int) =~= Seq::<Page>::empty());
    while j > 0 && chars_lt(&key, &keys[j - 1])
        invariant
            0 <= j <= s0.len(),
            sorted@ == s0,
            keys@.len() == sorted@.len(),
            forall|i: int| 0 <= i < sorted@.len() ==> (#[trigger] keys@[i])@ == title_key(sorted@[i]),
            key@ == title_key(p),
            insert_by_title(s0, p) == insert_by_title(s0.take(j as int), p) + s0.skip(j as int),
        decreases j,
    {
        proof {
            let t = s0.take(j as int);
            assert(t.last() == s0[j - 1]);
            assert(t.drop_last() == s0.take(j - 1));
            assert(insert_by_title(t, p) == insert_by_title(s0.take(j - 1), p).push(s0[j - 1]));
            assert(s0.skip(j - 1) =~= seq![s0[j - 1]] + s0.skip(j as int));
            assert(insert_by_title(s0.take(j - 1), p).push(s0[j - 1]) + s0.skip(j as int)
                =~= insert_by_title(s0.take(j - 1), p) + s0.skip(j - 1));
        }
        j = j - 1;
    }
    proof {
        let t = s0.take(j as int);
        if j > 0 {
            assert(t.last() == s0[j - 1]);
        }
        assert(insert_by_title(t, p) == t.push(p));
        assert(s0.insert(j as int, p) =~= t.push(p) + s0.skip(j as int));
    }
    sorted.insert(j, p);
    keys.insert(j, key);
    proof {
        assert forall|i: int| 0 <= i < sorted@.len() implies (#[trigger] keys@[i])@ == title_key(sorted@[i]) by {
            if i < j {
            } else if i > j {
                assert(sorted@[i] == s0[i - 1]);
            }
        }
    }
}

/// The pages other than `target` that link to its title, sorted by
/// lowercased title (ties keep `pages` order); archived pages are left out.
pub fn backlinks(pages: &Vec<Page>, target: &Page) -> (r: Vec<Page>)
    ensures
        r@ == sort_by_title(backlink_sources(live(pages@), *target)),
        forall|i: int, j: int|
            0 <= i < j < r@.len() ==> !seq_lt(
                lowercase((#[trigger] r@[j]).title@),
                lowercase((#[trigger] r@[i]).title@),
            ),
{
    proof {
        law_backlinks_ordered_ignoring_case(pages@, *target);
    }
    let live_list = live_pages(pages);
    let pages = &live_list;
    let target_key = chars_of(to_lower(target.title.as_str()).as_str());
    let mut sorted: Vec<Page> = Vec::new();
    let mut keys: Vec<Vec<char>> = Vec::new();
    let mut i: usize = 0;
    while i < pages.len()
        invariant
            0 <= i <= pages.len(),
            target_key@ == lowercase(target.title@),
            keys@.len() == sorted@.len(),
            forall|k: int| 0 <= k < sorted@.len() ==> (#[trigger] keys@[k])@ == title_key(sorted@[k]),
            sorted@ == sort_by_title(backlink_sources(pages@.take(i as int), *target)),
        decreases pages.len() - i,
    {
        let p = &pages[i];
        let ghost prev = backlink_sources(pages@.take(i as int), *target);
        assert(pages@.take(i + 1).drop_last() == pages@.take(i as int));
        assert(pages@.take(i + 1).last() == pages@[i as int]);
        assert(backlink_sources(pages@.take(i + 1), *target) == if links_to(pages@[i as int], *target) {
            prev.push(pages@[i as int])
        } else {
            prev
        });
        assert(prev.push(pages@[i as int]).drop_last() == prev);
        if p.id != target.id {
            let titles = extract_titles(p.body_html.as_str());
            if has_title_key(&titles, &target_key) {
                let key = chars_of(to_lower(p.title.as_str()).as_str());
                insert_sorted(&mut sorted, &mut keys, p.clone(), key);
            }
        }
        i = i + 1;
    }
    assert(pages@.take(pages.len() as int) == pages@);
    sorted
}

/// A title that no page has, with the pages that link to it.
#[derive(Debug)]
pub struct BrokenLink {
    pub title: String,
    pub sources: Vec<Page>,
}

impl BrokenLink {
    /// Where to create the missing page: the creation form, prefilled with the title.
    pub fn create_url(&self) -> (r: String)
        ensures
            r@ == "/pages/new?title="@ + url_encode(self.title@),
    {
        let mut out: Vec<char> = Vec::new();
        push_str(&mut out, "/pages/new?title=");
        let q = url_encode_str(self.title.as_str());
        push_str(&mut out, q.as_str());
        string_of(&out)
    }
}

/// One link occurrence per (page, distinct title it links to), pages in order.
pub open spec fn page_events(p: Page) -> Seq<(Page, Seq<char>)> {
    linked_titles(p.body_html@).map_values(|t: Seq<char>| (p, t))
}

pub open spec fn link_events(pages: Seq<Page>) -> Seq<(Page, Seq<char>)>
    decreases pages.len(),
{
    if pages.len() == 0 {
        Seq::empty()
    } else {
        link_events(pages.drop_last()) + page_events(pages.last())
    }
}

/// Lowercased titles of the pages.
pub open spec fn page_title_keys(pages: Seq<Page>) -> Seq<Seq<char>> {
    pages.map_values(|p: Page| lowercase(p.title@))
}

/// A broken link being collected: (lowercase key, title as first written, sources).
pub type BrokenEntry = (Seq<char>, Seq<char>, Seq<Page>);

/// Where key `k` goes in entries kept in key order: after every entry whose
/// key sorts before it.
pub open spec fn key_slot(entries: Seq<BrokenEntry>, k: Seq<char>) -> int
    decreases entries.len(),
{
    if entries.len() == 0 {
        0
    } else if seq_lt(entries.last().0, k) {
        entries.len() as int
    } else {
        key_slot(entries.drop_last(), k)
    }
}

/// One link occurrence added to the broken links: nothing when a page has the
/// title, otherwise the page joins the sources of the title's key (a new entry,
/// in key order, for a new key).
pub open spec fn broken_step(
    entries: Seq<BrokenEntry>,
    ev: (Page, Seq<char>),
    targets: Seq<Seq<char>>,
) -> Seq<BrokenEntry> {
    let k = lowercase(ev.1);
    if targets.contains(k) {
        entries
    } else {
        let i = key_slot(entries, k);
        if 0 <= i < entries.len() && entries[i].0 == k {
            entries.update(i, (k, entries[i].1, entries[i].2.push(ev.0)))
        } else {
            entries.insert(i, (k, ev.1, seq![ev.0]))
        }
    }
}

pub open spec fn broken_from(
    entries: Seq<BrokenEntry>,
    evs: Seq<(Page, Seq<char>)>,
    targets: Seq<Seq<char>>,
) -> Seq<BrokenEntry>
    decreases evs.len(),
{
    if evs.len() == 0 {
        entries
    } else {
        broken_step(broken_from(entries, evs.drop_last(), targets), evs.last(), targets)
    }
}

/// The broken links of a set of pages, in key order.
pub open spec fn broken_entries(pages: Seq<Page>) -> Seq<BrokenEntry> {
    broken_from(Seq::empty(), link_events(pages), page_title_keys(pages))
}

pub proof fn lemma_broken_from_concat(
    entries: Seq<BrokenEntry>,
    a: Seq<(Page, Seq<char>)>,
    b: Seq<(Page, Seq<char>)>,
    targets: Seq<Seq<char>>,
)
    ensures
        broken_from(entries, a + b, targets) == broken_from(broken_from(entries, a, targets), b, targets),
    decreases b.len(),
{
    if b.len() == 0 {
        assert(a + b =~= a);
    } else {
        assert((a + b).drop_last() =~= a + b.drop_last());
        lemma_broken_from_concat(entries, a, b.drop_last(), targets);
    }
}

/// The slot of `key` among the collected keys, and whether it is taken by `key`.
fn find_slot(keys: &Vec<Vec<char>>, key: &Vec<char>, Ghost(entries): Ghost<Seq<BrokenEntry>>) -> (r: usize)
    requires
        keys@.len() == entries.len(),
        forall|i: int| 0 <= i < entries.len() ==> (#[trigger] keys@[i])@ == entries[i].0,
    ensures
        r as int == key_slot(entries, key@),
        r <= keys@.len(),
{
    let mut j: usize = keys.len();
    assert(entries.take(j as int) == entries);
    while j > 0 && !chars_lt(&keys[j - 1], key)
        invariant
            0 <= j <= keys@.len(),
            keys@.len() == entries.len(),
            forall|i: int| 0 <= i < entries.len() ==> (#[trigger] keys@[i])@ == entries[i].0,
            key_slot(entries, key@) == key_slot(entries.take(j as int), key@),
        decreases j,
    {
        assert(entries.take(j as int).last() == entries[j - 1]);
        assert(entries.take(j as int).drop_last() == entries.take(j - 1));
        j = j - 1;
    }
    if j > 0 {
        assert(entries.take(j as int).last() == entries[j - 1]);
    }
    j
}

/// Titles linked from the unarchived pages of `pages` that none of them has, one entry per
/// lowercase title in order of that key, each with the title as first written
/// and the pages that link to it, in order.
pub fn broken_links(pages: &Vec<Page>) -> (r: Vec<BrokenLink>)
    ensures
        r@.len() == broken_entries(live(pages@)).len(),
        forall|i: int|
            0 <= i < r@.len() ==> (#[trigger] r@[i]).title@ == broken_entries(live(pages@))[i].1
                && r@[i].sources@ == broken_entries(live(pages@))[i].2,
{
    let live_list = live_pages(pages);
    let pages = &live_list;
    let targets = page_keys(pages);
    let ghost tk = page_title_keys(pages@);
    assert forall|k: Seq<char>| tk.contains(k) <==> exists|i: int| 0 <= i < targets@.len() && (#[trigger] targets@[i])@ == k by {
        if tk.contains(k) {
            let i = choose|i: int| 0 <= i < tk.len() && tk[i] == k;
            assert(targets@[i]@ == k);
        }
        if exists|i: int| 0 <= i < targets@.len() && (#[trigger] targets@[i])@ == k {
            let i = choose|i: int| 0 <= i < targets@.len() && (#[trigger] targets@[i])@ == k;
            assert(tk[i] == k);
        }
    }
    let mut keys: Vec<Vec<char>> = Vec::new();
    let mut items: Vec<BrokenLink> = Vec::new();
    let ghost mut entries: Seq<BrokenEntry> = Seq::empty();
    let mut i: usize = 0;
    while i < pages.len()
        invariant
            0 <= i <= pages.len(),
            tk == page_title_keys(pages@),
            forall|k: Seq<char>| tk.contains(k) <==> exists|m: int| 0 <= m < targets@.len() && (#[trigger] targets@[m])@ == k,
            keys@.len() == entries.len(),
            items@.len() == entries.len(),
            forall|m: int| 0 <= m < entries.len() ==> (#[trigger] keys@[m])@ == entries[m].0,
            forall|m: int| 0 <= m < entries.len() ==> (#[trigger] items@[m]).title@ == entries[m].1 && items@[m].sources@ == entries[m].2,
            entries == broken_from(Seq::empty(), link_events(pages@.take(i as int)), tk),
        decreases pages.len() - i,
    {
        let titles = extract_titles(pages[i].body_html.as_str());
        let ghost pev = page_events(pages@[i as int]);
        let ghost base = entries;
        let mut j: usize = 0;
        while j < titles.len()
            invariant
                0 <= i < pages.len(),
                0 <= j <= titles.len(),
                views(titles@) == linked_titles(pages@[i as int].body_html@),
                pev == page_events(pages@[i as int]),
                tk == page_title_keys(pages@),
                forall|k: Seq<char>| tk.contains(k) <==> exists|m: int| 0 <= m < targets@.len() && (#[trigger] targets@[m])@ == k,
                keys@.len() == entries.len(),
                items@.len() == entries.len(),
                forall|m: int| 0 <= m < entries.len() ==> (#[trigger] keys@[m])@ == entries[m].0,
                forall|m: int| 0 <= m < entries.len() ==> (#[trigger] items@[m]).title@ == entries[m].1 && items@[m].sources@ == entries[m].2,
                entries == broken_from(base, pev.take(j as int), tk),
            decreases titles.len() - j,
        {
            let ghost ev = pev[j as int];
            assert(ev == (pages@[i as int], titles@[j as int]@));
            assert(pev.take(j + 1).drop_last() == pev.take(j as int));
            assert(pev.take(j + 1).last() == ev);
            let key = chars_of(to_lower(titles[j].as_str()).as_str());
            if !has_key(&targets, &key) {
                let slot = find_slot(&keys, &key, Ghost(entries));
                if slot < keys.len() && chars_eq(&keys[slot], &key) {
                    let ghost items0 = items@;
                    let mut item = items.remove(slot);
                    item.sources.push(pages[i].clone());
                    items.insert(slot, item);
                    proof {
                        let old_e = entries;
                        entries = entries.update(slot as int, (key@, old_e[slot as int].1, old_e[slot as int].2.push(pages@[i as int])));
                        assert forall|m: int| 0 <= m < entries.len() implies (#[trigger] items@[m]).title@ == entries[m].1 && items@[m].sources@ == entries[m].2 by {
                            if m != slot {
                                assert(items@[m] == items0[m]);
                            }
                        }
                    }
                } else {
                    let title = titles[j].clone();
                    let mut sources: Vec<Page> = Vec::new();
                    sources.push(pages[i].clone());
                    items.insert(slot, BrokenLink { title, sources });
                    keys.insert(slot, key);
                    proof {
                        let old_e = entries;
                        entries = entries.insert(slot as int, (key@, titles@[j as int]@, seq![pages@[i as int]]));
                        assert forall|m: int| 0 <= m < entries.len() implies (#[trigger] keys@[m])@ == entries[m].0 by {
                            if m < slot {
                            } else if m > slot {
                                assert(entries[m] == old_e[m - 1]);
                            }
                        }
                        assert forall|m: int| 0 <= m < entries.len() implies (#[trigger] items@[m]).title@ == entries[m].1 && items@[m].sources@ == entries[m].2 by {
                            if m < slot {
                            } else if m > slot {
                                assert(entries[m] == old_e[m - 1]);
                            }
                        }
                    }
                }
            }
            j = j + 1;
        }
        proof {
            assert(pev.len() == titles@.len());
            assert(pev.take(j as int) == pev);
            assert(pages@.take(i + 1).drop_last() == pages@.take(i as int));
            assert(pages@.take(i + 1).last() == pages@[i as int]);
            lemma_broken_from_concat(Seq::empty(), link_events(pages@.take(i as int)), pev, tk);
        }
        i = i + 1;
    }
    assert(pages@.take(pages.len() as int) == pages@);
    items
}

// ---------------------------------------------------------------------------
// Laws
// ---------------------------------------------------------------------------

/// No two titles share a lowercase key.
pub open spec fn keys_distinct(ts: Seq<Seq<char>>) -> bool {
    forall|i: int, j: int|
        0 <= i < j < ts.len() ==> lowercase(#[trigger] ts[i]) != lowercase(#[trigger] ts[j])
}

proof fn lemma_add_titles_props(prev: Seq<Seq<char>>, ts: Seq<Seq<char>>)
    requires
        keys_distinct(prev),
        forall|i: int| 0 <= i < prev.len() ==> (#[trigger] prev[i]).len() > 0,
    ensures
        keys_distinct(add_titles(prev, ts)),
        forall|i: int|
            0 <= i < add_titles(prev, ts).len() ==> (#[trigger] add_titles(prev, ts)[i]).len() > 0,
        prev.len() <= add_titles(prev, ts).len(),
        add_titles(prev, ts).subrange(0, prev.len() as int) == prev,
        forall|i: int|
            prev.len() <= i < add_titles(prev, ts).len() ==> ts.contains(
                #[trigger] add_titles(prev, ts)[i],
            ),
        forall|i: int|
            0 <= i < ts.len() && (#[trigger] ts[i]).len() > 0 ==> title_keys(
                add_titles(prev, ts),
            ).contains(lowercase(ts[i])),
    decreases ts.len(),
{
    if ts.len() > 0 {
        let q = ts.drop_last();
        lemma_add_titles_props(prev, q);
        let mid = add_titles(prev, q);
        let t = ts.last();
        let r = add_titles(prev, ts);
        assert(r == add_title(mid, t));
        if !(t.len() == 0 || title_keys(mid).contains(lowercase(t))) {
            assert(r == mid.push(t));
            assert forall|i: int, j: int|
                0 <= i < j < r.len() implies lowercase(#[trigger] r[i]) != lowercase(
                    #[trigger] r[j],
                ) by {
                if j == r.len() - 1 {
                    assert(title_keys(mid)[i] == lowercase(mid[i]));
                }
            }
            assert(r.subrange(0, prev.len() as int) =~= mid.subrange(0, prev.len() as int));
        }
        assert forall|i: int| prev.len() <= i < r.len() implies ts.contains(#[trigger] r[i]) by {
            if i < mid.len() {
                assert(r[i] == mid[i]);
                assert(q.contains(mid[i]));
                let k = choose|k: int| 0 <= k < q.len() && q[k] == mid[i];
                assert(ts[k] == q[k]);
            } else {
                assert(r[i] == t);
                assert(ts[ts.len() - 1] == t);
            }
        }
        assert forall|i: int|
            0 <= i < ts.len() && (#[trigger] ts[i]).len() > 0 implies title_keys(r).contains(
            lowercase(ts[i]),
        ) by {
            if i < ts.len() - 1 {
                assert(ts[i] == q[i]);
                assert(title_keys(mid).contains(lowercase(q[i])));
                let k = choose|k: int| 0 <= k < mid.len() && title_keys(mid)[k] == lowercase(q[i]);
                assert(r[k] == mid[k]);
                assert(title_keys(r)[k] == lowercase(q[i]));
            } else {
                assert(ts[i] == t);
                if title_keys(mid).contains(lowercase(t)) {
                    let k = choose|k: int| 0 <= k < mid.len() && title_keys(mid)[k] == lowercase(t);
                    assert(title_keys(r)[k] == lowercase(t));
                } else {
                    assert(title_keys(r)[r.len() - 1] == lowercase(t));
                }
            }
        }
    }
}

proof fn lemma_link_titles_trimmed(t: Seq<char>, pos: int)
    ensures
        forall|i: int|
            0 <= i < link_titles(t, pos).len() ==> is_trimmed(#[trigger] link_titles(t, pos)[i]),
    decreases t.len() - pos,
{
    if 0 <= pos < t.len() {
        match link_end(t, pos) {
            Some(e) => {
                if e > pos {
                    lemma_link_titles_trimmed(t, e);
                    lemma_trim_is_trimmed(t.subrange(pos + 2, e - 2));
                    let r = link_titles(t, pos);
                    assert(r == seq![link_title(t, pos, e)] + link_titles(t, e));
                    assert forall|i: int| 0 <= i < r.len() implies is_trimmed(#[trigger] r[i]) by {
                        if i > 0 {
                            assert(r[i] == link_titles(t, e)[i - 1]);
                        } else {
                            assert(r[0] == link_title(t, pos, e));
                        }
                    }
                }
            },
            None => {
                lemma_link_titles_trimmed(t, pos + 1);
                assert(link_titles(t, pos) == link_titles(t, pos + 1));
            },
        }
    }
}

proof fn lemma_source_titles_trimmed(s: Seq<char>, pos: int, depth: nat)
    ensures
        forall|i: int|
            0 <= i < source_titles(s, pos, depth).len() ==> is_trimmed(
                #[trigger] source_titles(s, pos, depth)[i],
            ),
    decreases s.len() - pos,
{
    if 0 <= pos <= s.len() {
        match next_tag(s, pos) {
            None => {
                lemma_link_titles_trimmed(s.subrange(pos, s.len() as int), 0);
            },
            Some((a, e)) => {
                if pos <= a < e <= s.len() {
                    let seg = s.subrange(pos, a);
                    let nd = next_depth(depth, s.subrange(a, e));
                    lemma_link_titles_trimmed(seg, 0);
                    lemma_source_titles_trimmed(s, e, nd);
                    let r = source_titles(s, pos, depth);
                    let st = segment_titles(seg, depth);
                    assert forall|i: int| 0 <= i < r.len() implies is_trimmed(#[trigger] r[i]) by {
                        if i < st.len() {
                            assert(r[i] == st[i]);
                        } else {
                            assert(r[i] == source_titles(s, e, nd)[i - st.len()]);
                        }
                    }
                }
            },
        }
    }
}

/// Law: the titles a body links to are non-empty, trimmed, and pairwise
/// distinct ignoring case; each one occurs as a link title in the body, and
/// every non-empty link title of the body is among them ignoring case.
pub proof fn law_linked_titles(s: Seq<char>)
    ensures
        keys_distinct(linked_titles(s)),
        forall|i: int|
            0 <= i < linked_titles(s).len() ==> (#[trigger] linked_titles(s)[i]).len() > 0
                && is_trimmed(linked_titles(s)[i]) && source_titles(s, 0, 0).contains(
                linked_titles(s)[i],
            ),
        forall|i: int|
            0 <= i < source_titles(s, 0, 0).len() && (#[trigger] source_titles(s, 0, 0)[i]).len()
                > 0 ==> title_keys(linked_titles(s)).contains(lowercase(source_titles(s, 0, 0)[i])),
{
    let ts = source_titles(s, 0, 0);
    lemma_add_titles_props(Seq::empty(), ts);
    lemma_source_titles_trimmed(s, 0, 0);
    let r = linked_titles(s);
    assert forall|i: int| 0 <= i < r.len() implies is_trimmed(#[trigger] r[i]) by {
        assert(ts.contains(r[i]));
        let k = choose|k: int| 0 <= k < ts.len() && ts[k] == r[i];
        assert(is_trimmed(ts[k]));
    }
}

/// No two consecutive `[` in a text.
pub open spec fn no_link_opening(s: Seq<char>) -> bool {
    forall|i: int| 0 <= i < s.len() - 1 ==> !(#[trigger] s[i] == '[' && s[i + 1] == '[')
}

proof fn lemma_render_links_plain(t: Seq<char>, pos: int, pages: Seq<Page>)
    requires
        no_link_opening(t),
        0 <= pos <= t.len(),
    ensures
        render_links(t, pos, pages) == t.subrange(pos, t.len() as int),
    decreases t.len() - pos,
{
    if pos < t.len() {
        assert(link_end(t, pos) is None);
        lemma_render_links_plain(t, pos + 1, pages);
        assert(t.subrange(pos, t.len() as int) =~= seq![t[pos]] + t.subrange(
            pos + 1,
            t.len() as int,
        ));
    } else {
        assert(t.subrange(pos, t.len() as int) =~= Seq::<char>::empty());
    }
}

proof fn lemma_render_source_plain(s: Seq<char>, pos: int, depth: nat, pages: Seq<Page>)
    requires
        no_link_opening(s),
        0 <= pos <= s.len(),
    ensures
        render_source(s, pos, depth, pages) == s.subrange(pos, s.len() as int),
    decreases s.len() - pos,
{
    lemma_next_tag_bounds(s, pos);
    match next_tag(s, pos) {
        None => {
            let seg = s.subrange(pos, s.len() as int);
            assert forall|i: int| 0 <= i < seg.len() - 1 implies !(#[trigger] seg[i] == '['
                && seg[i + 1] == '[') by {
                assert(seg[i] == s[pos + i] && seg[i + 1] == s[pos + i + 1]);
            }
            lemma_render_links_plain(seg, 0, pages);
            assert(seg.subrange(0, seg.len() as int) == seg);
        },
        Some((a, e)) => {
            let seg = s.subrange(pos, a);
            assert forall|i: int| 0 <= i < seg.len() - 1 implies !(#[trigger] seg[i] == '['
                && seg[i + 1] == '[') by {
                assert(seg[i] == s[pos + i] && seg[i + 1] == s[pos + i + 1]);
            }
            lemma_render_links_plain(seg, 0, pages);
            assert(seg.subrange(0, seg.len() as int) == seg);
            lemma_render_source_plain(s, e, next_depth(depth, s.subrange(a, e)), pages);
            assert(s.subrange(pos, s.len() as int) =~= seg + s.subrange(a, e) + s.subrange(
                e,
                s.len() as int,
            ));
        },
    }
}

/// Law: a body without `[[` renders exactly as written, whatever the pages.
pub proof fn law_plain_body_renders_unchanged(s: Seq<char>, pages: Seq<Page>)
    requires
        no_link_opening(s),
    ensures
        rendered(s, pages) == s,
{
    lemma_render_source_plain(s, 0, 0, pages);
    assert(s.subrange(0, s.len() as int) == s);
}

/// Pages in nondecreasing order of lowercased title.
pub open spec fn titles_sorted(ps: Seq<Page>) -> bool {
    forall|i: int, j: int|
        0 <= i < j < ps.len() ==> !seq_lt(title_key(#[trigger] ps[j]), title_key(#[trigger] ps[i]))
}

proof fn lemma_insert_by_title(sorted: Seq<Page>, p: Page)
    requires
        titles_sorted(sorted),
    ensures
        titles_sorted(insert_by_title(sorted, p)),
        insert_by_title(sorted, p).to_multiset() == sorted.to_multiset().insert(p),
    decreases sorted.len(),
{
    broadcast use vstd::seq_lib::group_to_multiset_ensures;

    if sorted.len() == 0 {
        assert(insert_by_title(sorted, p) == seq![p]);
        assert(seq![p] == Seq::<Page>::empty().push(p));
        assert(sorted =~= Seq::<Page>::empty());
    } else {
        let last = sorted.last();
        let dl = sorted.drop_last();
        assert(sorted == dl.push(last));
        if seq_lt(title_key(p), title_key(last)) {
            assert(titles_sorted(dl));
            lemma_insert_by_title(dl, p);
            let m = insert_by_title(dl, p);
            let r = m.push(last);
            assert forall|i: int, j: int| 0 <= i < j < r.len() implies !seq_lt(
                title_key(#[trigger] r[j]),
                title_key(#[trigger] r[i]),
            ) by {
                if j == r.len() - 1 {
                    let x = m[i];
                    assert(m.to_multiset().count(x) > 0);
                    if x == p {
                        lemma_seq_lt_asym(title_key(p), title_key(last));
                    } else {
                        assert(dl.to_multiset().count(x) > 0);
                        let k = choose|k: int| 0 <= k < dl.len() && dl[k] == x;
                        assert(sorted[k] == x);
                        assert(!seq_lt(title_key(sorted[sorted.len() - 1]), title_key(sorted[k])));
                    }
                }
            }
        } else {
            let r = sorted.push(p);
            assert forall|i: int, j: int| 0 <= i < j < r.len() implies !seq_lt(
                title_key(#[trigger] r[j]),
                title_key(#[trigger] r[i]),
            ) by {
                if j == r.len() - 1 && i < sorted.len() - 1 {
                    let ki = title_key(sorted[i]);
                    let kl = title_key(last);
                    let kp = title_key(p);
                    assert(!seq_lt(kl, ki));
                    lemma_seq_lt_total(ki, kl);
                    if seq_lt(kp, ki) && seq_lt(ki, kl) {
                        lemma_seq_lt_trans(kp, ki, kl);
                    }
                }
            }
        }
    }
}

proof fn lemma_sort_by_title(ps: Seq<Page>)
    ensures
        titles_sorted(sort_by_title(ps)),
        sort_by_title(ps).to_multiset() == ps.to_multiset(),
    decreases ps.len(),
{
    broadcast use vstd::seq_lib::group_to_multiset_ensures;

    if ps.len() == 0 {
        assert(ps.to_multiset() =~= vstd::multiset::Multiset::<Page>::empty());
        assert(sort_by_title(ps).to_multiset() =~= vstd::multiset::Multiset::<Page>::empty());
    } else {
        lemma_sort_by_title(ps.drop_last());
        lemma_insert_by_title(sort_by_title(ps.drop_last()), ps.last());
        assert(ps == ps.drop_last().push(ps.last()));
    }
}

proof fn lemma_backlink_sources(pages: Seq<Page>, target: Page)
    ensures
        forall|x: Page| #[trigger] backlink_sources(pages, target).contains(x) <==> (pages.contains(x)
            && links_to(x, target)),
    decreases pages.len(),
{
    if pages.len() > 0 {
        let dl = pages.drop_last();
        lemma_backlink_sources(dl, target);
        let prev = backlink_sources(dl, target);
        let r0 = backlink_sources(pages, target);
        assert(r0 == if links_to(pages.last(), target) {
            prev.push(pages.last())
        } else {
            prev
        });
        assert forall|x: Page| #[trigger] backlink_sources(pages, target).contains(x) <==> (
        pages.contains(x) && links_to(x, target)) by {
            if pages.contains(x) && links_to(x, target) {
                let k = choose|k: int| 0 <= k < pages.len() && pages[k] == x;
                if k < pages.len() - 1 {
                    assert(dl[k] == x);
                    assert(dl.contains(x));
                    assert(prev.contains(x));
                    let k2 = choose|k2: int| 0 <= k2 < prev.len() && prev[k2] == x;
                    assert(r0[k2] == x);
                } else {
                    assert(x == pages.last());
                    assert(r0[prev.len() as int] == x);
                }
                assert(r0.contains(x));
            }
            if backlink_sources(pages, target).contains(x) {
                let r = backlink_sources(pages, target);
                let k = choose|k: int| 0 <= k < r.len() && r[k] == x;
                if k < prev.len() {
                    assert(prev[k] == x);
                    assert(prev.contains(x));
                    let k2 = choose|k2: int| 0 <= k2 < dl.len() && dl[k2] == x;
                    assert(pages[k2] == x);
                } else {
                    assert(x == pages.last());
                    assert(pages[pages.len() - 1] == x);
                }
            }
        }
    }
}

/// Law: backlinks are sorted by lowercased title, and hold exactly the pages
/// other than the target that link to its title, each as often as in `pages`.
pub proof fn law_backlinks(pages: Seq<Page>, target: Page)
    ensures
        titles_sorted(sort_by_title(backlink_sources(pages, target))),
        sort_by_title(backlink_sources(pages, target)).to_multiset() == backlink_sources(
            pages,
            target,
        ).to_multiset(),
        forall|x: Page| #[trigger]
            sort_by_title(backlink_sources(pages, target)).contains(x) <==> (pages.contains(x)
                && links_to(x, target)),
{
    broadcast use vstd::seq_lib::group_to_multiset_ensures;

    let b = backlink_sources(pages, target);
    lemma_sort_by_title(b);
    lemma_backlink_sources(pages, target);
    let r = sort_by_title(b);
    assert forall|x: Page| #[trigger] r.contains(x) <==> (pages.contains(x) && links_to(x, target)) by {
        assert(r.contains(x) <==> r.to_multiset().count(x) > 0);
        assert(b.contains(x) <==> b.to_multiset().count(x) > 0);
    }
}

/// Broken-link entries in strictly increasing key order, each keyed by its
/// title's lowercase, with no page holding that title, and at least one source.
pub open spec fn broken_wf(entries: Seq<BrokenEntry>, targets: Seq<Seq<char>>) -> bool {
    &&& forall|i: int, j: int|
        0 <= i < j < entries.len() ==> seq_lt((#[trigger] entries[i]).0, (#[trigger] entries[j]).0)
    &&& forall|i: int|
        0 <= i < entries.len() ==> (#[trigger] entries[i]).0 == lowercase(entries[i].1)
            && !targets.contains(entries[i].0) && entries[i].2.len() > 0
}

proof fn lemma_key_slot(entries: Seq<BrokenEntry>, k: Seq<char>)
    requires
        forall|i: int, j: int|
            0 <= i < j < entries.len() ==> seq_lt((#[trigger] entries[i]).0, (#[trigger] entries[j]).0),
    ensures
        0 <= key_slot(entries, k) <= entries.len(),
        forall|j: int| 0 <= j < key_slot(entries, k) ==> seq_lt((#[trigger] entries[j]).0, k),
        forall|j: int| key_slot(entries, k) <= j < entries.len() ==> !seq_lt((#[trigger] entries[j]).0, k),
    decreases entries.len(),
{
    if entries.len() > 0 {
        let dl = entries.drop_last();
        let last = entries.last();
        if seq_lt(last.0, k) {
            assert forall|j: int| 0 <= j < entries.len() implies seq_lt((#[trigger] entries[j]).0, k) by {
                if j < entries.len() - 1 {
                    assert(seq_lt(entries[j].0, entries[entries.len() - 1].0));
                    lemma_seq_lt_trans(entries[j].0, last.0, k);
                }
            }
        } else {
            lemma_key_slot(dl, k);
            assert forall|j: int| 0 <= j < key_slot(entries, k) implies seq_lt((#[trigger] entries[j]).0, k) by {
                assert(entries[j] == dl[j]);
            }
            assert forall|j: int| key_slot(entries, k) <= j < entries.len() implies !seq_lt((#[trigger] entries[j]).0, k) by {
                if j < entries.len() - 1 {
                    assert(entries[j] == dl[j]);
                }
            }
        }
    }
}

proof fn lemma_broken_step_wf(entries: Seq<BrokenEntry>, ev: (Page, Seq<char>), targets: Seq<Seq<char>>)
    requires
        broken_wf(entries, targets),
    ensures
        broken_wf(broken_step(entries, ev, targets), targets),
{
    let k = lowercase(ev.1);
    if !targets.contains(k) {
        lemma_key_slot(entries, k);
        let i = key_slot(entries, k);
        let r = broken_step(entries, ev, targets);
        if 0 <= i < entries.len() && entries[i].0 == k {
            assert forall|a: int, b: int| 0 <= a < b < r.len() implies seq_lt((#[trigger] r[a]).0, (#[trigger] r[b]).0) by {
                assert(r[a].0 == entries[a].0 && r[b].0 == entries[b].0);
            }
        } else {
            assert(r == entries.insert(i, (k, ev.1, seq![ev.0])));
            assert forall|a: int| 0 <= a < r.len() implies (#[trigger] r[a]).0 == lowercase(r[a].1)
                && !targets.contains(r[a].0) && r[a].2.len() > 0 by {
                if a > i {
                    assert(r[a] == entries[a - 1]);
                } else if a < i {
                    assert(r[a] == entries[a]);
                }
            }
            assert forall|a: int, b: int| 0 <= a < b < r.len() implies seq_lt((#[trigger] r[a]).0, (#[trigger] r[b]).0) by {
                if i < entries.len() {
                    lemma_seq_lt_total(entries[i].0, k);
                }
                if a < i && b == i {
                    assert(r[a] == entries[a]);
                } else if a < i && b > i {
                    assert(r[a] == entries[a] && r[b] == entries[b - 1]);
                    assert(seq_lt(entries[a].0, k));
                    if b - 1 == i {
                        lemma_seq_lt_trans(entries[a].0, k, entries[i].0);
                    } else {
                        assert(seq_lt(entries[i].0, entries[b - 1].0));
                        lemma_seq_lt_trans(k, entries[i].0, entries[b - 1].0);
                        lemma_seq_lt_trans(entries[a].0, k, entries[b - 1].0);
                    }
                } else if a == i && b > i {
                    assert(r[b] == entries[b - 1]);
                    if b - 1 > i {
                        assert(seq_lt(entries[i].0, entries[b - 1].0));
                        lemma_seq_lt_trans(k, entries[i].0, entries[b - 1].0);
                    }
                } else if a < i && b < i {
                    assert(r[a] == entries[a] && r[b] == entries[b]);
                } else {
                    assert(r[a] == entries[a - 1] && r[b] == entries[b - 1]);
                }
            }
        }
    }
}

proof fn lemma_broken_from_wf(entries: Seq<BrokenEntry>, evs: Seq<(Page, Seq<char>)>, targets: Seq<Seq<char>>)
    requires
        broken_wf(entries, targets),
    ensures
        broken_wf(broken_from(entries, evs, targets), targets),
    decreases evs.len(),
{
    if evs.len() > 0 {
        lemma_broken_from_wf(entries, evs.drop_last(), targets);
        lemma_broken_step_wf(broken_from(entries, evs.drop_last(), targets), evs.last(), targets);
    }
}

/// Law: broken links come in strictly increasing order of lowercased title;
/// no page has a broken link's title (ignoring case), and each broken link
/// has at least one source.
pub proof fn law_broken_links(pages: Seq<Page>)
    ensures
        forall|i: int, j: int|
            0 <= i < j < broken_entries(pages).len() ==> seq_lt(
                lowercase((#[trigger] broken_entries(pages)[i]).1),
                lowercase((#[trigger] broken_entries(pages)[j]).1),
            ),
        forall|i: int|
            0 <= i < broken_entries(pages).len() ==> !page_title_keys(pages).contains(
                lowercase((#[trigger] broken_entries(pages)[i]).1),
            ) && broken_entries(pages)[i].2.len() > 0,
{
    lemma_broken_from_wf(Seq::empty(), link_events(pages), page_title_keys(pages));
    let e = broken_entries(pages);
    assert forall|i: int, j: int| 0 <= i < j < e.len() implies seq_lt(
        lowercase((#[trigger] e[i]).1),
        lowercase((#[trigger] e[j]).1),
    ) by {
        assert(e[i].0 == lowercase(e[i].1));
        assert(e[j].0 == lowercase(e[j].1));
    }
}

proof fn lemma_find_page(pages: Seq<Page>, key: Seq<char>)
    ensures
        find_page(pages, key) matches Some(p) ==> pages.contains(p) && lowercase(p.title@) == key,
        find_page(pages, key) is None ==> forall|i: int|
            0 <= i < pages.len() ==> lowercase((#[trigger] pages[i]).title@) != key,
    decreases pages.len(),
{
    if pages.len() > 0 {
        let dl = pages.drop_last();
        lemma_find_page(dl, key);
        if lowercase(pages.last().title@) == key {
            assert(pages[pages.len() - 1] == pages.last());
        } else {
            if let Some(p) = find_page(dl, key) {
                let k = choose|k: int| 0 <= k < dl.len() && dl[k] == p;
                assert(pages[k] == p);
            } else {
                assert forall|i: int| 0 <= i < pages.len() implies lowercase((#[trigger] pages[i]).title@) != key by {
                    if i < pages.len() - 1 {
                        assert(pages[i] == dl[i]);
                    }
                }
            }
        }
    }
}

/// Some page's lowercased title is `key`.
pub open spec fn has_page_titled(pages: Seq<Page>, key: Seq<char>) -> bool {
    exists|j: int| 0 <= j < pages.len() && lowercase(#[trigger] pages[j].title@) == key
}

proof fn lemma_resolve_titles(pages: Seq<Page>, ts: Seq<Seq<char>>)
    ensures
        forall|i: int|
            0 <= i < resolve_titles(pages, ts).len() ==> pages.contains(
                #[trigger] resolve_titles(pages, ts)[i],
            ) && title_keys(ts).contains(lowercase(resolve_titles(pages, ts)[i].title@)),
        forall|i: int|
            0 <= i < ts.len() && has_page_titled(pages, lowercase(#[trigger] ts[i]))
                ==> has_page_titled(resolve_titles(pages, ts), lowercase(ts[i])),
    decreases ts.len(),
{
    if ts.len() > 0 {
        let dl = ts.drop_last();
        lemma_resolve_titles(pages, dl);
        let t = ts.last();
        lemma_find_page(pages, lowercase(t));
        let prev = resolve_titles(pages, dl);
        let r = resolve_titles(pages, ts);
        assert forall|i: int| 0 <= i < r.len() implies pages.contains(#[trigger] r[i])
            && title_keys(ts).contains(lowercase(r[i].title@)) by {
            if i < prev.len() {
                assert(r[i] == prev[i]);
                let k = choose|k: int| 0 <= k < dl.len() && title_keys(dl)[k] == lowercase(prev[i].title@);
                assert(title_keys(ts)[k] == title_keys(dl)[k]);
            } else {
                assert(title_keys(ts)[ts.len() - 1] == lowercase(t));
            }
        }
        assert forall|i: int|
            0 <= i < ts.len() && has_page_titled(pages, lowercase(#[trigger] ts[i]))
            implies has_page_titled(r, lowercase(ts[i])) by {
            if i < ts.len() - 1 {
                assert(ts[i] == dl[i]);
                assert(has_page_titled(prev, lowercase(dl[i])));
                let k = choose|k: int| 0 <= k < prev.len() && lowercase(#[trigger] prev[k].title@) == lowercase(dl[i]);
                assert(r[k] == prev[k]);
            } else {
                assert(find_page(pages, lowercase(t)) is Some);
                assert(r[prev.len() as int] == find_page(pages, lowercase(t))->Some_0);
            }
        }
    }
}

/// Law: every page a body links to is one of the pages and carries a title
/// the body links to (ignoring case); and every linked title that some page
/// has is resolved to a page with that title.
pub proof fn law_linked_pages(pages: Seq<Page>, s: Seq<char>)
    ensures
        forall|i: int|
            0 <= i < resolve_titles(pages, linked_titles(s)).len() ==> pages.contains(
                #[trigger] resolve_titles(pages, linked_titles(s))[i],
            ) && title_keys(linked_titles(s)).contains(
                lowercase(resolve_titles(pages, linked_titles(s))[i].title@),
            ),
        forall|i: int|
            0 <= i < linked_titles(s).len() && has_page_titled(pages, lowercase(#[trigger] linked_titles(s)[i]))
                ==> has_page_titled(resolve_titles(pages, linked_titles(s)), lowercase(linked_titles(s)[i])),
{
    lemma_resolve_titles(pages, linked_titles(s));
}

/// The pages of the link occurrences whose title has lowercase key `k`, in order.
pub open spec fn event_sources(evs: Seq<(Page, Seq<char>)>, k: Seq<char>) -> Seq<Page>
    decreases evs.len(),
{
    if evs.len() == 0 {
        Seq::empty()
    } else {
        let prev = event_sources(evs.drop_last(), k);
        if lowercase(evs.last().1) == k {
            prev.push(evs.last().0)
        } else {
            prev
        }
    }
}

/// The pages that link to a title with lowercase key `k`, in order.
pub open spec fn pages_linking(pages: Seq<Page>, k: Seq<char>) -> Seq<Page>
    decreases pages.len(),
{
    if pages.len() == 0 {
        Seq::empty()
    } else {
        let prev = pages_linking(pages.drop_last(), k);
        if title_keys(linked_titles(pages.last().body_html@)).contains(k) {
            prev.push(pages.last())
        } else {
            prev
        }
    }
}

/// The broken-link entries account for the occurrences `evs`: each entry's
/// sources are the pages of the occurrences with its key, and every
/// occurrence whose key no page has is under an entry.
pub open spec fn broken_accounts(entries: Seq<BrokenEntry>, evs: Seq<(Page, Seq<char>)>, targets: Seq<Seq<char>>) -> bool {
    &&& broken_wf(entries, targets)
    &&& forall|i: int| 0 <= i < entries.len() ==> (#[trigger] entries[i]).2 == event_sources(evs, entries[i].0)
    &&& forall|j: int|
        0 <= j < evs.len() && !targets.contains(lowercase((#[trigger] evs[j]).1)) ==> exists|i: int|
            0 <= i < entries.len() && (#[trigger] entries[i]).0 == lowercase(evs[j].1)
}

proof fn lemma_event_sources_absent(evs: Seq<(Page, Seq<char>)>, k: Seq<char>)
    requires
        forall|j: int| 0 <= j < evs.len() ==> lowercase((#[trigger] evs[j]).1) != k,
    ensures
        event_sources(evs, k) == Seq::<Page>::empty(),
    decreases evs.len(),
{
    if evs.len() > 0 {
        let dl = evs.drop_last();
        assert forall|j: int| 0 <= j < dl.len() implies lowercase((#[trigger] dl[j]).1) != k by {
            assert(dl[j] == evs[j]);
        }
        lemma_event_sources_absent(dl, k);
        assert(evs.last() == evs[evs.len() - 1]);
    }
}

proof fn lemma_broken_step_accounts(entries: Seq<BrokenEntry>, evs: Seq<(Page, Seq<char>)>, ev: (Page, Seq<char>), targets: Seq<Seq<char>>)
    requires
        broken_accounts(entries, evs, targets),
    ensures
        broken_accounts(broken_step(entries, ev, targets), evs.push(ev), targets),
{
    lemma_broken_step_wf(entries, ev, targets);
    let k = lowercase(ev.1);
    let e2 = evs.push(ev);
    let r = broken_step(entries, ev, targets);
    assert(e2.drop_last() == evs);
    assert(e2.last() == ev);
    assert forall|j: int| 0 <= j < evs.len() implies #[trigger] e2[j] == evs[j] by {}
    if targets.contains(k) {
        assert forall|i: int| 0 <= i < r.len() implies (#[trigger] r[i]).2 == event_sources(e2, r[i].0) by {
            assert(!targets.contains(entries[i].0));
        }
        assert forall|j: int|
            0 <= j < e2.len() && !targets.contains(lowercase((#[trigger] e2[j]).1)) implies exists|i: int|
                0 <= i < r.len() && (#[trigger] r[i]).0 == lowercase(e2[j].1) by {
            assert(e2[j] == evs[j]);
        }
    } else {
        lemma_key_slot(entries, k);
        let slot = key_slot(entries, k);
        if 0 <= slot < entries.len() && entries[slot].0 == k {
            assert forall|i: int| 0 <= i < r.len() implies (#[trigger] r[i]).2 == event_sources(e2, r[i].0) by {
                if i != slot {
                    assert(r[i] == entries[i]);
                    if i < slot {
                        assert(seq_lt(entries[i].0, entries[slot].0));
                        lemma_seq_lt_irreflexive(k);
                    } else {
                        assert(seq_lt(entries[slot].0, entries[i].0));
                        lemma_seq_lt_irreflexive(k);
                    }
                }
            }
            assert forall|j: int|
                0 <= j < e2.len() && !targets.contains(lowercase((#[trigger] e2[j]).1)) implies exists|i: int|
                    0 <= i < r.len() && (#[trigger] r[i]).0 == lowercase(e2[j].1) by {
                if j < evs.len() {
                    assert(e2[j] == evs[j]);
                    let i = choose|i: int| 0 <= i < entries.len() && (#[trigger] entries[i]).0 == lowercase(evs[j].1);
                    assert(r[i].0 == entries[i].0);
                } else {
                    assert(r[slot].0 == k);
                }
            }
        } else {
            // no entry has key k, so no earlier occurrence has it
            assert forall|i: int| 0 <= i < entries.len() implies (#[trigger] entries[i]).0 != k by {
                if i >= slot {
                    if i > slot {
                        lemma_seq_lt_total(entries[slot].0, k);
                        assert(seq_lt(entries[slot].0, entries[i].0));
                        if entries[i].0 == k {
                            lemma_seq_lt_asym(entries[slot].0, k);
                        }
                    }
                } else {
                    lemma_seq_lt_irreflexive(k);
                }
            }
            assert forall|j: int| 0 <= j < evs.len() implies lowercase((#[trigger] evs[j]).1) != k by {
                if lowercase(evs[j].1) == k {
                    let i = choose|i: int| 0 <= i < entries.len() && (#[trigger] entries[i]).0 == lowercase(evs[j].1);
                }
            }
            lemma_event_sources_absent(evs, k);
            assert forall|i: int| 0 <= i < r.len() implies (#[trigger] r[i]).2 == event_sources(e2, r[i].0) by {
                if i < slot {
                    assert(r[i] == entries[i]);
                } else if i > slot {
                    assert(r[i] == entries[i - 1]);
                } else {
                    assert(event_sources(e2, k) == Seq::<Page>::empty().push(ev.0));
                }
            }
            assert forall|j: int|
                0 <= j < e2.len() && !targets.contains(lowercase((#[trigger] e2[j]).1)) implies exists|i: int|
                    0 <= i < r.len() && (#[trigger] r[i]).0 == lowercase(e2[j].1) by {
                if j < evs.len() {
                    assert(e2[j] == evs[j]);
                    let i = choose|i: int| 0 <= i < entries.len() && (#[trigger] entries[i]).0 == lowercase(evs[j].1);
                    if i < slot {
                        assert(r[i] == entries[i]);
                    } else {
                        assert(r[i + 1] == entries[i]);
                    }
                } else {
                    assert(r[slot].0 == k);
                }
            }
        }
    }
}

proof fn lemma_broken_from_accounts(evs: Seq<(Page, Seq<char>)>, targets: Seq<Seq<char>>)
    ensures
        broken_accounts(broken_from(Seq::empty(), evs, targets), evs, targets),
    decreases evs.len(),
{
    if evs.len() == 0 {
    } else {
        lemma_broken_from_accounts(evs.drop_last(), targets);
        lemma_broken_step_accounts(broken_from(Seq::empty(), evs.drop_last(), targets), evs.drop_last(), evs.last(), targets);
        assert(evs.drop_last().push(evs.last()) == evs);
    }
}

proof fn lemma_event_sources_concat(a: Seq<(Page, Seq<char>)>, b: Seq<(Page, Seq<char>)>, k: Seq<char>)
    ensures
        event_sources(a + b, k) == event_sources(a, k) + event_sources(b, k),
    decreases b.len(),
{
    if b.len() == 0 {
        assert(a + b =~= a);
    } else {
        assert((a + b).drop_last() =~= a + b.drop_last());
        lemma_event_sources_concat(a, b.drop_last(), k);
    }
}

proof fn lemma_event_sources_page(p: Page, ts: Seq<Seq<char>>, k: Seq<char>)
    requires
        keys_distinct(ts),
    ensures
        event_sources(ts.map_values(|t: Seq<char>| (p, t)), k) == if title_keys(ts).contains(k) {
            seq![p]
        } else {
            Seq::<Page>::empty()
        },
    decreases ts.len(),
{
    let evs = ts.map_values(|t: Seq<char>| (p, t));
    if ts.len() > 0 {
        let dl = ts.drop_last();
        assert(keys_distinct(dl)) by {
            assert forall|i: int, j: int| 0 <= i < j < dl.len() implies lowercase(#[trigger] dl[i]) != lowercase(#[trigger] dl[j]) by {
                assert(dl[i] == ts[i] && dl[j] == ts[j]);
            }
        }
        lemma_event_sources_page(p, dl, k);
        assert(evs.drop_last() =~= dl.map_values(|t: Seq<char>| (p, t)));
        assert(evs.last() == (p, ts.last()));
        if lowercase(ts.last()) == k {
            assert(title_keys(ts)[ts.len() - 1] == k);
            if title_keys(dl).contains(k) {
                let i = choose|i: int| 0 <= i < dl.len() && title_keys(dl)[i] == k;
                assert(ts[i] == dl[i]);
                assert(lowercase(ts[i]) != lowercase(ts[ts.len() - 1]));
            }
            assert(Seq::<Page>::empty().push(p) =~= seq![p]);
        } else {
            if title_keys(ts).contains(k) {
                let i = choose|i: int| 0 <= i < ts.len() && title_keys(ts)[i] == k;
                assert(title_keys(dl)[i] == k);
            }
            if title_keys(dl).contains(k) {
                let i = choose|i: int| 0 <= i < dl.len() && title_keys(dl)[i] == k;
                assert(title_keys(ts)[i] == k);
            }
        }
    } else {
        assert(!title_keys(ts).contains(k));
    }
}

proof fn lemma_event_sources_pages(pages: Seq<Page>, k: Seq<char>)
    ensures
        event_sources(link_events(pages), k) == pages_linking(pages, k),
    decreases pages.len(),
{
    if pages.len() > 0 {
        let dl = pages.drop_last();
        let p = pages.last();
        lemma_event_sources_pages(dl, k);
        lemma_event_sources_concat(link_events(dl), page_events(p), k);
        law_linked_titles(p.body_html@);
        lemma_event_sources_page(p, linked_titles(p.body_html@), k);
        if title_keys(linked_titles(p.body_html@)).contains(k) {
            assert(pages_linking(dl, k) + seq![p] =~= pages_linking(dl, k).push(p));
        } else {
            assert(pages_linking(dl, k) + Seq::<Page>::empty() =~= pages_linking(dl, k));
        }
    }
}

/// Law: each broken link's sources are exactly the pages (in order, once
/// each) that link to its title ignoring case; and every link whose title no
/// page has is reported under a broken link.
pub proof fn law_broken_link_sources(pages: Seq<Page>)
    ensures
        forall|i: int|
            0 <= i < broken_entries(pages).len() ==> (#[trigger] broken_entries(pages)[i]).2
                == pages_linking(pages, lowercase(broken_entries(pages)[i].1)),
        forall|j: int|
            0 <= j < link_events(pages).len() && !page_title_keys(pages).contains(
                lowercase((#[trigger] link_events(pages)[j]).1),
            ) ==> exists|i: int|
                0 <= i < broken_entries(pages).len() && lowercase(
                    (#[trigger] broken_entries(pages)[i]).1,
                ) == lowercase(link_events(pages)[j].1),
{
    let evs = link_events(pages);
    let targets = page_title_keys(pages);
    lemma_broken_from_accounts(evs, targets);
    let e = broken_entries(pages);
    assert forall|i: int| 0 <= i < e.len() implies (#[trigger] e[i]).2 == pages_linking(pages, lowercase(e[i].1)) by {
        lemma_event_sources_pages(pages, e[i].0);
    }
    assert forall|j: int|
        0 <= j < evs.len() && !targets.contains(lowercase((#[trigger] evs[j]).1)) implies exists|i: int|
            0 <= i < e.len() && lowercase((#[trigger] e[i]).1) == lowercase(evs[j].1) by {
        let i = choose|i: int| 0 <= i < e.len() && (#[trigger] e[i]).0 == lowercase(evs[j].1);
        assert(lowercase(e[i].1) == e[i].0);
    }
}

proof fn lemma_pages_linking_from(pages: Seq<Page>, k: Seq<char>)
    ensures
        forall|j: int|
            0 <= j < pages_linking(pages, k).len() ==> pages.contains(
                #[trigger] pages_linking(pages, k)[j],
            ),
    decreases pages.len(),
{
    if pages.len() > 0 {
        let dl = pages.drop_last();
        lemma_pages_linking_from(dl, k);
        let prev = pages_linking(dl, k);
        assert forall|j: int| 0 <= j < pages_linking(pages, k).len() implies pages.contains(
            #[trigger] pages_linking(pages, k)[j],
        ) by {
            if j < prev.len() {
                assert(pages_linking(pages, k)[j] == prev[j]);
                let m = choose|m: int| 0 <= m < dl.len() && dl[m] == prev[j];
                assert(pages[m] == dl[m]);
            } else {
                assert(pages_linking(pages, k)[j] == pages[pages.len() - 1]);
            }
        }
    }
}

/// Law: archived pages take no part in links.  A link resolves only to a
/// page that is not archived, so a title that only archived pages carry is a
/// missing page; archived pages are never backlinks, and never the source of
/// a broken link.
pub proof fn law_archived_pages_are_left_out(pages: Seq<Page>, key: Seq<char>, target: Page)
    ensures
        find_page(live(pages), key) matches Some(p) ==> pages.contains(p) && p.archived_at is None,
        (forall|i: int|
            0 <= i < pages.len() && lowercase((#[trigger] pages[i]).title@) == key
                ==> pages[i].archived_at is Some) ==> find_page(live(pages), key) is None,
        forall|x: Page| #[trigger]
            sort_by_title(backlink_sources(live(pages), target)).contains(x) ==> pages.contains(x)
                && x.archived_at is None,
        forall|i: int, j: int|
            0 <= i < broken_entries(live(pages)).len() && 0 <= j < broken_entries(
                live(pages),
            )[i].2.len() ==> pages.contains(#[trigger] broken_entries(live(pages))[i].2[j])
                && broken_entries(live(pages))[i].2[j].archived_at is None,
{
    let lp = live(pages);
    lemma_live(pages);
    lemma_find_page(lp, key);
    if let Some(p) = find_page(lp, key) {
        assert(lp.contains(p));
    }
    if forall|i: int|
        0 <= i < pages.len() && lowercase((#[trigger] pages[i]).title@) == key
            ==> pages[i].archived_at is Some {
        if let Some(p) = find_page(lp, key) {
            assert(lp.contains(p));
            let m = choose|m: int| 0 <= m < pages.len() && pages[m] == p;
            assert(lowercase(pages[m].title@) == key);
        }
    }
    law_backlinks(lp, target);
    assert forall|x: Page| #[trigger]
        sort_by_title(backlink_sources(lp, target)).contains(x) implies pages.contains(x)
            && x.archived_at is None by {
        assert(lp.contains(x));
    }
    law_broken_link_sources(lp);
    let e = broken_entries(lp);
    assert forall|i: int, j: int|
        0 <= i < e.len() && 0 <= j < e[i].2.len() implies pages.contains(#[trigger] e[i].2[j])
            && e[i].2[j].archived_at is None by {
        lemma_pages_linking_from(lp, lowercase(e[i].1));
        assert(lp.contains(e[i].2[j]));
    }
}

// ---------------------------------------------------------------------------
// Skipped elements
// ---------------------------------------------------------------------------

/// The elements whose text is left alone: `script`, `style`, `code`, `pre`.
pub open spec fn skip_element(name: Seq<char>) -> bool {
    ||| name == "script"@
    ||| name == "style"@
    ||| name == "code"@
    ||| name == "pre"@
}

/// The plain opening tag of an element, `<name>`.
pub open spec fn open_tag(name: Seq<char>) -> Seq<char> {
    seq!['<'] + name + seq!['>']
}

/// The closing tag of an element, `</name>`.
pub open spec fn close_tag(name: Seq<char>) -> Seq<char> {
    seq!['<', '/'] + name + seq!['>']
}

/// A lowercase ASCII letter.
pub open spec fn lower_letter(c: char) -> bool {
    'a' <= c <= 'z'
}

proof fn lemma_starts_with_self(s: Seq<char>, q: Seq<char>)
    requires
        q.len() <= s.len(),
        forall|k: int| 0 <= k < q.len() ==> s[k] == q[k] && !('A' <= #[trigger] s[k] <= 'Z'),
    ensures
        starts_with_ci(s, q),
{
}

proof fn lemma_not_starts(s: Seq<char>, q: Seq<char>, k: int)
    requires
        0 <= k < q.len(),
        k < s.len(),
        !('A' <= s[k] <= 'Z'),
        s[k] != q[k],
    ensures
        !starts_with_ci(s, q),
{
    assert(ascii_lower(s[k]) == s[k]);
}

proof fn lemma_skip_element_facts(name: Seq<char>)
    requires
        skip_element(name),
    ensures
        name.len() >= 1,
        forall|k: int| 0 <= k < name.len() ==> lower_letter(#[trigger] name[k]),
        next_depth(0, open_tag(name)) == 1,
        next_depth(1, close_tag(name)) == 0,
{
    reveal_strlit("script");
    reveal_strlit("style");
    reveal_strlit("code");
    reveal_strlit("pre");
    reveal_strlit("<script");
    reveal_strlit("<style");
    reveal_strlit("<code");
    reveal_strlit("<pre");
    reveal_strlit("</script");
    reveal_strlit("</style");
    reveal_strlit("</code");
    reveal_strlit("</pre");
    let o = open_tag(name);
    let c = close_tag(name);
    assert(forall|k: int| 0 <= k < name.len() ==> lower_letter(#[trigger] name[k]));
    assert(o[0] == '<' && o[1] == name[0] && c[0] == '<' && c[1] == '/');
    // the opening tag closes nothing, the closing tag opens nothing
    lemma_not_starts(o, "</script"@, 1);
    lemma_not_starts(o, "</style"@, 1);
    lemma_not_starts(o, "</code"@, 1);
    lemma_not_starts(o, "</pre"@, 1);
    lemma_not_starts(c, "<script"@, 1);
    lemma_not_starts(c, "<style"@, 1);
    lemma_not_starts(c, "<code"@, 1);
    lemma_not_starts(c, "<pre"@, 1);
    assert(!closes_skip(o));
    assert(!opens_skip(c));
    let q = seq!['<'] + name;
    let qc = seq!['<', '/'] + name;
    assert forall|k: int| 0 <= k < q.len() implies o[k] == q[k] && !('A' <= #[trigger] o[k] <= 'Z') by {
        if k > 0 {
            assert(o[k] == name[k - 1]);
            assert(lower_letter(name[k - 1]));
        }
    }
    assert forall|k: int| 0 <= k < qc.len() implies c[k] == qc[k] && !('A' <= #[trigger] c[k] <= 'Z') by {
        if k > 1 {
            assert(c[k] == name[k - 2]);
            assert(lower_letter(name[k - 2]));
        }
    }
    lemma_starts_with_self(o, q);
    lemma_starts_with_self(c, qc);
    if name == "script"@ {
        assert(q =~= "<script"@);
        assert(qc =~= "</script"@);
    } else if name == "style"@ {
        assert(q =~= "<style"@);
        assert(qc =~= "</style"@);
    } else if name == "code"@ {
        assert(q =~= "<code"@);
        assert(qc =~= "</code"@);
    } else {
        assert(q =~= "<pre"@);
        assert(qc =~= "</pre"@);
    }
    assert(opens_skip(o));
    assert(closes_skip(c));
}

proof fn lemma_first_from_shift(p: Seq<char>, t: Seq<char>, c: char, i: int)
    requires
        0 <= i,
    ensures
        first_from(p + t, c, p.len() + i) == p.len() + first_from(t, c, i),
    decreases t.len() - i,
{
    let s = p + t;
    if i < t.len() {
        assert(s[p.len() + i] == t[i]);
        if t[i] != c {
            lemma_first_from_shift(p, t, c, i + 1);
        }
    }
}

proof fn lemma_tag_end_shift(p: Seq<char>, t: Seq<char>, i: int)
    requires
        0 <= i,
    ensures
        tag_end(p + t, p.len() + i) == match tag_end(t, i) {
            Some(e) => Some(p.len() + e),
            None => None::<int>,
        },
{
    let s = p + t;
    if i < t.len() {
        assert(s[p.len() + i] == t[i]);
    }
    lemma_first_from_shift(p, t, '>', i + 1);
    lemma_first_from(t, '>', i + 1);
    if i < t.len() && t[i] == '<' {
        let j = first_from(t, '>', i + 1);
        if j < t.len() {
            assert(s[p.len() + j] == t[j]);
        }
    }
}

proof fn lemma_next_tag_shift(p: Seq<char>, t: Seq<char>, i: int)
    requires
        0 <= i,
    ensures
        next_tag(p + t, p.len() + i) == match next_tag(t, i) {
            Some((a, e)) => Some((p.len() + a, p.len() + e)),
            None => None::<(int, int)>,
        },
    decreases t.len() - i,
{
    if i < t.len() {
        lemma_tag_end_shift(p, t, i);
        if tag_end(t, i) is None {
            lemma_next_tag_shift(p, t, i + 1);
        }
    }
}

proof fn lemma_render_source_shift(p: Seq<char>, t: Seq<char>, i: int, depth: nat, pages: Seq<Page>)
    requires
        0 <= i <= t.len(),
    ensures
        render_source(p + t, p.len() + i, depth, pages) == render_source(t, i, depth, pages),
    decreases t.len() - i,
{
    let s = p + t;
    let n = p.len() as int;
    lemma_next_tag_shift(p, t, i);
    lemma_next_tag_bounds(t, i);
    match next_tag(t, i) {
        None => {
            assert(s.subrange(n + i, s.len() as int) =~= t.subrange(i, t.len() as int));
        },
        Some((a, e)) => {
            assert(s.subrange(n + i, n + a) =~= t.subrange(i, a));
            assert(s.subrange(n + a, n + e) =~= t.subrange(a, e));
            lemma_render_source_shift(p, t, e, next_depth(depth, t.subrange(a, e)), pages);
        },
    }
}

proof fn lemma_source_titles_shift(p: Seq<char>, t: Seq<char>, i: int, depth: nat)
    requires
        0 <= i <= t.len(),
    ensures
        source_titles(p + t, p.len() + i, depth) == source_titles(t, i, depth),
    decreases t.len() - i,
{
    let s = p + t;
    let n = p.len() as int;
    lemma_next_tag_shift(p, t, i);
    lemma_next_tag_bounds(t, i);
    match next_tag(t, i) {
        None => {
            assert(s.subrange(n + i, s.len() as int) =~= t.subrange(i, t.len() as int));
        },
        Some((a, e)) => {
            assert(s.subrange(n + i, n + a) =~= t.subrange(i, a));
            assert(s.subrange(n + a, n + e) =~= t.subrange(a, e));
            lemma_source_titles_shift(p, t, e, next_depth(depth, t.subrange(a, e)));
        },
    }
}

pub proof fn lemma_first_from_at(s: Seq<char>, c: char, i: int, j: int)
    requires
        0 <= i <= j < s.len(),
        s[j] == c,
        forall|k: int| i <= k < j ==> s[k] != c,
    ensures
        first_from(s, c, i) == j,
    decreases j - i,
{
    if i < j {
        lemma_first_from_at(s, c, i + 1, j);
    }
}

proof fn lemma_link_titles_plain(t: Seq<char>, pos: int)
    requires
        no_link_opening(t),
        0 <= pos,
    ensures
        link_titles(t, pos) == Seq::<Seq<char>>::empty(),
    decreases t.len() - pos,
{
    if pos < t.len() {
        assert(link_end(t, pos) is None);
        lemma_link_titles_plain(t, pos + 1);
    }
}

/// Text without `<`.
pub open spec fn no_tag_open(t: Seq<char>) -> bool {
    forall|k: int| 0 <= k < t.len() ==> t[k] != '<'
}

/// Where the tags of `t1 + <name> + x + </name> + t2` are, when `t1` and `x`
/// hold no `<`.
proof fn lemma_skipped_element_tags(t1: Seq<char>, name: Seq<char>, x: Seq<char>, t2: Seq<char>)
    requires
        skip_element(name),
        no_tag_open(t1),
        no_tag_open(x),
    ensures
        ({
            let pre = t1 + open_tag(name) + x + close_tag(name);
            let s = pre + t2;
            let e = t1.len() + name.len() + 2int;
            let b = e + x.len();
            &&& next_tag(s, 0) == Some((t1.len() as int, e))
            &&& next_tag(s, e) == Some((b, pre.len() as int))
            &&& s.subrange(0, t1.len() as int) == t1
            &&& s.subrange(t1.len() as int, e) == open_tag(name)
            &&& s.subrange(e, b) == x
            &&& s.subrange(b, pre.len() as int) == close_tag(name)
            &&& pre.len() == b + name.len() + 3
        }),
{
    lemma_skip_element_facts(name);
    let o = open_tag(name);
    let c = close_tag(name);
    let pre = t1 + o + x + c;
    let s = pre + t2;
    let n1 = t1.len() as int;
    let e = n1 + name.len() + 2;
    let b = e + x.len();
    assert forall|k: int| 0 <= k < n1 implies tag_end(s, k) is None by {
        assert(s[k] == t1[k]);
    }
    lemma_next_tag_skip(s, 0, n1);
    assert(s[n1] == '<');
    assert forall|k: int| n1 + 1 <= k < e - 1 implies s[k] != '>' by {
        assert(s[k] == name[k - n1 - 1]);
        assert(lower_letter(name[k - n1 - 1]));
    }
    assert(s[e - 1] == '>');
    lemma_first_from_at(s, '>', n1 + 1, e - 1);
    assert(tag_end(s, n1) == Some(e));
    assert forall|k: int| e <= k < b implies tag_end(s, k) is None by {
        assert(s[k] == x[k - e]);
    }
    lemma_next_tag_skip(s, e, b);
    assert(s[b] == '<');
    assert(s[b + 1] == '/');
    assert forall|k: int| b + 1 <= k < b + name.len() + 2 implies s[k] != '>' by {
        if k > b + 1 {
            assert(s[k] == name[k - b - 2]);
            assert(lower_letter(name[k - b - 2]));
        }
    }
    assert(s[b + name.len() + 2] == '>');
    lemma_first_from_at(s, '>', b + 1, b + name.len() + 2);
    assert(tag_end(s, b) == Some(b + name.len() + 3));
    assert(s.subrange(0, n1) =~= t1);
    assert(s.subrange(n1, e) =~= o);
    assert(s.subrange(e, b) =~= x);
    assert(s.subrange(b, pre.len() as int) =~= c);
}

/// Law: a closing `</script>`, `</style>`, `</code>` or `</pre>` ends the
/// region its opening tag began.  In a body `t1 + <name> + x + </name> + t2`
/// (no tag and no link in `t1`, no tag in `x`), the element is copied as it
/// is and everything after it renders exactly as if the element were absent.
pub proof fn law_skipped_element_ends_at_its_close(
    t1: Seq<char>,
    name: Seq<char>,
    x: Seq<char>,
    t2: Seq<char>,
    pages: Seq<Page>,
)
    requires
        skip_element(name),
        no_tag_open(t1),
        no_link_opening(t1),
        no_tag_open(x),
    ensures
        rendered(t1 + open_tag(name) + x + close_tag(name) + t2, pages) == t1 + open_tag(name) + x
            + close_tag(name) + rendered(t2, pages),
{
    lemma_skip_element_facts(name);
    lemma_skipped_element_tags(t1, name, x, t2);
    let pre = t1 + open_tag(name) + x + close_tag(name);
    let s = pre + t2;
    let e = t1.len() + name.len() + 2int;
    let b = e + x.len();
    lemma_render_links_plain(t1, 0, pages);
    assert(t1.subrange(0, t1.len() as int) =~= t1);
    lemma_render_source_shift(pre, t2, 0, 0, pages);
    assert(render_source(s, e, 1, pages) == x + close_tag(name) + render_source(
        s,
        pre.len() as int,
        0,
        pages,
    ));
    assert(rendered(s, pages) == t1 + open_tag(name) + render_source(s, e, 1, pages));
    assert(rendered(s, pages) =~= pre + rendered(t2, pages));
}

/// Law: links inside a `script`, `style`, `code` or `pre` element are not
/// link titles, and the element's closing tag ends that: in a body
/// `t1 + <name> + x + </name> + t2` (no tag and no link in `t1`, no tag in
/// `x`), the titles linked are exactly those of `t2`.
pub proof fn law_skipped_element_hides_only_its_own_links(
    t1: Seq<char>,
    name: Seq<char>,
    x: Seq<char>,
    t2: Seq<char>,
)
    requires
        skip_element(name),
        no_tag_open(t1),
        no_link_opening(t1),
        no_tag_open(x),
    ensures
        linked_titles(t1 + open_tag(name) + x + close_tag(name) + t2) == linked_titles(t2),
{
    lemma_skip_element_facts(name);
    lemma_skipped_element_tags(t1, name, x, t2);
    let pre = t1 + open_tag(name) + x + close_tag(name);
    let s = pre + t2;
    let e = t1.len() + name.len() + 2int;
    lemma_link_titles_plain(t1, 0);
    lemma_source_titles_shift(pre, t2, 0, 0);
    assert(source_titles(s, e, 1) =~= source_titles(t2, 0, 0));
    assert(source_titles(s, 0, 0) =~= source_titles(t2, 0, 0));
}

/// Law: backlinks come in order of lowercased title (case is ignored: a
/// title in lowercase does not sort after every capitalised one), and they are
/// exactly the unarchived pages other than the target that link to it.
pub proof fn law_backlinks_ordered_ignoring_case(pages: Seq<Page>, target: Page)
    ensures
        forall|i: int, j: int|
            0 <= i < j < sort_by_title(backlink_sources(live(pages), target)).len() ==> !seq_lt(
                lowercase((#[trigger] sort_by_title(backlink_sources(live(pages), target))[j]).title@),
                lowercase((#[trigger] sort_by_title(backlink_sources(live(pages), target))[i]).title@),
            ),
        forall|x: Page| #[trigger]
            sort_by_title(backlink_sources(live(pages), target)).contains(x) <==> (pages.contains(x)
                && x.archived_at is None && x.id != target.id && title_keys(
                linked_titles(x.body_html@),
            ).contains(lowercase(target.title@))),
{
    lemma_live(pages);
    law_backlinks(live(pages), target);
    let r = sort_by_title(backlink_sources(live(pages), target));
    assert forall|i: int, j: int| 0 <= i < j < r.len() implies !seq_lt(
        lowercase((#[trigger] r[j]).title@),
        lowercase((#[trigger] r[i]).title@),
    ) by {
        assert(title_key(r[j]) == lowercase(r[j].title@));
        assert(title_key(r[i]) == lowercase(r[i].title@));
    }
    assert forall|x: Page| #[trigger] r.contains(x) <==> (pages.contains(x) && x.archived_at is None
        && x.id != target.id && title_keys(linked_titles(x.body_html@)).contains(
        lowercase(target.title@),
    )) by {
        assert(live(pages).contains(x) <==> (pages.contains(x) && x.archived_at is None));
    }
}

} // verus!
