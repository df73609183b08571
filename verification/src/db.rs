//! The rules of page storage that do not touch the database: validation,
//! slugs, search text, full-text queries, edit summaries, timestamps.  The
//! caller runs the SQL.
use vstd::prelude::*;
use crate::models::{Page, PageForm, Revision, is_content_type, valid_type};
use crate::error::AppError;
use crate::render::first_from;
use crate::text::{
    chars_of, collapse_ws, collapse_whitespace, decimal, decimal_of, is_blank, is_white_space,
    join, join_chars, push_chars, push_str, signed_decimal, signed_decimal_of, slice_chars,
    split_words, string_of, trim, trim_str, words,
};
use crate::encode::{encode_text, escape_text, decode_html_entities, decoded_entities, is_slug, slugified, slugify};

verus! {

// ---------------------------------------------------------------------------
// Time
// ---------------------------------------------------------------------------

/// Whole seconds from the Unix epoch to now (`SystemTime::now()`,
/// `duration_since(UNIX_EPOCH)`, `as_secs()`); `None` when the clock is set
/// before the epoch.  The clock is outside the program, so nothing is stated.
#[verifier::external_body]
fn seconds_since_epoch() -> Option<u64> {
    match std::time::SystemTime::now().duration_since(std::time::UNIX_EPOCH) {
        Ok(d) => Some(d.as_secs()),
        Err(_) => None,
    }
}

/// A timestamp from the seconds since the epoch: 0 when the clock is before
/// the epoch, and the seconds as an `i64` otherwise.
pub fn timestamp_from(elapsed: Option<u64>) -> (t: i64)
    ensures
        t == match elapsed {
            Some(s) => s as i64,
            None => 0i64,
        },
{
    match elapsed {
        Some(s) => s as i64,
        None => 0,
    }
}

/// The current Unix time in seconds.
pub fn now() -> i64 {
    timestamp_from(seconds_since_epoch())
}

// ---------------------------------------------------------------------------
// Search text
// ---------------------------------------------------------------------------

/// `s` from `pos` on with every tag (`<`, then anything up to the first `>`)
/// replaced by a space.
pub open spec fn strip_tags_from(s: Seq<char>, pos: int) -> Seq<char>
    decreases s.len() - pos,
{
    if pos < 0 || pos >= s.len() {
        Seq::empty()
    } else if s[pos] == '<' && first_from(s, '>', pos + 1) < s.len() {
        let j = first_from(s, '>', pos + 1);
        if j > pos {
            seq![' '] + strip_tags_from(s, j + 1)
        } else {
            Seq::empty()
        }
    } else {
        seq![s[pos]] + strip_tags_from(s, pos + 1)
    }
}

/// The searchable text of a page body: tags replaced by spaces, character
/// references decoded, and whitespace collapsed to single spaces.
pub open spec fn search_text_of(html: Seq<char>) -> Seq<char> {
    collapse_ws(decoded_entities(strip_tags_from(html, 0)))
}

proof fn lemma_strip_no_close(s: Seq<char>, pos: int)
    requires
        0 <= pos <= s.len(),
        forall|k: int| pos <= k < s.len() ==> s[k] != '>',
    ensures
        strip_tags_from(s, pos) == s.subrange(pos, s.len() as int),
    decreases s.len() - pos,
{
    if pos < s.len() {
        lemma_first_from_none(s, pos + 1);
        lemma_strip_no_close(s, pos + 1);
        assert(s.subrange(pos, s.len() as int) =~= seq![s[pos]] + s.subrange(
            pos + 1,
            s.len() as int,
        ));
    } else {
        assert(s.subrange(pos, s.len() as int) =~= Seq::<char>::empty());
    }
}

proof fn lemma_first_from_none(s: Seq<char>, i: int)
    requires
        0 <= i,
        forall|k: int| i <= k < s.len() ==> s[k] != '>',
    ensures
        first_from(s, '>', i) == s.len(),
    decreases s.len() - i,
{
    if i < s.len() {
        lemma_first_from_none(s, i + 1);
    }
}

/// `html` with every tag replaced by a space.
fn strip_tags(html: &Vec<char>) -> (r: Vec<char>)
    ensures
        r@ == strip_tags_from(html@, 0),
{
    let n = html.len();
    let mut out: Vec<char> = Vec::new();
    let mut pos: usize = 0;
    while pos < n
        invariant_except_break
            n == html.len(),
            0 <= pos <= n,
            out@ + strip_tags_from(html@, pos as int) == strip_tags_from(html@, 0),
        ensures
            out@ == strip_tags_from(html@, 0),
        decreases n - pos,
    {
        if html[pos] == '<' {
            let mut j: usize = pos + 1;
            while j < n && html[j] != '>'
                invariant
                    pos < j <= n,
                    n == html.len(),
                    forall|k: int| pos < k < j ==> html@[k] != '>',
                    first_from(html@, '>', pos + 1) == first_from(html@, '>', j as int),
                decreases n - j,
            {
                j = j + 1;
            }
            if j == n {
                proof {
                    lemma_strip_no_close(html@, pos as int);
                }
                let rest = slice_chars(html, pos, n);
                push_chars(&mut out, &rest);
                break ;
            }
            assert(first_from(html@, '>', j as int) == j);
            out.push(' ');
            pos = j + 1;
        } else {
            out.push(html[pos]);
            pos = pos + 1;
        }
    }
    out
}

/// Law: the search text of any body has no whitespace at either end, and its
/// only whitespace is single spaces between words.
pub proof fn law_search_text_collapsed(html: Seq<char>)
    ensures
        crate::text::is_collapsed(search_text_of(html)),
{
    crate::text::law_collapse_ws(decoded_entities(strip_tags_from(html, 0)));
}

proof fn lemma_strip_copies(s: Seq<char>, pos: int, k: int)
    requires
        0 <= pos <= k <= s.len(),
        forall|i: int| pos <= i < k ==> s[i] != '<',
    ensures
        strip_tags_from(s, pos) == s.subrange(pos, k) + strip_tags_from(s, k),
    decreases k - pos,
{
    if pos < k {
        lemma_strip_copies(s, pos + 1, k);
        assert(s.subrange(pos, k) =~= seq![s[pos]] + s.subrange(pos + 1, k));
    } else {
        assert(s.subrange(pos, k) =~= Seq::<char>::empty());
    }
}

/// Law: tags are stripped before character references are decoded, so
/// decoding never removes text.  The search text of a paragraph
/// `<p>` + `t` + `</p>` whose text holds no `<` or `>` is the decoded text of
/// `t` (between the spaces that stand for the tags) with its whitespace
/// collapsed; a decoded `&lt;` is never taken for the start of a tag.
pub proof fn law_search_text_decodes_after_stripping(t: Seq<char>)
    requires
        forall|i: int| 0 <= i < t.len() ==> t[i] != '<' && t[i] != '>',
    ensures
        search_text_of(seq!['<', 'p', '>'] + t + seq!['<', '/', 'p', '>']) == collapse_ws(
            decoded_entities(seq![' '] + t + seq![' ']),
        ),
{
    let s = seq!['<', 'p', '>'] + t + seq!['<', '/', 'p', '>'];
    let n = t.len() as int;
    assert(s[0] == '<' && s[1] == 'p' && s[2] == '>');
    crate::render::lemma_first_from_at(s, '>', 1, 2);
    assert(strip_tags_from(s, 0) == seq![' '] + strip_tags_from(s, 3));
    assert forall|i: int| 3 <= i < 3 + n implies s[i] != '<' by {
        assert(s[i] == t[i - 3]);
    }
    lemma_strip_copies(s, 3, 3 + n);
    assert(s.subrange(3, 3 + n) =~= t);
    assert(s[3 + n] == '<' && s[4 + n] == '/' && s[5 + n] == 'p' && s[6 + n] == '>');
    crate::render::lemma_first_from_at(s, '>', 4 + n, 6 + n);
    assert(strip_tags_from(s, 3 + n) == seq![' '] + strip_tags_from(s, 7 + n));
    assert(strip_tags_from(s, 0) =~= seq![' '] + t + seq![' ']);
}

/// The text the full-text index holds for a page body.
pub fn search_text(html: &str) -> (r: String)
    ensures
        r@ == search_text_of(html@),
{
    let v = chars_of(html);
    let stripped = strip_tags(&v);
    let s = string_of(&stripped);
    let decoded = decode_html_entities(s.as_str());
    let collapsed = collapse_whitespace(decoded.as_str());
    string_of(&collapsed)
}

// ---------------------------------------------------------------------------
// Validation
// ---------------------------------------------------------------------------

/// The largest page body accepted, in bytes.
pub const MAX_BODY_BYTES: usize = 2000000;

/// Why a page form is rejected, if it is.
pub open spec fn form_problem(form: PageForm) -> Option<Seq<char>> {
    if trim(form.title@).len() == 0 {
        Some("A title is required."@)
    } else if !is_content_type(form.content_type@) {
        Some("Choose a valid campaign content type."@)
    } else if (vstd::utf8::encode_utf8(form.body_html@).len() as usize) > 2000000 {
        Some("The dossier body is too large."@)
    } else {
        None
    }
}

/// Checks a page form: a title, a valid content type, and a body of at most
/// 2,000,000 bytes.
pub fn validate(form: &PageForm) -> (r: Result<(), AppError>)
    ensures
        match r {
            Ok(()) => form_problem(*form) is None,
            Err(e) => e matches AppError::Validation(m) && form_problem(*form) == Some(m@),
        },
{
    if is_blank(form.title.as_str()) {
        return Err(AppError::Validation("A title is required.".to_owned()));
    }
    if !valid_type(form.content_type.as_str()) {
        return Err(AppError::Validation("Choose a valid campaign content type.".to_owned()));
    }
    if form.body_html.as_str().len() > MAX_BODY_BYTES {
        return Err(AppError::Validation("The dossier body is too large.".to_owned()));
    }
    Ok(())
}

// ---------------------------------------------------------------------------
// Slugs
// ---------------------------------------------------------------------------

/// The slug a page asks for: the requested slug slugified, or the title
/// slugified when no slug was requested; "untitled" when that is empty.
pub open spec fn base_slug(requested: Seq<char>, title: Seq<char>) -> Seq<char> {
    let s = slugified(
        if trim(requested).len() == 0 {
            title
        } else {
            requested
        },
    );
    if s.len() == 0 {
        "untitled"@
    } else {
        s
    }
}

/// The `n`-th slug tried for a page: the base itself, then `base-2`, `base-3`, ...
pub open spec fn slug_candidate_of(base: Seq<char>, n: nat) -> Seq<char> {
    if n == 1 {
        base
    } else {
        base + seq!['-'] + decimal(n)
    }
}

/// How many slugs are tried before giving up.
pub open spec fn slug_attempts() -> nat {
    9999
}

/// The slug a page asks for.
pub fn slug_base(requested: &str, title: &str) -> (r: String)
    ensures
        r@ == base_slug(requested@, title@),
{
    let s = if is_blank(requested) {
        slugify(title)
    } else {
        slugify(requested)
    };
    if s.as_str().is_empty() {
        "untitled".to_owned()
    } else {
        s
    }
}

/// The `n`-th slug to try for `base` (counting from 1), or `None` once the
/// tries are used up.
pub fn slug_candidate(base: &str, n: u32) -> (r: Option<String>)
    requires
        n >= 1,
    ensures
        n > slug_attempts() ==> r is None,
        n <= slug_attempts() ==> (r matches Some(c) && c@ == slug_candidate_of(base@, n as nat)),
{
    if n >= 10000 {
        return None;
    }
    if n == 1 {
        return Some(string_of(&chars_of(base)));
    }
    let mut out = chars_of(base);
    out.push('-');
    let d = decimal_of(n as u64);
    push_chars(&mut out, &d);
    Some(string_of(&out))
}

/// Whether a slug candidate is free: no other page uses it (`used`) and no
/// other page keeps it as a redirect (`redirected`).
pub fn slug_is_free(used: i64, redirected: i64) -> (b: bool)
    ensures
        b == (used == 0 && redirected == 0),
{
    used == 0 && redirected == 0
}

/// What to do once the `n`-th slug candidate has been checked.
#[derive(Debug)]
pub enum SlugStep {
    /// Take this slug: it is free.
    Take(String),
    /// Check the candidate with this number next.
    Try(u32),
    /// No candidate is free: the tries are used up.
    Exhausted,
}

/// The step after checking candidate `n`, which is free or not: take it when
/// free, else try the next one while tries are left.
pub open spec fn slug_step_ok(base: Seq<char>, n: nat, free: bool, r: SlugStep) -> bool {
    if free {
        r matches SlugStep::Take(c) && c@ == slug_candidate_of(base, n)
    } else if n < slug_attempts() {
        r matches SlugStep::Try(m) && m == n + 1
    } else {
        r is Exhausted
    }
}

/// The step after checking the `n`-th candidate for `base`: `used` pages have
/// it as their slug and `redirected` pages keep it as a redirect.
pub fn slug_step(base: &str, n: u32, used: i64, redirected: i64) -> (r: SlugStep)
    requires
        1 <= n <= slug_attempts(),
    ensures
        slug_step_ok(base@, n as nat, used == 0 && redirected == 0, r),
{
    if slug_is_free(used, redirected) {
        match slug_candidate(base, n) {
            Some(c) => SlugStep::Take(c),
            None => SlugStep::Exhausted,
        }
    } else if n < 9999 {
        SlugStep::Try(n + 1)
    } else {
        SlugStep::Exhausted
    }
}

/// The number of the first free candidate from the `n`-th on, while tries
/// are left; `free(k)` says whether the `k`-th candidate is free.
pub open spec fn first_free_from(free: spec_fn(nat) -> bool, n: nat) -> Option<nat>
    decreases slug_attempts() + 1 - n,
{
    if n < 1 || n > slug_attempts() {
        None
    } else if free(n) {
        Some(n)
    } else {
        first_free_from(free, n + 1)
    }
}

proof fn lemma_first_free_from(free: spec_fn(nat) -> bool, n: nat)
    requires
        n >= 1,
    ensures
        first_free_from(free, n) matches Some(k) ==> n <= k <= slug_attempts() && free(k) && forall|j: nat|
            n <= j < k ==> !#[trigger] free(j),
        first_free_from(free, n) is None ==> forall|j: nat| n <= j <= slug_attempts() ==> !#[trigger] free(j),
    decreases slug_attempts() + 1 - n,
{
    if n <= slug_attempts() && !free(n) {
        lemma_first_free_from(free, n + 1);
    }
}

/// Law: the slug search takes the first free candidate.  Checking candidates
/// from the first on and following `slug_step` ends with `Take` of candidate
/// `k` exactly when `k` is the first free one, and with `Exhausted` when none
/// of the tries is free.
pub proof fn law_slug_search_takes_first_free(
    base: Seq<char>,
    free: spec_fn(nat) -> bool,
    n: nat,
    r: SlugStep,
)
    requires
        1 <= n <= slug_attempts(),
        slug_step_ok(base, n, free(n), r),
    ensures
        r matches SlugStep::Take(c) ==> first_free_from(free, n) == Some(n) && c@
            == slug_candidate_of(base, n),
        r matches SlugStep::Try(m) ==> 1 <= m <= slug_attempts() && first_free_from(free, m as nat)
            == first_free_from(free, n),
        r is Exhausted ==> first_free_from(free, n) is None,
        first_free_from(free, 1) matches Some(k) ==> 1 <= k <= slug_attempts() && free(k) && forall|j: nat|
            1 <= j < k ==> !#[trigger] free(j),
        first_free_from(free, 1) is None ==> forall|j: nat| 1 <= j <= slug_attempts() ==> !#[trigger] free(j),
{
    lemma_first_free_from(free, 1);
    if n == slug_attempts() {
        assert(first_free_from(free, (n + 1) as nat) is None);
    }
}

/// The error when no free slug was found.
pub fn unique_slug_exhausted() -> (r: AppError)
    ensures
        r matches AppError::Validation(m) && m@ == "Could not create a unique slug."@,
{
    AppError::Validation("Could not create a unique slug.".to_owned())
}

proof fn lemma_decimal_digits(n: nat)
    ensures
        decimal(n).len() > 0,
        forall|i: int| 0 <= i < decimal(n).len() ==> '0' <= #[trigger] decimal(n)[i] <= '9',
    decreases n,
{
    if n >= 10 {
        lemma_decimal_digits(n / 10);
    }
}

/// Law: every slug the wiki tries has the slug shape (`a-z`, `0-9`, single
/// dashes, no dash at either end), given a base of that shape.
pub proof fn law_slug_candidates_are_slugs(base: Seq<char>, n: nat)
    requires
        is_slug(base),
        base.len() > 0,
        n >= 1,
    ensures
        is_slug(slug_candidate_of(base, n)),
        slug_candidate_of(base, n).len() > 0,
{
    if n != 1 {
        lemma_decimal_digits(n);
        let d = decimal(n);
        let c = base + seq!['-'] + d;
        assert forall|i: int| 0 <= i < c.len() implies crate::encode::slug_char(#[trigger] c[i]) by {
            if i < base.len() {
                assert(c[i] == base[i]);
            } else if i > base.len() {
                assert(c[i] == d[i - base.len() - 1]);
            }
        }
        assert forall|i: int| 0 <= i < c.len() - 1 implies !(#[trigger] c[i] == '-' && c[i + 1]
            == '-') by {
            if i < base.len() - 1 {
                assert(c[i] == base[i] && c[i + 1] == base[i + 1]);
            } else if i == base.len() - 1 {
                assert(c[i] == base.last());
            } else if i == base.len() {
                assert(c[i + 1] == d[0]);
            } else {
                assert(c[i] == d[i - base.len() - 1]);
            }
        }
        assert(c[0] == base[0]);
        assert(c.last() == d.last());
    }
}

/// Law: the slug a page asks for is never empty and always has the slug shape.
pub proof fn law_base_slug_is_slug(requested: Seq<char>, title: Seq<char>, s: Seq<char>)
    requires
        is_slug(s),
        s == slugified(
            if trim(requested).len() == 0 {
                title
            } else {
                requested
            },
        ),
    ensures
        is_slug(base_slug(requested, title)),
        base_slug(requested, title).len() > 0,
{
    if s.len() == 0 {
        reveal_strlit("untitled");
        let u = base_slug(requested, title);
        assert(u == "untitled"@);
        assert forall|i: int| 0 <= i < u.len() implies crate::encode::slug_char(#[trigger] u[i]) by {}
    }
}

// ---------------------------------------------------------------------------
// Edit summaries and forms
// ---------------------------------------------------------------------------

/// The summary recorded for an edit: the one given, trimmed, or `default` if blank.
pub open spec fn summary_of(given: Seq<char>, default: Seq<char>) -> Seq<char> {
    if trim(given).len() == 0 {
        default
    } else {
        trim(given)
    }
}

/// The summary recorded for an edit from `form`.
pub fn edit_summary(form: &PageForm, default: &str) -> (r: String)
    ensures
        r@ == summary_of(form.edit_summary@, default@),
{
    let t = trim_str(form.edit_summary.as_str());
    if t.len() == 0 {
        string_of(&chars_of(default))
    } else {
        string_of(&t)
    }
}

/// The title stored for a form: trimmed.
pub fn stored_title(form: &PageForm) -> (r: String)
    ensures
        r@ == trim(form.title@),
{
    string_of(&trim_str(form.title.as_str()))
}

/// What saving a form writes: the page row, which is also the new revision,
/// with the summary recorded for it, and the old slug to keep as a redirect.
#[derive(Debug)]
pub struct PageWrite {
    pub title: String,
    pub slug: String,
    pub body_html: String,
    pub search_text: String,
    pub content_type: String,
    pub is_gm_secret: bool,
    pub summary: String,
    pub redirect_from: Option<String>,
}

/// The row (and revision) a form writes under the slug chosen for it.
pub open spec fn write_of(w: PageWrite, form: PageForm, slug: Seq<char>, default: Seq<char>) -> bool {
    &&& w.title@ == trim(form.title@)
    &&& w.slug@ == slug
    &&& w.body_html@ == form.body_html@
    &&& w.search_text@ == search_text_of(form.body_html@)
    &&& w.content_type@ == form.content_type@
    &&& w.is_gm_secret == form.is_gm_secret
    &&& w.summary@ == summary_of(form.edit_summary@, default)
}

fn page_write(form: &PageForm, slug: String, default: &str) -> (w: PageWrite)
    ensures
        write_of(w, *form, slug@, default@),
        w.redirect_from is None,
{
    PageWrite {
        title: stored_title(form),
        slug,
        body_html: form.body_html.clone(),
        search_text: search_text(form.body_html.as_str()),
        content_type: form.content_type.clone(),
        is_gm_secret: form.is_gm_secret,
        summary: edit_summary(form, default),
        redirect_from: None,
    }
}

/// What creating a page from a form writes ("Created page" when no summary is given).
pub fn create_write(form: &PageForm, slug: String) -> (w: PageWrite)
    ensures
        write_of(w, *form, slug@, "Created page"@),
        w.redirect_from is None,
{
    page_write(form, slug, "Created page")
}

/// What updating a page from a form writes ("Updated page" when no summary is
/// given); when the slug changes, the old slug is kept as a redirect to the page.
pub fn update_write(old: &Page, form: &PageForm, slug: String) -> (w: PageWrite)
    ensures
        write_of(w, *form, slug@, "Updated page"@),
        old.slug@ != slug@ ==> (w.redirect_from matches Some(r) && r@ == old.slug@),
        old.slug@ == slug@ ==> w.redirect_from is None,
{
    let changed = !crate::text::str_eq(old.slug.as_str(), slug.as_str());
    let mut w = page_write(form, slug, "Updated page");
    if changed {
        w.redirect_from = Some(old.slug.clone());
    }
    w
}

/// The form that puts a page back to a revision.
pub fn restore_form(rev: &Revision, revision_id: i64) -> (r: PageForm)
    ensures
        r.title@ == rev.title@,
        r.slug@ == rev.slug@,
        r.body_html@ == rev.body_html@,
        r.content_type@ == rev.content_type@,
        r.is_gm_secret == rev.is_gm_secret,
        r.edit_summary@ == "Restored revision #"@ + signed_decimal(revision_id as int),
{
    let mut summary = chars_of("Restored revision #");
    let d = signed_decimal_of(revision_id);
    push_chars(&mut summary, &d);
    PageForm {
        title: rev.title.clone(),
        slug: rev.slug.clone(),
        body_html: rev.body_html.clone(),
        content_type: rev.content_type.clone(),
        is_gm_secret: rev.is_gm_secret,
        edit_summary: string_of(&summary),
    }
}

// ---------------------------------------------------------------------------
// The active session and quick notes
// ---------------------------------------------------------------------------

/// Whether a page can be the active session: session notes that are not archived.
pub open spec fn session_eligible(page: Page) -> bool {
    page.archived_at is None && page.content_type@ == "session_notes"@
}

/// Whether a page can be the active session.
pub fn can_be_active_session(page: &Page) -> (b: bool)
    ensures
        b == session_eligible(*page),
{
    page.archived_at.is_none() && crate::text::str_eq(page.content_type.as_str(), "session_notes")
}

/// Checks that a page may be made the active session.
pub fn active_session_check(page: &Page) -> (r: Result<(), AppError>)
    ensures
        r is Ok <==> session_eligible(*page),
        r matches Err(e) ==> e matches AppError::Validation(m) && m@
            == "Only unarchived session notes can be the active session."@,
{
    if can_be_active_session(page) {
        Ok(())
    } else {
        Err(AppError::Validation("Only unarchived session notes can be the active session.".to_owned()))
    }
}

/// The active session once `page` has been saved or archived: unchanged,
/// unless it is that page and the page can no longer be the active session.
pub open spec fn active_after_spec(active: Option<i64>, page: Page) -> Option<i64> {
    match active {
        Some(id) => if id == page.id && !session_eligible(page) {
            None
        } else {
            Some(id)
        },
        None => None,
    }
}

/// The active session once `page` (as it now stands) has been saved or archived.
pub fn active_after(active: Option<i64>, page: &Page) -> (r: Option<i64>)
    ensures
        r == active_after_spec(active, *page),
{
    match active {
        Some(id) => if id == page.id && !can_be_active_session(page) {
            None
        } else {
            Some(id)
        },
        None => None,
    }
}

/// Law: archiving the active session, or giving it another content type,
/// leaves no active session; saving any other page, or the active session
/// while it stays unarchived session notes, keeps the setting as it was.
pub proof fn law_active_session_follows_page(active: Option<i64>, page: Page)
    ensures
        active == Some(page.id) && (page.archived_at is Some || page.content_type@
            != "session_notes"@) ==> active_after_spec(active, page) is None,
        active != Some(page.id) ==> active_after_spec(active, page) == active,
        session_eligible(page) ==> active_after_spec(active, page) == active,
{
}

/// The error when a quick note is added while no session is active.
pub fn no_active_session() -> (r: AppError)
    ensures
        r matches AppError::Validation(m) && m@ == "No session is active."@,
{
    AppError::Validation("No session is active.".to_owned())
}

/// Line breaks written as `<br>` (carriage returns dropped).
pub open spec fn line_breaks(s: Seq<char>) -> Seq<char>
    decreases s.len(),
{
    if s.len() == 0 {
        Seq::empty()
    } else {
        line_breaks(s.drop_last()) + (if s.last() == '\n' {
            seq!['<', 'b', 'r', '>']
        } else if s.last() == '\r' {
            Seq::empty()
        } else {
            seq![s.last()]
        })
    }
}

/// The HTML of a quick note: the note trimmed, text-escaped, and each line
/// break written as `<br>`.
pub open spec fn note_html_of(note: Seq<char>) -> Seq<char> {
    line_breaks(escape_text(trim(note)))
}

/// The body of a session page once a quick note is added: the note as a
/// paragraph after the existing body.
pub open spec fn body_with_note(body: Seq<char>, note: Seq<char>) -> Seq<char> {
    body + "<p>"@ + note_html_of(note) + "</p>"@
}

/// The HTML of a quick note.
pub fn note_html(note: &str) -> (r: Vec<char>)
    ensures
        r@ == note_html_of(note@),
{
    let t = string_of(&trim_str(note));
    let e = chars_of(encode_text(t.as_str()).as_str());
    let mut out: Vec<char> = Vec::new();
    let mut i: usize = 0;
    while i < e.len()
        invariant
            0 <= i <= e.len(),
            out@ == line_breaks(e@.take(i as int)),
        decreases e.len() - i,
    {
        assert(e@.take(i + 1).drop_last() == e@.take(i as int));
        assert(e@.take(i + 1).last() == e@[i as int]);
        let c = e[i];
        if c == '\n' {
            push_str(&mut out, "<br>");
            proof {
                reveal_strlit("<br>");
            }
        } else if c != '\r' {
            out.push(c);
        }
        i = i + 1;
    }
    assert(e@.take(e.len() as int) == e@);
    out
}

/// The form that adds a quick note to a session page: the page as it is,
/// with the note appended to its body and the summary "Quick note added".
/// A blank note is refused.
pub fn quick_note_form(page: &Page, note: &str) -> (r: Result<PageForm, AppError>)
    ensures
        match r {
            Ok(f) => {
                &&& trim(note@).len() > 0
                &&& f.title@ == page.title@
                &&& f.slug@ == page.slug@
                &&& f.body_html@ == body_with_note(page.body_html@, note@)
                &&& f.content_type@ == page.content_type@
                &&& f.is_gm_secret == page.is_gm_secret
                &&& f.edit_summary@ == "Quick note added"@
            },
            Err(e) => trim(note@).len() == 0 && (e matches AppError::Validation(m) && m@
                == "A quick note cannot be empty."@),
        },
{
    if is_blank(note) {
        return Err(AppError::Validation("A quick note cannot be empty.".to_owned()));
    }
    let mut body = chars_of(page.body_html.as_str());
    push_str(&mut body, "<p>");
    let n = note_html(note);
    push_chars(&mut body, &n);
    push_str(&mut body, "</p>");
    Ok(
        PageForm {
            title: page.title.clone(),
            slug: page.slug.clone(),
            body_html: string_of(&body),
            content_type: page.content_type.clone(),
            is_gm_secret: page.is_gm_secret,
            edit_summary: "Quick note added".to_owned(),
        },
    )
}

// ---------------------------------------------------------------------------
// Full-text queries
// ---------------------------------------------------------------------------

/// Whether a character is alphanumeric (`char::is_alphanumeric`: the Unicode
/// Alphabetic or Numeric property).
pub uninterp spec fn alphanumeric(c: char) -> bool;

/// `char::is_alphanumeric`.
#[verifier::external_body]
fn is_alphanumeric(c: char) -> (b: bool)
    ensures
        b == alphanumeric(c),
{
    c.is_alphanumeric()
}

/// Number of non-alphanumeric characters at the start of `s`.
pub open spec fn leading_punct(s: Seq<char>) -> nat
    decreases s.len(),
{
    if s.len() == 0 {
        0
    } else if !alphanumeric(s[0]) {
        1 + leading_punct(s.drop_first())
    } else {
        0
    }
}

/// Number of non-alphanumeric characters at the end of `s`.
pub open spec fn trailing_punct(s: Seq<char>) -> nat
    decreases s.len(),
{
    if s.len() == 0 {
        0
    } else if !alphanumeric(s.last()) {
        1 + trailing_punct(s.drop_last())
    } else {
        0
    }
}

/// `s` without non-alphanumeric characters at either end (`trim_matches`).
pub open spec fn trim_punct(s: Seq<char>) -> Seq<char> {
    if leading_punct(s) == s.len() {
        Seq::empty()
    } else {
        s.subrange(leading_punct(s) as int, s.len() - trailing_punct(s))
    }
}

/// `s` with each `"` doubled.
pub open spec fn double_quotes(s: Seq<char>) -> Seq<char>
    decreases s.len(),
{
    if s.len() == 0 {
        Seq::empty()
    } else {
        double_quotes(s.drop_last()) + (if s.last() == '"' {
            seq!['"', '"']
        } else {
            seq![s.last()]
        })
    }
}

/// A prefix query for one term: the term quoted, then `*`.
pub open spec fn fts_term(t: Seq<char>) -> Seq<char> {
    seq!['"'] + double_quotes(t) + seq!['"', '*']
}

/// The prefix terms of the words of a query, skipping words with no
/// alphanumeric characters.
pub open spec fn fts_terms(ws: Seq<Seq<char>>) -> Seq<Seq<char>>
    decreases ws.len(),
{
    if ws.len() == 0 {
        Seq::empty()
    } else {
        let prev = fts_terms(ws.drop_last());
        let t = trim_punct(ws.last());
        if t.len() == 0 {
            prev
        } else {
            prev.push(fts_term(t))
        }
    }
}

/// The full-text query for a search: the prefix terms separated by spaces
/// (empty when no word has an alphanumeric character).
pub open spec fn fts_query_of(query: Seq<char>) -> Seq<char> {
    join(fts_terms(words(query)), seq![' '])
}

proof fn lemma_leading_punct(s: Seq<char>, i: int)
    requires
        0 <= i <= s.len(),
        forall|k: int| 0 <= k < i ==> !alphanumeric(#[trigger] s[k]),
        i == s.len() || alphanumeric(s[i]),
    ensures
        leading_punct(s) == i,
    decreases i,
{
    if i > 0 {
        let t = s.drop_first();
        assert forall|k: int| 0 <= k < i - 1 implies !alphanumeric(#[trigger] t[k]) by {
            assert(t[k] == s[k + 1]);
        }
        if i - 1 < t.len() {
            assert(t[i - 1] == s[i]);
        }
        lemma_leading_punct(t, i - 1);
    }
}

proof fn lemma_trailing_punct(s: Seq<char>, j: int)
    requires
        0 <= j <= s.len(),
        forall|k: int| j <= k < s.len() ==> !alphanumeric(#[trigger] s[k]),
        j == 0 || alphanumeric(s[j - 1]),
    ensures
        trailing_punct(s) == s.len() - j,
    decreases s.len() - j,
{
    if j < s.len() {
        let t = s.drop_last();
        assert forall|k: int| j <= k < t.len() implies !alphanumeric(#[trigger] t[k]) by {
            assert(t[k] == s[k]);
        }
        if j > 0 {
            assert(t[j - 1] == s[j - 1]);
        }
        lemma_trailing_punct(t, j);
    }
}

/// `w` without non-alphanumeric characters at either end.
fn trim_punct_chars(w: &Vec<char>) -> (r: Vec<char>)
    ensures
        r@ == trim_punct(w@),
{
    let n = w.len();
    let mut i: usize = 0;
    while i < n && !is_alphanumeric(w[i])
        invariant
            0 <= i <= n == w.len(),
            forall|k: int| 0 <= k < i ==> !alphanumeric(#[trigger] w@[k]),
        decreases n - i,
    {
        i = i + 1;
    }
    proof {
        lemma_leading_punct(w@, i as int);
    }
    if i == n {
        return Vec::new();
    }
    let mut j: usize = n;
    while j > i && !is_alphanumeric(w[j - 1])
        invariant
            0 <= i < n == w.len(),
            i <= j <= n,
            alphanumeric(w@[i as int]),
            forall|k: int| j <= k < n ==> !alphanumeric(#[trigger] w@[k]),
        decreases j,
    {
        j = j - 1;
    }
    proof {
        lemma_trailing_punct(w@, j as int);
    }
    slice_chars(w, i, j)
}

/// The prefix term for `t`.
fn quote_term(t: &Vec<char>) -> (r: Vec<char>)
    ensures
        r@ == fts_term(t@),
{
    let mut body: Vec<char> = Vec::new();
    let mut i: usize = 0;
    while i < t.len()
        invariant
            0 <= i <= t.len(),
            body@ == double_quotes(t@.take(i as int)),
        decreases t.len() - i,
    {
        assert(t@.take(i + 1).drop_last() == t@.take(i as int));
        assert(t@.take(i + 1).last() == t@[i as int]);
        if t[i] == '"' {
            body.push('"');
            body.push('"');
        } else {
            body.push(t[i]);
        }
        i = i + 1;
    }
    assert(t@.take(t.len() as int) == t@);
    let mut r: Vec<char> = Vec::new();
    r.push('"');
    push_chars(&mut r, &body);
    r.push('"');
    r.push('*');
    assert(r@ =~= seq!['"'] + body@ + seq!['"', '*']);
    r
}

/// The full-text query for a search string (empty when there is nothing to
/// search for).
pub fn fts_query(query: &str) -> (r: String)
    ensures
        r@ == fts_query_of(query@),
{
    let v = chars_of(query);
    let ws = split_words(&v);
    let ghost wv = ws@.map_values(|w: Vec<char>| w@);
    let mut terms: Vec<Vec<char>> = Vec::new();
    let mut i: usize = 0;
    while i < ws.len()
        invariant
            0 <= i <= ws.len(),
            wv == ws@.map_values(|w: Vec<char>| w@),
            wv == words(query@),
            terms@.map_values(|w: Vec<char>| w@) == fts_terms(wv.take(i as int)),
        decreases ws.len() - i,
    {
        assert(wv.take(i + 1).drop_last() == wv.take(i as int));
        assert(wv.take(i + 1).last() == ws@[i as int]@);
        let t = trim_punct_chars(&ws[i]);
        if t.len() > 0 {
            let ghost t0 = terms@.map_values(|w: Vec<char>| w@);
            let q = quote_term(&t);
            terms.push(q);
            assert(terms@.map_values(|w: Vec<char>| w@) =~= t0.push(fts_term(t@)));
        }
        i = i + 1;
    }
    assert(wv.take(ws.len() as int) == wv);
    let joined = join_chars(&terms, " ");
    proof {
        reveal_strlit(" ");
        assert(" "@ == seq![' ']);
    }
    string_of(&joined)
}

} // verus!
